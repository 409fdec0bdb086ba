//! A table keyed by text, at most one row per key: the shape of every `video_id`-keyed table the
//! app keeps (offsets, the lyrics cache, the downloads catalogue).
use vstd::prelude::*;

use crate::text::{chars_of, string_of};

verus! {

pub open spec fn row_keys<V>(s: Seq<(String, V)>) -> Seq<Seq<char>> {
    s.map_values(|e: (String, V)| e.0@)
}

/// The rows as a map from key to value.
pub open spec fn row_map<V>(s: Seq<(String, V)>) -> Map<Seq<char>, V>
    decreases s.len(),
{
    if s.len() == 0 {
        Map::empty()
    } else {
        row_map(s.drop_last()).insert(s.last().0@, s.last().1)
    }
}

proof fn lemma_row_dom<V>(s: Seq<(String, V)>)
    ensures
        row_map(s).dom() =~= row_keys(s).to_set(),
    decreases s.len(),
{
    if s.len() > 0 {
        lemma_row_dom(s.drop_last());
        assert(row_keys(s) =~= row_keys(s.drop_last()).push(s.last().0@));
        row_keys(s.drop_last()).lemma_push_to_set_commute(s.last().0@);
    } else {
        assert(row_keys(s) =~= Seq::<Seq<char>>::empty());
    }
}

proof fn lemma_row_get<V>(s: Seq<(String, V)>, i: int)
    requires
        row_keys(s).no_duplicates(),
        0 <= i < s.len(),
    ensures
        row_map(s).contains_key(s[i].0@),
        row_map(s)[s[i].0@] == s[i].1,
    decreases s.len(),
{
    lemma_row_dom(s);
    assert(row_keys(s)[i] == s[i].0@);
    if i < s.len() - 1 {
        assert(row_keys(s.drop_last()) =~= row_keys(s).drop_last());
        assert(s.drop_last()[i] == s[i]);
        lemma_row_get(s.drop_last(), i);
        assert(row_keys(s)[s.len() - 1] != row_keys(s)[i]);
    }
}

proof fn lemma_row_absent<V>(s: Seq<(String, V)>, k: Seq<char>)
    requires
        forall|j: int| 0 <= j < s.len() ==> s[j].0@ != k,
    ensures
        !row_map(s).contains_key(k),
{
    lemma_row_dom(s);
    if row_keys(s).to_set().contains(k) {
        let j = choose|j: int| 0 <= j < row_keys(s).len() && row_keys(s)[j] == k;
        assert(s[j].0@ == k);
    }
}

proof fn lemma_row_update<V>(s: Seq<(String, V)>, i: int, e: (String, V))
    requires
        row_keys(s).no_duplicates(),
        0 <= i < s.len(),
        e.0@ == s[i].0@,
    ensures
        row_map(s.update(i, e)) =~= row_map(s).insert(e.0@, e.1),
        row_keys(s.update(i, e)) =~= row_keys(s),
    decreases s.len(),
{
    assert(row_keys(s.update(i, e)) =~= row_keys(s));
    if i == s.len() - 1 {
        assert(s.update(i, e).drop_last() =~= s.drop_last());
    } else {
        assert(s.update(i, e).drop_last() =~= s.drop_last().update(i, e));
        assert(row_keys(s.drop_last()) =~= row_keys(s).drop_last());
        lemma_row_update(s.drop_last(), i, e);
        assert(row_keys(s)[s.len() - 1] != row_keys(s)[i]);
    }
}

proof fn lemma_row_remove<V>(s: Seq<(String, V)>, i: int)
    requires
        row_keys(s).no_duplicates(),
        0 <= i < s.len(),
    ensures
        row_map(s.remove(i)) =~= row_map(s).remove(s[i].0@),
        row_keys(s.remove(i)).no_duplicates(),
    decreases s.len(),
{
    let k = row_keys(s);
    assert(row_keys(s.remove(i)) =~= k.remove(i));
    assert(k.remove(i).no_duplicates()) by {
        let t = k.remove(i);
        assert forall|a: int, b: int| 0 <= a < t.len() && 0 <= b < t.len() && a != b implies t[a]
            != t[b] by {
            let a2 = if a < i { a } else { a + 1 };
            let b2 = if b < i { b } else { b + 1 };
            assert(t[a] == k[a2] && t[b] == k[b2]);
        }
    }
    lemma_row_dom(s.drop_last());
    if i == s.len() - 1 {
        assert(s.remove(i) =~= s.drop_last());
        assert(row_keys(s.drop_last()) =~= k.drop_last());
        assert(!row_keys(s.drop_last()).contains(s[i].0@)) by {
            if row_keys(s.drop_last()).contains(s[i].0@) {
                let j = choose|j: int|
                    0 <= j < row_keys(s.drop_last()).len() && row_keys(s.drop_last())[j]
                        == s[i].0@;
                assert(k[j] == k[i]);
            }
        }
    } else {
        assert(s.remove(i).drop_last() =~= s.drop_last().remove(i));
        assert(s.remove(i).last() == s.last());
        assert(row_keys(s.drop_last()) =~= k.drop_last());
        lemma_row_remove(s.drop_last(), i);
        assert(k[s.len() - 1] != k[i]);
    }
}

/// The rows as `(key, value)` pairs, in the order the table holds them.
pub open spec fn row_entries<V>(s: Seq<(String, V)>) -> Seq<(Seq<char>, V)> {
    s.map_values(|e: (String, V)| (e.0@, e.1))
}

/// A text-keyed table.
pub struct Table<V> {
    rows: Vec<(String, V)>,
}

impl<V> View for Table<V> {
    type V = Map<Seq<char>, V>;

    closed spec fn view(&self) -> Map<Seq<char>, V> {
        row_map(self.rows@)
    }
}

impl<V> Table<V> {
    /// No key held twice.
    pub closed spec fn wf(&self) -> bool {
        row_keys(self.rows@).no_duplicates()
    }

    /// The rows in the order the table holds them; every key once, each with its value.
    pub closed spec fn entries(&self) -> Seq<(Seq<char>, V)> {
        row_entries(self.rows@)
    }

    /// What `entries` is: the table's rows, each key once.
    pub proof fn lemma_entries(&self)
        requires
            self.wf(),
        ensures
            self.entries().map_values(|e: (Seq<char>, V)| e.0).no_duplicates(),
            self.entries().map_values(|e: (Seq<char>, V)| e.0).to_set() =~= self@.dom(),
            forall|i: int|
                0 <= i < self.entries().len() ==> #[trigger] self@.contains_key(
                    self.entries()[i].0,
                ) && self@[self.entries()[i].0] == self.entries()[i].1,
            self.entries().len() == self@.dom().len(),
            self@.dom().finite(),
    {
        let s = self.rows@;
        let ks = self.entries().map_values(|e: (Seq<char>, V)| e.0);
        assert(ks =~= row_keys(s));
        lemma_row_dom(s);
        assert forall|i: int| 0 <= i < self.entries().len() implies #[trigger] self@.contains_key(
            self.entries()[i].0,
        ) && self@[self.entries()[i].0] == self.entries()[i].1 by {
            lemma_row_get(s, i);
        }
        row_keys(s).unique_seq_to_set();
    }

    pub fn new() -> (t: Self)
        ensures
            t.wf(),
            t@ == Map::<Seq<char>, V>::empty(),
            t.entries().len() == 0,
    {
        let t = Table { rows: Vec::new() };
        assert(row_keys(t.rows@) =~= Seq::<Seq<char>>::empty());
        t
    }

    /// How many rows the table holds.
    pub fn len(&self) -> (n: usize)
        ensures
            n == self.entries().len(),
    {
        self.rows.len()
    }

    /// The key of the `i`th row.
    pub fn key_at(&self, i: usize) -> (k: &String)
        requires
            i < self.entries().len(),
        ensures
            k@ == self.entries()[i as int].0,
    {
        &self.rows[i].0
    }

    /// The value of the `i`th row.
    pub fn value_at(&self, i: usize) -> (v: &V)
        requires
            i < self.entries().len(),
        ensures
            *v == self.entries()[i as int].1,
    {
        &self.rows[i].1
    }

    fn find(&self, key: &str) -> (r: Option<usize>)
        ensures
            match r {
                Some(i) => i < self.rows@.len() && self.rows@[i as int].0@ == key@,
                None => forall|j: int| 0 <= j < self.rows@.len() ==> self.rows@[j].0@ != key@,
            },
    {
        let k = string_of(&chars_of(key));
        let mut i: usize = 0;
        while i < self.rows.len()
            invariant
                i <= self.rows.len(),
                k@ == key@,
                forall|j: int| 0 <= j < i ==> self.rows@[j].0@ != key@,
            decreases self.rows.len() - i,
        {
            if self.rows[i].0 == k {
                return Some(i);
            }
            i += 1;
        }
        None
    }

    /// The value stored under `key`.
    pub fn get(&self, key: &str) -> (r: Option<&V>)
        requires
            self.wf(),
        ensures
            r is Some == self@.contains_key(key@),
            r matches Some(v) ==> *v == self@[key@],
    {
        match self.find(key) {
            Some(i) => {
                proof {
                    lemma_row_get(self.rows@, i as int);
                }
                Some(&self.rows[i].1)
            },
            None => {
                proof {
                    lemma_row_absent(self.rows@, key@);
                }
                None
            },
        }
    }

    /// Stores `value` under `key`, replacing what was there.
    pub fn put(&mut self, key: &str, value: V)
        requires
            old(self).wf(),
        ensures
            final(self).wf(),
            final(self)@ == old(self)@.insert(key@, value),
    {
        match self.find(key) {
            Some(i) => {
                let name = self.rows[i].0.clone();
                let e = (name, value);
                proof {
                    lemma_row_update(self.rows@, i as int, e);
                }
                let ghost before = self.rows@;
                self.rows.set(i, e);
                assert(self.rows@ =~= before.update(i as int, e));
            },
            None => {
                let ghost before = self.rows@;
                let e = (string_of(&chars_of(key)), value);
                self.rows.push(e);
                proof {
                    assert(row_keys(self.rows@) =~= row_keys(before).push(key@));
                    assert(self.rows@.drop_last() =~= before);
                    assert(!row_keys(before).contains(key@));
                }
            },
        }
    }

    /// Removes `key` (nothing happens when it is not stored).
    pub fn remove(&mut self, key: &str)
        requires
            old(self).wf(),
        ensures
            final(self).wf(),
            final(self)@ == old(self)@.remove(key@),
    {
        match self.find(key) {
            Some(i) => {
                proof {
                    lemma_row_remove(self.rows@, i as int);
                }
                self.rows.remove(i);
            },
            None => {
                proof {
                    lemma_row_absent(self.rows@, key@);
                    assert(row_map(self.rows@).remove(key@) =~= row_map(self.rows@));
                }
            },
        }
    }

    /// Removes `key` and hands back what was stored under it.
    pub fn take(&mut self, key: &str) -> (r: Option<V>)
        requires
            old(self).wf(),
        ensures
            final(self).wf(),
            final(self)@ == old(self)@.remove(key@),
            r is Some == old(self)@.contains_key(key@),
            r matches Some(v) ==> v == old(self)@[key@],
    {
        match self.find(key) {
            Some(i) => {
                proof {
                    lemma_row_get(self.rows@, i as int);
                    lemma_row_remove(self.rows@, i as int);
                }
                let (_, v) = self.rows.remove(i);
                Some(v)
            },
            None => {
                proof {
                    lemma_row_absent(self.rows@, key@);
                    assert(row_map(self.rows@).remove(key@) =~= row_map(self.rows@));
                }
                None
            },
        }
    }

    /// Removes every row.
    pub fn clear(&mut self)
        ensures
            final(self).wf(),
            final(self)@ == Map::<Seq<char>, V>::empty(),
            final(self).entries().len() == 0,
    {
        self.rows.clear();
        assert(row_keys(self.rows@) =~= Seq::<Seq<char>>::empty());
    }
}

} // verus!
