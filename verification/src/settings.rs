//! The settings table: string keys to string values, and the sign-in records kept in it. The
//! account the app plays as is written as a group of keys that must change together (the
//! cookie, the chosen identity, its delegated channel id, the account record, and a marker while
//! a channel still has to be picked); each operation here is one such group.
use vstd::prelude::*;

use crate::lyrics::{clone_string, opt_string_view};
use crate::text::{chars_eq, chars_of, string_of};

verus! {

pub open spec fn keys_of(s: Seq<(String, String)>) -> Seq<Seq<char>> {
    s.map_values(|e: (String, String)| e.0@)
}

/// The rows as a map.
pub open spec fn kv_map(s: Seq<(String, String)>) -> Map<Seq<char>, Seq<char>>
    decreases s.len(),
{
    if s.len() == 0 {
        Map::empty()
    } else {
        kv_map(s.drop_last()).insert(s.last().0@, s.last().1@)
    }
}

proof fn lemma_kv_dom(s: Seq<(String, String)>)
    ensures
        kv_map(s).dom() =~= keys_of(s).to_set(),
    decreases s.len(),
{
    if s.len() > 0 {
        lemma_kv_dom(s.drop_last());
        assert(keys_of(s) =~= keys_of(s.drop_last()).push(s.last().0@));
        keys_of(s.drop_last()).lemma_push_to_set_commute(s.last().0@);
    } else {
        assert(keys_of(s) =~= Seq::<Seq<char>>::empty());
    }
}

proof fn lemma_kv_get(s: Seq<(String, String)>, i: int)
    requires
        keys_of(s).no_duplicates(),
        0 <= i < s.len(),
    ensures
        kv_map(s).contains_key(s[i].0@),
        kv_map(s)[s[i].0@] == s[i].1@,
    decreases s.len(),
{
    lemma_kv_dom(s);
    assert(keys_of(s)[i] == s[i].0@);
    if i < s.len() - 1 {
        assert(keys_of(s.drop_last()) =~= keys_of(s).drop_last());
        assert(s.drop_last()[i] == s[i]);
        lemma_kv_get(s.drop_last(), i);
        assert(keys_of(s)[s.len() - 1] != keys_of(s)[i]);
    }
}

proof fn lemma_kv_absent(s: Seq<(String, String)>, k: Seq<char>)
    requires
        forall|j: int| 0 <= j < s.len() ==> s[j].0@ != k,
    ensures
        !kv_map(s).contains_key(k),
{
    lemma_kv_dom(s);
    if keys_of(s).to_set().contains(k) {
        let j = choose|j: int| 0 <= j < keys_of(s).len() && keys_of(s)[j] == k;
        assert(s[j].0@ == k);
    }
}

proof fn lemma_kv_update(s: Seq<(String, String)>, i: int, e: (String, String))
    requires
        keys_of(s).no_duplicates(),
        0 <= i < s.len(),
        e.0@ == s[i].0@,
    ensures
        kv_map(s.update(i, e)) =~= kv_map(s).insert(e.0@, e.1@),
        keys_of(s.update(i, e)) =~= keys_of(s),
    decreases s.len(),
{
    assert(keys_of(s.update(i, e)) =~= keys_of(s));
    if i == s.len() - 1 {
        assert(s.update(i, e).drop_last() =~= s.drop_last());
    } else {
        assert(s.update(i, e).drop_last() =~= s.drop_last().update(i, e));
        assert(keys_of(s.drop_last()) =~= keys_of(s).drop_last());
        lemma_kv_update(s.drop_last(), i, e);
        assert(keys_of(s)[s.len() - 1] != keys_of(s)[i]);
    }
}

proof fn lemma_kv_remove(s: Seq<(String, String)>, i: int)
    requires
        keys_of(s).no_duplicates(),
        0 <= i < s.len(),
    ensures
        kv_map(s.remove(i)) =~= kv_map(s).remove(s[i].0@),
        keys_of(s.remove(i)).no_duplicates(),
    decreases s.len(),
{
    let k = keys_of(s);
    assert(keys_of(s.remove(i)) =~= k.remove(i));
    assert(k.remove(i).no_duplicates()) by {
        let t = k.remove(i);
        assert forall|a: int, b: int| 0 <= a < t.len() && 0 <= b < t.len() && a != b implies t[a]
            != t[b] by {
            let a2 = if a < i { a } else { a + 1 };
            let b2 = if b < i { b } else { b + 1 };
            assert(t[a] == k[a2] && t[b] == k[b2]);
        }
    }
    lemma_kv_dom(s.drop_last());
    if i == s.len() - 1 {
        assert(s.remove(i) =~= s.drop_last());
        assert(keys_of(s.drop_last()) =~= k.drop_last());
        assert(!keys_of(s.drop_last()).contains(s[i].0@)) by {
            if keys_of(s.drop_last()).contains(s[i].0@) {
                let j = choose|j: int|
                    0 <= j < keys_of(s.drop_last()).len() && keys_of(s.drop_last())[j] == s[i].0@;
                assert(k[j] == k[i]);
            }
        }
    } else {
        assert(s.remove(i).drop_last() =~= s.drop_last().remove(i));
        assert(s.remove(i).last() == s.last());
        assert(keys_of(s.drop_last()) =~= k.drop_last());
        lemma_kv_remove(s.drop_last(), i);
        assert(k[s.len() - 1] != k[i]);
    }
}

/// The settings table.
pub struct SettingsStore {
    rows: Vec<(String, String)>,
}

impl View for SettingsStore {
    type V = Map<Seq<char>, Seq<char>>;

    closed spec fn view(&self) -> Map<Seq<char>, Seq<char>> {
        kv_map(self.rows@)
    }
}

impl SettingsStore {
    /// No key stored twice.
    pub closed spec fn wf(&self) -> bool {
        keys_of(self.rows@).no_duplicates()
    }

    pub fn new() -> (s: Self)
        ensures
            s.wf(),
            s@ == Map::<Seq<char>, Seq<char>>::empty(),
    {
        let s = SettingsStore { rows: Vec::new() };
        assert(keys_of(s.rows@) =~= Seq::<Seq<char>>::empty());
        s
    }

    fn find(&self, key: &str) -> (r: Option<usize>)
        ensures
            match r {
                Some(i) => i < self.rows@.len() && self.rows@[i as int].0@ == key@,
                None => forall|j: int| 0 <= j < self.rows@.len() ==> self.rows@[j].0@ != key@,
            },
    {
        let k = chars_of(key);
        let mut i: usize = 0;
        while i < self.rows.len()
            invariant
                i <= self.rows.len(),
                k@ == key@,
                forall|j: int| 0 <= j < i ==> self.rows@[j].0@ != key@,
            decreases self.rows.len() - i,
        {
            if chars_eq(&chars_of(self.rows[i].0.as_str()), &k) {
                return Some(i);
            }
            i += 1;
        }
        None
    }

    /// The value stored under `key`.
    pub fn get_setting(&self, key: &str) -> (r: Option<String>)
        requires
            self.wf(),
        ensures
            opt_string_view(r) == (if self@.contains_key(key@) {
                Some(self@[key@])
            } else {
                None
            }),
    {
        match self.find(key) {
            Some(i) => {
                proof {
                    lemma_kv_get(self.rows@, i as int);
                }
                Some(clone_string(&self.rows[i].1))
            },
            None => {
                proof {
                    lemma_kv_absent(self.rows@, key@);
                }
                None
            },
        }
    }

    /// Stores `value` under `key`, replacing what was there.
    pub fn set_setting(&mut self, key: &str, value: &str)
        requires
            old(self).wf(),
        ensures
            final(self).wf(),
            final(self)@ == old(self)@.insert(key@, value@),
    {
        match self.find(key) {
            Some(i) => {
                let name = clone_string(&self.rows[i].0);
                let e = (name, string_of(&chars_of(value)));
                proof {
                    lemma_kv_update(self.rows@, i as int, e);
                }
                let ghost before = self.rows@;
                self.rows.set(i, e);
                assert(self.rows@ =~= before.update(i as int, e));
            },
            None => {
                let ghost before = self.rows@;
                let e = (string_of(&chars_of(key)), string_of(&chars_of(value)));
                self.rows.push(e);
                proof {
                    assert(keys_of(self.rows@) =~= keys_of(before).push(key@));
                    assert(self.rows@.drop_last() =~= before);
                    assert(!keys_of(before).contains(key@));
                }
            },
        }
    }

    /// Removes `key` (nothing happens when it is not stored).
    pub fn delete_setting(&mut self, key: &str)
        requires
            old(self).wf(),
        ensures
            final(self).wf(),
            final(self)@ == old(self)@.remove(key@),
    {
        match self.find(key) {
            Some(i) => {
                proof {
                    lemma_kv_remove(self.rows@, i as int);
                }
                self.rows.remove(i);
            },
            None => {
                proof {
                    lemma_kv_absent(self.rows@, key@);
                    assert(kv_map(self.rows@).remove(key@) =~= kv_map(self.rows@));
                }
            },
        }
    }

    /// Every stored setting as `(key, value)`, in no particular order.
    pub fn all_settings(&self) -> (r: Vec<(String, String)>)
        requires
            self.wf(),
        ensures
            r.len() == self@.dom().len(),
            forall|i: int| 0 <= i < r.len() ==> self@.contains_key((#[trigger] r@[i]).0@) && self@[r@[i].0@]
                == r@[i].1@,
            forall|i: int, j: int| 0 <= i < j < r.len() ==> (#[trigger] r@[i]).0@ != (#[trigger] r@[j]).0@,
    {
        proof {
            lemma_kv_dom(self.rows@);
            keys_of(self.rows@).unique_seq_to_set();
        }
        let mut out: Vec<(String, String)> = Vec::new();
        let mut i: usize = 0;
        while i < self.rows.len()
            invariant
                i <= self.rows.len(),
                self.wf(),
                out.len() == i,
                forall|k: int| 0 <= k < i ==> (#[trigger] out@[k]).0@ == self.rows@[k].0@ && out@[k].1@
                    == self.rows@[k].1@,
            decreases self.rows.len() - i,
        {
            out.push((self.rows[i].0.clone(), self.rows[i].1.clone()));
            i += 1;
        }
        proof {
            assert forall|k: int| 0 <= k < out.len() implies self@.contains_key((#[trigger] out@[k]).0@)
                && self@[out@[k].0@] == out@[k].1@ by {
                lemma_kv_get(self.rows@, k);
            }
            assert forall|a: int, b: int| 0 <= a < b < out.len() implies (#[trigger] out@[a]).0@
                != (#[trigger] out@[b]).0@ by {
                assert(keys_of(self.rows@)[a] == self.rows@[a].0@);
                assert(keys_of(self.rows@)[b] == self.rows@[b].0@);
            }
        }
        out
    }

    /// Signs in as a chosen identity, all at once: the cookie, the identity and the account are
    /// stored, the delegated channel id is stored or (when the identity has none) removed, and
    /// the pending-choice marker goes.
    pub fn set_auth_identity(
        &mut self,
        session_cookie: &str,
        selected_json: &str,
        data_sync_id: Option<&str>,
        account_json: &str,
    )
        requires
            old(self).wf(),
        ensures
            final(self).wf(),
            final(self)@ == auth_identity_spec(
                old(self)@,
                session_cookie@,
                selected_json@,
                crate::lyrics::opt_str_view(data_sync_id),
                account_json@,
            ),
    {
        self.set_setting("session_cookie", session_cookie);
        self.set_setting("selected_identity_json", selected_json);
        match data_sync_id {
            Some(id) => self.set_setting("data_sync_id", id),
            None => self.delete_setting("data_sync_id"),
        }
        self.set_setting("account_json", account_json);
        self.delete_setting("account_selection_pending");
    }

    /// Keeps a signed-in cookie while a channel still has to be picked: the cookie is stored,
    /// every identity record is removed, and the pending-choice marker is set.
    pub fn set_pending_auth_selection(&mut self, session_cookie: &str)
        requires
            old(self).wf(),
        ensures
            final(self).wf(),
            final(self)@ == pending_selection_spec(old(self)@, session_cookie@),
    {
        self.set_setting("session_cookie", session_cookie);
        self.delete_setting("selected_identity_json");
        self.delete_setting("data_sync_id");
        self.delete_setting("account_json");
        self.set_setting("account_selection_pending", "true");
    }

    /// Signs out of the identity: every identity record and the marker are removed (the
    /// cookie is left to its own command).
    pub fn clear_auth_identity(&mut self)
        requires
            old(self).wf(),
        ensures
            final(self).wf(),
            final(self)@ == clear_identity_spec(old(self)@),
    {
        self.delete_setting("selected_identity_json");
        self.delete_setting("data_sync_id");
        self.delete_setting("account_json");
        self.delete_setting("account_selection_pending");
    }
}

/// A setting reads back what was last written under its key (and nothing once deleted);
/// writing or deleting one key leaves every other key as it was.
pub proof fn lemma_setting_read_after_write(
    m: Map<Seq<char>, Seq<char>>,
    key: Seq<char>,
    value: Seq<char>,
    other: Seq<char>,
)
    ensures
        m.insert(key, value).contains_key(key) && m.insert(key, value)[key] == value,
        !m.remove(key).contains_key(key),
        other != key ==> m.insert(key, value).contains_key(other) == m.contains_key(other),
        other != key && m.contains_key(other) ==> m.insert(key, value)[other] == m[other],
        other != key ==> m.remove(key).contains_key(other) == m.contains_key(other),
        other != key && m.contains_key(other) ==> m.remove(key)[other] == m[other],
{
}

/// See `SettingsStore::set_auth_identity`.
pub open spec fn auth_identity_spec(
    m: Map<Seq<char>, Seq<char>>,
    cookie: Seq<char>,
    selected: Seq<char>,
    data_sync_id: Option<Seq<char>>,
    account: Seq<char>,
) -> Map<Seq<char>, Seq<char>> {
    let a = m.insert("session_cookie"@, cookie).insert("selected_identity_json"@, selected);
    let b = match data_sync_id {
        Some(id) => a.insert("data_sync_id"@, id),
        None => a.remove("data_sync_id"@),
    };
    b.insert("account_json"@, account).remove("account_selection_pending"@)
}

/// See `SettingsStore::set_pending_auth_selection`.
pub open spec fn pending_selection_spec(m: Map<Seq<char>, Seq<char>>, cookie: Seq<char>) -> Map<
    Seq<char>,
    Seq<char>,
> {
    m.insert("session_cookie"@, cookie).remove("selected_identity_json"@).remove(
        "data_sync_id"@,
    ).remove("account_json"@).insert("account_selection_pending"@, "true"@)
}

/// See `SettingsStore::clear_auth_identity`.
pub open spec fn clear_identity_spec(m: Map<Seq<char>, Seq<char>>) -> Map<Seq<char>, Seq<char>> {
    m.remove("selected_identity_json"@).remove("data_sync_id"@).remove("account_json"@).remove(
        "account_selection_pending"@,
    )
}

/// The sign-in records always change as a group: after a pick, the identity is complete and
/// nothing is pending; after a pending sign-in, no identity record survives and the marker is
/// set; after signing out, none of them is left; and every other setting is untouched.
pub proof fn lemma_identity_records_move_together(
    m: Map<Seq<char>, Seq<char>>,
    cookie: Seq<char>,
    selected: Seq<char>,
    data_sync_id: Option<Seq<char>>,
    account: Seq<char>,
    other: Seq<char>,
)
    requires
        other != "session_cookie"@,
        other != "selected_identity_json"@,
        other != "data_sync_id"@,
        other != "account_json"@,
        other != "account_selection_pending"@,
    ensures
        ({
            let a = auth_identity_spec(m, cookie, selected, data_sync_id, account);
            &&& a["session_cookie"@] == cookie
            &&& a["selected_identity_json"@] == selected
            &&& a["account_json"@] == account
            &&& a.contains_key("data_sync_id"@) == (data_sync_id is Some)
            &&& !a.contains_key("account_selection_pending"@)
            &&& a.contains_key(other) == m.contains_key(other)
            &&& m.contains_key(other) ==> a[other] == m[other]
        }),
        ({
            let p = pending_selection_spec(m, cookie);
            &&& p["session_cookie"@] == cookie
            &&& !p.contains_key("selected_identity_json"@)
            &&& !p.contains_key("data_sync_id"@)
            &&& !p.contains_key("account_json"@)
            &&& p["account_selection_pending"@] == "true"@
            &&& p.contains_key(other) == m.contains_key(other)
            &&& m.contains_key(other) ==> p[other] == m[other]
        }),
        ({
            let c = clear_identity_spec(m);
            &&& !c.contains_key("selected_identity_json"@)
            &&& !c.contains_key("data_sync_id"@)
            &&& !c.contains_key("account_json"@)
            &&& !c.contains_key("account_selection_pending"@)
            &&& c.contains_key(other) == m.contains_key(other)
            &&& m.contains_key(other) ==> c[other] == m[other]
        }),
{
    reveal_strlit("session_cookie");
    reveal_strlit("selected_identity_json");
    reveal_strlit("data_sync_id");
    reveal_strlit("account_json");
    reveal_strlit("account_selection_pending");
    reveal_strlit("true");
    let k1 = "session_cookie"@;
    let k2 = "selected_identity_json"@;
    let k3 = "data_sync_id"@;
    let k4 = "account_json"@;
    let k5 = "account_selection_pending"@;
    assert(k1.len() == 14 && k2.len() == 22 && k3.len() == 12 && k4.len() == 12 && k5.len() == 25);
    assert(k3 != k4) by {
        assert(k3[0] != k4[0]);
    }
    let a0 = m.insert(k1, cookie).insert(k2, selected);
    let b0 = match data_sync_id {
        Some(id) => a0.insert(k3, id),
        None => a0.remove(k3),
    };
    assert(b0.contains_key(k1) && b0[k1] == cookie);
    assert(b0.contains_key(k2) && b0[k2] == selected);
}

} // verus!
