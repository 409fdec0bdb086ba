//! Now Playing decorations looked up by artist and title: the full-resolution iTunes artwork and
//! the looping canvas video. Both answers (a hit or a certain miss) are kept in a bounded
//! in-memory cache; the least recently used entry leaves first.
use vstd::prelude::*;

use std::collections::VecDeque;

use vstd::utf8::encode_utf8;
use vstd::string::StringSliceAdditionalSpecFns;

use crate::local::{lowercase, to_lowercase};
use crate::lyrics::{clone_opt_string, clone_string, opt_string_view};
use crate::markup::{replace_all, replace_all_exec};
use crate::text::{
    chars_eq, chars_of, contains_seq, find_exec, starts_with, starts_with_exec, string_of, trim,
    trim_vec,
};

verus! {

/// How many answers a cache keeps.
pub const CACHE_CAP: usize = 200;

/// An entry's model: the key and the answer (`None`: certainly not found).
pub type EntryV = (Seq<char>, Option<Seq<char>>);

/// No key occurs twice.
pub open spec fn keys_unique(s: Seq<EntryV>) -> bool {
    forall|i: int, j: int| 0 <= i < j < s.len() ==> #[trigger] s[i].0 != #[trigger] s[j].0
}

pub open spec fn has_key(s: Seq<EntryV>, k: Seq<char>, i: int) -> bool {
    0 <= i < s.len() && s[i].0 == k
}

/// Where key `k` sits, if anywhere.
pub open spec fn find_key(s: Seq<EntryV>, k: Seq<char>) -> Option<int> {
    if exists|i: int| has_key(s, k, i) {
        Some(choose|i: int| has_key(s, k, i))
    } else {
        None
    }
}

/// What the cache answers for `k`: `None` when it does not know.
pub open spec fn lookup(s: Seq<EntryV>, k: Seq<char>) -> Option<Option<Seq<char>>> {
    match find_key(s, k) {
        Some(i) => Some(s[i].1),
        None => None,
    }
}

/// A look-up moves the entry it finds to the most recent end.
pub open spec fn touch(s: Seq<EntryV>, k: Seq<char>) -> Seq<EntryV> {
    match find_key(s, k) {
        Some(i) => s.remove(i).push(s[i]),
        None => s,
    }
}

/// Storing an answer replaces any entry with the same key, adds it as the most recent, and
/// drops the oldest entry when that makes one too many.
pub open spec fn insert_spec(s: Seq<EntryV>, k: Seq<char>, v: Option<Seq<char>>) -> Seq<EntryV> {
    let base = match find_key(s, k) {
        Some(i) => s.remove(i),
        None => s,
    };
    let t = base.push((k, v));
    if t.len() > CACHE_CAP {
        t.drop_first()
    } else {
        t
    }
}

proof fn lemma_find_key(s: Seq<EntryV>, k: Seq<char>, i: int)
    requires
        keys_unique(s),
        has_key(s, k, i),
    ensures
        find_key(s, k) == Some(i),
{
    let j = choose|j: int| has_key(s, k, j);
    assert(has_key(s, k, j));
    if j < i {
        assert(s[j].0 != s[i].0);
    } else if i < j {
        assert(s[i].0 != s[j].0);
    }
}

proof fn lemma_remove_unique(s: Seq<EntryV>, i: int)
    requires
        keys_unique(s),
        0 <= i < s.len(),
    ensures
        keys_unique(s.remove(i)),
        forall|j: int| #![trigger s.remove(i)[j]] 0 <= j < s.len() - 1 ==> s.remove(i)[j].0 != s[i].0,
{
    let r = s.remove(i);
    assert forall|a: int, b: int| 0 <= a < b < r.len() implies #[trigger] r[a].0 != #[trigger] r[b].0 by {
        let a2 = if a < i { a } else { a + 1 };
        let b2 = if b < i { b } else { b + 1 };
        assert(r[a] == s[a2]);
        assert(r[b] == s[b2]);
        assert(s[a2].0 != s[b2].0);
    }
    assert forall|j: int| #![trigger s.remove(i)[j]] 0 <= j < s.len() - 1 implies s.remove(i)[j].0 != s[i].0 by {
        let j2 = if j < i { j } else { j + 1 };
        assert(r[j] == s[j2]);
        if j2 < i {
            assert(s[j2].0 != s[i].0);
        } else {
            assert(s[i].0 != s[j2].0);
        }
    }
}

/// After storing an answer, the cache still holds distinct keys, at most `CACHE_CAP` of them,
/// and answers that key with what was stored.
pub proof fn lemma_get_after_put(s: Seq<EntryV>, k: Seq<char>, v: Option<Seq<char>>)
    requires
        keys_unique(s),
        s.len() <= CACHE_CAP,
    ensures
        keys_unique(insert_spec(s, k, v)),
        insert_spec(s, k, v).len() <= CACHE_CAP,
        lookup(insert_spec(s, k, v), k) == Some(v),
{
    let base = match find_key(s, k) {
        Some(i) => s.remove(i),
        None => s,
    };
    match find_key(s, k) {
        Some(i) => {
            assert(has_key(s, k, i));
            lemma_remove_unique(s, i);
        },
        None => {
            assert forall|j: int| 0 <= j < s.len() implies s[j].0 != k by {
                if s[j].0 == k {
                    assert(has_key(s, k, j));
                }
            }
        },
    }
    assert(forall|j: int| 0 <= j < base.len() ==> base[j].0 != k);
    let t = base.push((k, v));
    assert(keys_unique(t)) by {
        assert forall|a: int, b: int| 0 <= a < b < t.len() implies #[trigger] t[a].0 != #[trigger] t[b].0 by {
            if b == t.len() - 1 {
                assert(t[a] == base[a]);
            } else {
                assert(t[a] == base[a] && t[b] == base[b]);
            }
        }
    }
    let r = insert_spec(s, k, v);
    if t.len() > CACHE_CAP {
        assert(r == t.drop_first());
        assert(keys_unique(r)) by {
            assert forall|a: int, b: int| 0 <= a < b < r.len() implies #[trigger] r[a].0 != #[trigger] r[b].0 by {
                assert(r[a] == t[a + 1] && r[b] == t[b + 1]);
            }
        }
        assert(has_key(r, k, r.len() - 1));
        lemma_find_key(r, k, r.len() - 1);
    } else {
        assert(r == t);
        assert(has_key(r, k, r.len() - 1));
        lemma_find_key(r, k, r.len() - 1);
    }
}

/// A look-up changes no answer: after it, every key is answered as before.
pub proof fn lemma_touch_keeps_answers(s: Seq<EntryV>, k: Seq<char>, k2: Seq<char>)
    requires
        keys_unique(s),
    ensures
        keys_unique(touch(s, k)),
        touch(s, k).len() == s.len(),
        lookup(touch(s, k), k2) == lookup(s, k2),
{
    match find_key(s, k) {
        Some(i) => {
            assert(has_key(s, k, i));
            lemma_remove_unique(s, i);
            let r = s.remove(i);
            let t = r.push(s[i]);
            assert(keys_unique(t)) by {
                assert forall|a: int, b: int| 0 <= a < b < t.len() implies #[trigger] t[a].0 != #[trigger] t[b].0 by {
                    if b == t.len() - 1 {
                        assert(t[a] == r[a]);
                        assert(r[a].0 != s[i].0);
                    } else {
                        assert(t[a] == r[a] && t[b] == r[b]);
                    }
                }
            }
            match find_key(s, k2) {
                Some(j) => {
                    assert(has_key(s, k2, j));
                    let j2 = if j == i { t.len() - 1 } else if j < i { j } else { j - 1 };
                    assert(t[j2] == s[j]);
                    assert(has_key(t, k2, j2));
                    lemma_find_key(t, k2, j2);
                },
                None => {
                    if exists|j: int| has_key(t, k2, j) {
                        let j = choose|j: int| has_key(t, k2, j);
                        let j2 = if j == t.len() - 1 { i } else if j < i { j } else { j + 1 };
                        assert(t[j] == s[j2]);
                        assert(has_key(s, k2, j2));
                    }
                },
            }
        },
        None => {},
    }
}

/// The model of one entry.
pub open spec fn entry_view(e: (String, Option<String>)) -> EntryV {
    (e.0@, opt_string_view(e.1))
}

/// A bounded answer cache, oldest entry first.
pub struct LookupCache {
    entries: VecDeque<(String, Option<String>)>,
}

impl View for LookupCache {
    type V = Seq<EntryV>;

    closed spec fn view(&self) -> Seq<EntryV> {
        self.entries@.map_values(|e: (String, Option<String>)| entry_view(e))
    }
}

impl LookupCache {
    /// Distinct keys, at most `CACHE_CAP` of them.
    pub open spec fn wf(&self) -> bool {
        keys_unique(self@) && self@.len() <= CACHE_CAP
    }

    pub fn new() -> (c: Self)
        ensures
            c.wf(),
            c@ == Seq::<EntryV>::empty(),
    {
        let c = LookupCache { entries: VecDeque::new() };
        assert(c@ =~= Seq::<EntryV>::empty());
        c
    }

    /// Where `key` sits, if anywhere.
    fn position(&self, key: &str) -> (r: Option<usize>)
        requires
            self.wf(),
        ensures
            r is None ==> find_key(self@, key@) is None,
            r matches Some(i) ==> i < self@.len() && find_key(self@, key@) == Some(i as int),
    {
        let kv = chars_of(key);
        let mut i: usize = 0;
        while i < self.entries.len()
            invariant
                self.wf(),
                kv@ == key@,
                i <= self@.len(),
                self@.len() == self.entries@.len(),
                forall|j: int| 0 <= j < i ==> !has_key(self@, key@, j),
            decreases self.entries@.len() - i,
        {
            assert(self@[i as int] == entry_view(self.entries@[i as int]));
            if chars_eq(&chars_of(self.entries[i].0.as_str()), &kv) {
                proof {
                    lemma_find_key(self@, key@, i as int);
                }
                return Some(i);
            }
            i += 1;
        }
        None
    }

    /// The answer cached for `key`, if any; a hit becomes the most recently used entry.
    pub fn cache_get(&mut self, key: &str) -> (r: Option<Option<String>>)
        requires
            old(self).wf(),
        ensures
            final(self).wf(),
            final(self)@ == touch(old(self)@, key@),
            match r {
                Some(v) => lookup(old(self)@, key@) == Some(opt_string_view(v)),
                None => lookup(old(self)@, key@) is None,
            },
    {
        proof {
            lemma_touch_keeps_answers(self@, key@, key@);
        }
        let pos = match self.position(key) {
            Some(p) => p,
            None => return None,
        };
        let ghost before = self.entries@;
        let e = self.entries.remove(pos);
        match e {
            Some(entry) => {
                let copy = (clone_string(&entry.0), clone_opt_string(&entry.1));
                let ghost mid = self.entries@;
                self.entries.push_back(entry);
                proof {
                    assert(mid == before.remove(pos as int));
                    assert(self@ =~= touch(old(self)@, key@)) by {
                        let s = before.map_values(|e: (String, Option<String>)| entry_view(e));
                        assert(s == old(self)@);
                        assert(mid.map_values(|e: (String, Option<String>)| entry_view(e)) =~= s.remove(pos as int));
                    }
                }
                Some(copy.1)
            },
            None => None,
        }
    }

    /// Stores an answer for `key` (see `insert_spec`).
    pub fn cache_put(&mut self, key: String, value: Option<String>)
        requires
            old(self).wf(),
        ensures
            final(self).wf(),
            final(self)@ == insert_spec(old(self)@, key@, opt_string_view(value)),
    {
        proof {
            lemma_get_after_put(self@, key@, opt_string_view(value));
        }
        let ghost s0 = self@;
        let ghost k = key@;
        let ghost v = opt_string_view(value);
        let pos = self.position(key.as_str());
        let ghost before = self.entries@;
        if let Some(p) = pos {
            let _ = self.entries.remove(p);
            proof {
                assert(self.entries@.map_values(|e: (String, Option<String>)| entry_view(e)) =~= s0.remove(p as int));
            }
        }
        let ghost base = self@;
        self.entries.push_back((key, value));
        assert(self@ =~= base.push((k, v)));
        if self.entries.len() > CACHE_CAP {
            let _ = self.entries.pop_front();
            assert(self@ =~= base.push((k, v)).drop_first());
        }
    }
}

// ---------------------------------------------------------------------------------------------
// Keys and answers
// ---------------------------------------------------------------------------------------------

/// The cache key of a track: artist and title lowercased, joined by `|`.
pub open spec fn lookup_key_spec(artist: Seq<char>, title: Seq<char>) -> Seq<char> {
    lowercase(artist) + seq!['|'] + lowercase(title)
}

/// The cache key of a track (see `lookup_key_spec`).
pub fn lookup_key(artist: &str, title: &str) -> (r: String)
    ensures
        r@ == lookup_key_spec(artist@, title@),
{
    let mut v = chars_of(to_lowercase(artist).as_str());
    v.push('|');
    let t = chars_of(to_lowercase(title).as_str());
    crate::text::append_chars(&mut v, &t);
    string_of(&v)
}

pub open spec fn small_art() -> Seq<char> {
    seq!['1', '0', '0', 'x', '1', '0', '0', 'b', 'b']
}

pub open spec fn full_art() -> Seq<char> {
    seq!['1', '0', '0', '0', '0', '0', 'x', '1', '0', '0', '0', '0', '0', '-', '9', '9', '9']
}

/// The full-resolution form of an iTunes artwork URL: the 100 px size token becomes the
/// largest size with the `-999` suffix.
pub fn full_res_artwork(url: &str) -> (r: String)
    ensures
        r@ == replace_all(url@, small_art(), full_art()),
{
    let p = vec!['1', '0', '0', 'x', '1', '0', '0', 'b', 'b'];
    let f = vec![
        '1',
        '0',
        '0',
        '0',
        '0',
        '0',
        'x',
        '1',
        '0',
        '0',
        '0',
        '0',
        '0',
        '-',
        '9',
        '9',
        '9',
    ];
    assert(p@ =~= small_art());
    assert(f@ =~= full_art());
    string_of(&replace_all_exec(&chars_of(url), &p, &f))
}

pub open spec fn https_prefix() -> Seq<char> {
    seq!['h', 't', 't', 'p', 's', ':', '/', '/']
}

pub open spec fn http_prefix() -> Seq<char> {
    seq!['h', 't', 't', 'p', ':', '/', '/']
}

pub open spec fn mp4() -> Seq<char> {
    seq!['.', 'm', 'p', '4']
}

pub open spec fn canvas_word() -> Seq<char> {
    seq!['c', 'a', 'n', 'v', 'a', 's']
}

/// A canvas URL named in a JSON field: the trimmed value, when it is a web address.
pub open spec fn canvas_field_spec(s: Seq<char>) -> Option<Seq<char>> {
    let t = trim(s);
    if t.len() > 0 && (starts_with(t, https_prefix()) || starts_with(t, http_prefix())) {
        Some(t)
    } else {
        None
    }
}

/// A canvas URL from a JSON field (see `canvas_field_spec`).
pub fn canvas_from_field(s: &str) -> (r: Option<String>)
    ensures
        match r {
            Some(u) => canvas_field_spec(s@) == Some(u@),
            None => canvas_field_spec(s@) is None,
        },
{
    let t = trim_vec(&chars_of(s));
    let a = vec!['h', 't', 't', 'p', 's', ':', '/', '/'];
    let b = vec!['h', 't', 't', 'p', ':', '/', '/'];
    assert(a@ =~= https_prefix());
    assert(b@ =~= http_prefix());
    if t.len() > 0 && (starts_with_exec(&t, &a) || starts_with_exec(&t, &b)) {
        Some(string_of(&t))
    } else {
        None
    }
}

/// `str::trim_matches('"')`: every leading and trailing `"` removed.
pub open spec fn trim_quotes(s: Seq<char>) -> Seq<char>
    decreases s.len(),
{
    if s.len() > 0 && s[0] == '"' {
        trim_quotes(s.skip(1))
    } else if s.len() > 0 && s[s.len() - 1] == '"' {
        trim_quotes(s.take(s.len() - 1))
    } else {
        s
    }
}

/// A bare response body as a canvas URL: trimmed, quotes stripped, an `https://` address that
/// names an `.mp4` or a canvas.
pub open spec fn canvas_text_spec(text: Seq<char>) -> Option<Seq<char>> {
    let t = trim_quotes(trim(text));
    if starts_with(t, https_prefix()) && (contains_seq(t, mp4()) || contains_seq(t, canvas_word())) {
        Some(t)
    } else {
        None
    }
}

fn trim_quotes_exec(v: &Vec<char>) -> (r: Vec<char>)
    ensures
        r@ == trim_quotes(v@),
{
    let mut a: usize = 0;
    let mut b: usize = v.len();
    assert(v@.subrange(0, v@.len() as int) =~= v@);
    while a < b && v[a] == '"'
        invariant
            a <= b <= v.len(),
            b == v.len(),
            trim_quotes(v@.subrange(a as int, b as int)) == trim_quotes(v@),
        decreases b - a,
    {
        assert(v@.subrange(a as int, b as int).skip(1) =~= v@.subrange(a + 1, b as int));
        a += 1;
    }
    while a < b && v[b - 1] == '"'
        invariant
            a <= b <= v.len(),
            a < b ==> v@[a as int] != '"',
            trim_quotes(v@.subrange(a as int, b as int)) == trim_quotes(v@),
        decreases b - a,
    {
        assert(v@.subrange(a as int, b as int).take(b - a - 1) =~= v@.subrange(a as int, b - 1));
        b -= 1;
    }
    crate::text::copy_range(v, a, b)
}

/// A canvas URL from a bare response body (see `canvas_text_spec`).
pub fn canvas_from_text(text: &str) -> (r: Option<String>)
    ensures
        match r {
            Some(u) => canvas_text_spec(text@) == Some(u@),
            None => canvas_text_spec(text@) is None,
        },
{
    let t = trim_quotes_exec(&trim_vec(&chars_of(text)));
    let a = vec!['h', 't', 't', 'p', 's', ':', '/', '/'];
    let m = vec!['.', 'm', 'p', '4'];
    let c = vec!['c', 'a', 'n', 'v', 'a', 's'];
    assert(a@ =~= https_prefix());
    assert(m@ =~= mp4());
    assert(c@ =~= canvas_word());
    if starts_with_exec(&t, &a) && (find_exec(&t, &m, 0).is_some() || find_exec(&t, &c, 0).is_some()) {
        Some(string_of(&t))
    } else {
        None
    }
}


/// The two canvas look-ups, in the order they are tried: the canvas search by artist and
/// title, then the Spotify-shaped one by artist and track; both percent-encode their values.
pub open spec fn canvas_urls_spec(artist: Seq<char>, title: Seq<char>) -> Seq<Seq<char>> {
    let a = crate::lan::pct_encode(encode_utf8(artist));
    let t = crate::lan::pct_encode(encode_utf8(title));
    seq![
        "https://api.simpmusic.org/canvas?artist="@ + a + "&title="@ + t,
        "https://api.simpmusic.org/spotify/canvas?artist="@ + a + "&track="@ + t,
    ]
}

/// The canvas look-up URLs for a track (see `canvas_urls_spec`).
pub fn canvas_urls(artist: &str, title: &str) -> (r: Vec<String>)
    ensures
        r@.len() == 2,
        r@[0]@ == canvas_urls_spec(artist@, title@)[0],
        r@[1]@ == canvas_urls_spec(artist@, title@)[1],
{
    let a = chars_of(crate::lan::url_encode(artist).as_str());
    let t = chars_of(crate::lan::url_encode(title).as_str());
    let mut u1 = chars_of("https://api.simpmusic.org/canvas?artist=");
    crate::text::append_chars(&mut u1, &a);
    crate::text::append_chars(&mut u1, &chars_of("&title="));
    crate::text::append_chars(&mut u1, &t);
    let mut u2 = chars_of("https://api.simpmusic.org/spotify/canvas?artist=");
    crate::text::append_chars(&mut u2, &a);
    crate::text::append_chars(&mut u2, &chars_of("&track="));
    crate::text::append_chars(&mut u2, &t);
    let mut r: Vec<String> = Vec::new();
    r.push(string_of(&u1));
    r.push(string_of(&u2));
    r
}

} // verus!
