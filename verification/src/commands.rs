//! Command-side decisions: the settings the webview may see and write, duration strings from the
//! UI, playlist-cover setting keys, release notes, and the close-to-tray default.
use vstd::prelude::*;

use crate::text::{
    append_chars, chars_eq, chars_of, copy_range, index_of_char, index_of_char_exec,
    lemma_index_of_char, parse_i64, parse_i64_exec, split_char, starts_with, starts_with_exec,
    string_of, trim, trim_bounds,
};

verus! {

// ---------------------------------------------------------------------------------------------
// Settings the UI may touch
// ---------------------------------------------------------------------------------------------

/// Settings the UI is allowed to read and write. Session/auth material and internal blobs are
/// not among them, so they never cross into the webview and it cannot overwrite them.
pub open spec fn ui_settings() -> Seq<Seq<char>> {
    seq![
        seq!['p', 'r', 'o', 'x', 'y'],
        seq!['q', 'u', 'a', 'l', 'i', 't', 'y'],
        seq!['e', 'n', 'a', 'b', 'l', 'e', '_', 'h', 'i', 's', 't', 'o', 'r', 'y'],
        seq!['d', 'i', 's', 'a', 'b', 'l', 'e', 'd', '_', 's', 't', 'r', 'e', 'a', 'm', '_', 'c', 'l', 'i', 'e', 'n', 't', 's'],
        seq!['d', 'i', 's', 'c', 'o', 'r', 'd', '_', 'r', 'p', 'c'],
        seq!['c', 'l', 'o', 's', 'e', '_', 't', 'o', '_', 't', 'r', 'a', 'y'],
        seq!['a', 'u', 't', 'o', 's', 't', 'a', 'r', 't'],
        seq!['a', 'u', 't', 'o', 'p', 'l', 'a', 'y'],
        seq!['a', 'u', 't', 'o', '_', 'o', 'f', 'f', 'l', 'i', 'n', 'e'],
        seq!['h', 'i', 'd', 'e', '_', 'v', 'i', 'd', 'e', 'o', 's'],
        seq!['p', 'r', 'e', 'v', 'e', 'n', 't', '_', 'd', 'u', 'p', 'l', 'i', 'c', 'a', 't', 'e', 's'],
        seq!['y', 't', 'd', 'l', 'p', '_', 'e', 'n', 'a', 'b', 'l', 'e', 'd'],
        seq!['d', 'o', 'w', 'n', 'l', 'o', 'a', 'd', '_', 'd', 'i', 'r'],
        seq!['d', 'o', 'w', 'n', 'l', 'o', 'a', 'd', '_', 'q', 'u', 'a', 'l', 'i', 't', 'y'],
        seq!['d', 'o', 'w', 'n', 'l', 'o', 'a', 'd', '_', 'f', 'o', 'r', 'm', 'a', 't'],
        seq!['u', 's', 'e', '_', 'o', 'f', 'f', 'l', 'i', 'n', 'e'],
        seq!['o', 'f', 'f', 'l', 'i', 'n', 'e', '_', 'p', 'l', 'a', 'y', 'l', 'i', 's', 't', 's'],
        seq!['l', 'y', 'r', 'i', 'c', 's', '_', 'a', 'p', 'p', 'l', 'e', '_', 'm', 'e', 'd', 'i', 'a', '_', 't', 'o', 'k', 'e', 'n'],
        seq!['l', 'y', 'r', 'i', 'c', 's', '_', 'a', 'p', 'p', 'l', 'e', '_', 'd', 'e', 'v', '_', 't', 'o', 'k', 'e', 'n'],
        seq!['l', 'y', 'r', 'i', 'c', 's', '_', 'a', 'p', 'p', 'l', 'e', '_', 's', 't', 'o', 'r', 'e', 'f', 'r', 'o', 'n', 't'],
        seq!['l', 'y', 'r', 'i', 'c', 's', '_', 'b', 'o', 'i', 'd', 'u'],
        seq!['l', 'y', 'r', 'i', 'c', 's', '_', 'w', 'o', 'r', 'd', '_', 'f', 'i', 'r', 's', 't'],
        seq!['s', 't', 'i', 'c', 'k', 'y', '_', 's', 'h', 'u', 'f', 'f', 'l', 'e'],
    ]
}

fn ui_setting_names() -> (names: Vec<Vec<char>>)
    ensures
        names@.len() == ui_settings().len(),
        forall|i: int| 0 <= i < names@.len() ==> #[trigger] names@[i]@ == ui_settings()[i],
{
    let mut names: Vec<Vec<char>> = Vec::new();
    names.push(vec!['p', 'r', 'o', 'x', 'y']);
    names.push(vec!['q', 'u', 'a', 'l', 'i', 't', 'y']);
    names.push(vec!['e', 'n', 'a', 'b', 'l', 'e', '_', 'h', 'i', 's', 't', 'o', 'r', 'y']);
    names.push(vec!['d', 'i', 's', 'a', 'b', 'l', 'e', 'd', '_', 's', 't', 'r', 'e', 'a', 'm', '_', 'c', 'l', 'i', 'e', 'n', 't', 's']);
    names.push(vec!['d', 'i', 's', 'c', 'o', 'r', 'd', '_', 'r', 'p', 'c']);
    names.push(vec!['c', 'l', 'o', 's', 'e', '_', 't', 'o', '_', 't', 'r', 'a', 'y']);
    names.push(vec!['a', 'u', 't', 'o', 's', 't', 'a', 'r', 't']);
    names.push(vec!['a', 'u', 't', 'o', 'p', 'l', 'a', 'y']);
    names.push(vec!['a', 'u', 't', 'o', '_', 'o', 'f', 'f', 'l', 'i', 'n', 'e']);
    names.push(vec!['h', 'i', 'd', 'e', '_', 'v', 'i', 'd', 'e', 'o', 's']);
    names.push(vec!['p', 'r', 'e', 'v', 'e', 'n', 't', '_', 'd', 'u', 'p', 'l', 'i', 'c', 'a', 't', 'e', 's']);
    names.push(vec!['y', 't', 'd', 'l', 'p', '_', 'e', 'n', 'a', 'b', 'l', 'e', 'd']);
    names.push(vec!['d', 'o', 'w', 'n', 'l', 'o', 'a', 'd', '_', 'd', 'i', 'r']);
    names.push(vec!['d', 'o', 'w', 'n', 'l', 'o', 'a', 'd', '_', 'q', 'u', 'a', 'l', 'i', 't', 'y']);
    names.push(vec!['d', 'o', 'w', 'n', 'l', 'o', 'a', 'd', '_', 'f', 'o', 'r', 'm', 'a', 't']);
    names.push(vec!['u', 's', 'e', '_', 'o', 'f', 'f', 'l', 'i', 'n', 'e']);
    names.push(vec!['o', 'f', 'f', 'l', 'i', 'n', 'e', '_', 'p', 'l', 'a', 'y', 'l', 'i', 's', 't', 's']);
    names.push(vec!['l', 'y', 'r', 'i', 'c', 's', '_', 'a', 'p', 'p', 'l', 'e', '_', 'm', 'e', 'd', 'i', 'a', '_', 't', 'o', 'k', 'e', 'n']);
    names.push(vec!['l', 'y', 'r', 'i', 'c', 's', '_', 'a', 'p', 'p', 'l', 'e', '_', 'd', 'e', 'v', '_', 't', 'o', 'k', 'e', 'n']);
    names.push(vec!['l', 'y', 'r', 'i', 'c', 's', '_', 'a', 'p', 'p', 'l', 'e', '_', 's', 't', 'o', 'r', 'e', 'f', 'r', 'o', 'n', 't']);
    names.push(vec!['l', 'y', 'r', 'i', 'c', 's', '_', 'b', 'o', 'i', 'd', 'u']);
    names.push(vec!['l', 'y', 'r', 'i', 'c', 's', '_', 'w', 'o', 'r', 'd', '_', 'f', 'i', 'r', 's', 't']);
    names.push(vec!['s', 't', 'i', 'c', 'k', 'y', '_', 's', 'h', 'u', 'f', 'f', 'l', 'e']);
    proof {
        assert forall|i: int| 0 <= i < names@.len() implies #[trigger] names@[i]@ == ui_settings()[i] by {
            assert(names@[i]@ =~= ui_settings()[i]);
        }
    }
    names
}

/// Whether the UI may read and write the setting `key`.
pub fn is_ui_setting(key: &str) -> (b: bool)
    ensures
        b == ui_settings().contains(key@),
{
    let k = chars_of(key);
    let names = ui_setting_names();
    let mut i: usize = 0;
    while i < names.len()
        invariant
            i <= names.len(),
            k@ == key@,
            names@.len() == ui_settings().len(),
            forall|j: int| 0 <= j < names@.len() ==> #[trigger] names@[j]@ == ui_settings()[j],
            forall|j: int| 0 <= j < i ==> ui_settings()[j] != key@,
        decreases names.len() - i,
    {
        let ni: &Vec<char> = &names[i];
        let same = chars_eq(ni.as_slice(), k.as_slice());
        assert(ni@ == ui_settings()[i as int]);
        assert(same == (ni@ == key@));
        if same {
            assert(ui_settings()[i as int] == key@);
            return true;
        }
        i += 1;
    }
    false
}

pub open spec fn pairs_view(v: Seq<(String, String)>) -> Seq<(Seq<char>, Seq<char>)> {
    v.map_values(|p: (String, String)| (p.0@, p.1@))
}

/// Only the settings in the allowlist, in the order given.
pub open spec fn visible_settings_spec(all: Seq<(Seq<char>, Seq<char>)>) -> Seq<(Seq<char>, Seq<char>)> {
    all.filter(|p: (Seq<char>, Seq<char>)| ui_settings().contains(p.0))
}

proof fn lemma_filter_push<A>(s: Seq<A>, x: A, pred: spec_fn(A) -> bool)
    ensures
        s.push(x).filter(pred) == (if pred(x) {
            s.filter(pred).push(x)
        } else {
            s.filter(pred)
        }),
{
    reveal(Seq::filter);
    assert(s.push(x).drop_last() =~= s);
}

/// The stored settings the webview may see (see `visible_settings_spec`).
pub fn visible_settings(all: Vec<(String, String)>) -> (r: Vec<(String, String)>)
    ensures
        pairs_view(r@) == visible_settings_spec(pairs_view(all@)),
{
    let ghost pred = |p: (Seq<char>, Seq<char>)| ui_settings().contains(p.0);
    let mut out: Vec<(String, String)> = Vec::new();
    let mut i: usize = 0;
    while i < all.len()
        invariant
            i <= all.len(),
            pred == (|p: (Seq<char>, Seq<char>)| ui_settings().contains(p.0)),
            pairs_view(out@) == pairs_view(all@).take(i as int).filter(pred),
        decreases all.len() - i,
    {
        let keep = is_ui_setting(all[i].0.as_str());
        proof {
            assert(pairs_view(all@).take(i + 1) =~= pairs_view(all@).take(i as int).push(
                (all@[i as int].0@, all@[i as int].1@),
            ));
            lemma_filter_push(pairs_view(all@).take(i as int), (all@[i as int].0@, all@[i as int].1@), pred);
        }
        if keep {
            let ghost prev = out@;
            let k = all[i].0.clone();
            let v = all[i].1.clone();
            out.push((k, v));
            assert(pairs_view(out@) =~= pairs_view(prev).push((all@[i as int].0@, all@[i as int].1@)));
        }
        i += 1;
    }
    assert(pairs_view(all@).take(all.len() as int) =~= pairs_view(all@));
    out
}

pub open spec fn unknown_setting_msg(key: Seq<char>) -> Seq<char> {
    seq!['u', 'n', 'k', 'n', 'o', 'w', 'n', ' ', 's', 'e', 't', 't', 'i', 'n', 'g', ':', ' '] + key
}

/// A write from the UI is accepted only for an allowlisted key; anything else is refused with
/// `unknown setting: <key>`.
pub fn check_setting_key(key: &str) -> (r: Result<(), String>)
    ensures
        r is Ok <==> ui_settings().contains(key@),
        r matches Err(m) ==> m@ == unknown_setting_msg(key@),
{
    if is_ui_setting(key) {
        Ok(())
    } else {
        let mut m = vec!['u', 'n', 'k', 'n', 'o', 'w', 'n', ' ', 's', 'e', 't', 't', 'i', 'n', 'g', ':', ' '];
        append_chars(&mut m, &chars_of(key));
        assert(m@ =~= unknown_setting_msg(key@));
        Err(string_of(&m))
    }
}

// ---------------------------------------------------------------------------------------------
// Close to tray
// ---------------------------------------------------------------------------------------------

pub open spec fn false_word() -> Seq<char> {
    seq!['f', 'a', 'l', 's', 'e']
}

/// A default-on switch: on unless the stored value is exactly `false` (unset means on).
pub fn on_unless_false(setting: Option<&str>) -> (b: bool)
    ensures
        b == !(setting matches Some(s) && s@ == false_word()),
{
    match setting {
        Some(s) => {
            let f = vec!['f', 'a', 'l', 's', 'e'];
            assert(f@ =~= false_word());
            !chars_eq(&chars_of(s), &f)
        },
        None => true,
    }
}

/// The window's close button hides to the tray unless the user explicitly set
/// `close_to_tray=false` (unset means on).
pub fn close_hides(setting: Option<&str>) -> (b: bool)
    ensures
        b == !(setting matches Some(s) && s@ == false_word()),
{
    on_unless_false(setting)
}

// ---------------------------------------------------------------------------------------------
// Durations the UI sends
// ---------------------------------------------------------------------------------------------

/// The pieces that parse as integers (after trimming), in order.
pub open spec fn parsed_parts(ps: Seq<Seq<char>>) -> Seq<i64>
    decreases ps.len(),
{
    if ps.len() == 0 {
        seq![]
    } else {
        let rest = parsed_parts(ps.drop_last());
        match parse_i64(trim(ps.last())) {
            Some(x) => rest.push(x),
            None => rest,
        }
    }
}

/// `"m:ss"` / `"h:mm:ss"` / `"s"` to seconds; absent or unparseable is 0. Pieces that do not
/// parse are dropped before the shape is read. Arithmetic is `i64` with wrap-around.
pub open spec fn duration_secs_spec(s: Option<Seq<char>>) -> i64 {
    match s {
        None => 0,
        Some(s) => {
            let p = parsed_parts(split_char(s, ':'));
            if p.len() == 1 {
                p[0]
            } else if p.len() == 2 {
                vstd::wrapping::i64_specs::wrapping_add(
                    vstd::wrapping::i64_specs::wrapping_mul(p[0], 60),
                    p[1],
                )
            } else if p.len() == 3 {
                vstd::wrapping::i64_specs::wrapping_add(
                    vstd::wrapping::i64_specs::wrapping_add(
                        vstd::wrapping::i64_specs::wrapping_mul(p[0], 3600),
                        vstd::wrapping::i64_specs::wrapping_mul(p[1], 60),
                    ),
                    p[2],
                )
            } else {
                0
            }
        },
    }
}

/// The pieces of `v` between `:`s that parse as integers.
fn parts_exec(v: &[char]) -> (r: Vec<i64>)
    ensures
        r@ == parsed_parts(split_char(v@, ':')),
{
    let mut out: Vec<i64> = Vec::new();
    let mut start: usize = 0;
    // pieces(v) = pieces of v[..start] (already parsed) ++ split(v[start..])
    let ghost done: Seq<Seq<char>> = seq![];
    assert(v@.skip(0) =~= v@);
    assert(split_char(v@, ':') =~= done + split_char(v@.skip(0), ':'));
    loop
        invariant
            start <= v.len(),
            split_char(v@, ':') == done + split_char(v@.skip(start as int), ':'),
            out@ == parsed_parts(done),
        decreases v.len() - start,
    {
        let ghost rest = v@.skip(start as int);
        let i = index_of_char_exec(v, ':', start);
        proof {
            crate::text::lemma_index_of_char_shift(v@, ':', start as int, 0);
        }
        let (a, b) = trim_bounds(v, start, i);
        let p = parse_i64_exec(v, a, b);
        let ghost piece = v@.subrange(start as int, i as int);
        proof {
            lemma_parsed_parts_push(done, piece);
        }
        match p {
            Some(x) => out.push(x),
            None => {},
        }
        if i >= v.len() {
            proof {
                assert(rest =~= piece);
                assert(split_char(rest, ':') == seq![rest]);
                assert(done + seq![piece] =~= done.push(piece));
            }
            return out;
        }
        proof {
            assert(rest.take(i - start) =~= piece);
            assert(rest.skip(i - start + 1) =~= v@.skip(i + 1));
            assert(split_char(rest, ':') == seq![piece] + split_char(v@.skip(i + 1), ':'));
            assert(done + split_char(rest, ':') =~= done.push(piece) + split_char(v@.skip(i + 1), ':'));
            done = done.push(piece);
        }
        start = i + 1;
    }
}

proof fn lemma_parsed_parts_push(ps: Seq<Seq<char>>, x: Seq<char>)
    ensures
        parsed_parts(ps.push(x)) == (match parse_i64(trim(x)) {
            Some(n) => parsed_parts(ps).push(n),
            None => parsed_parts(ps),
        }),
{
    assert(ps.push(x).drop_last() =~= ps);
}

/// Parse a `"m:ss"` / `"h:mm:ss"` duration string into seconds (0 if absent or unparseable).
pub fn duration_secs(s: Option<&str>) -> (r: i64)
    ensures
        r == duration_secs_spec(crate::lyrics::opt_str_view(s)),
{
    let s = match s {
        Some(s) => s,
        None => return 0,
    };
    let p = parts_exec(&chars_of(s));
    if p.len() == 1 {
        p[0]
    } else if p.len() == 2 {
        p[0].wrapping_mul(60).wrapping_add(p[1])
    } else if p.len() == 3 {
        p[0].wrapping_mul(3600).wrapping_add(p[1].wrapping_mul(60)).wrapping_add(p[2])
    } else {
        0
    }
}

// ---------------------------------------------------------------------------------------------
// Playlist cover keys
// ---------------------------------------------------------------------------------------------

pub open spec fn cover_prefix() -> Seq<char> {
    seq!['p', 'l', 'a', 'y', 'l', 'i', 's', 't', '_', 'c', 'o', 'v', 'e', 'r', ':']
}

/// Browse ids arrive `VL`-prefixed and playlist ids don't; one playlist, one key either way.
pub open spec fn cover_key_spec(playlist_id: Seq<char>) -> Seq<char> {
    cover_prefix() + if starts_with(playlist_id, seq!['V', 'L']) {
        playlist_id.skip(2)
    } else {
        playlist_id
    }
}

/// The setting key that holds a playlist's custom cover path.
pub fn cover_key(playlist_id: &str) -> (r: String)
    ensures
        r@ == cover_key_spec(playlist_id@),
{
    let v = chars_of(playlist_id);
    let vl = vec!['V', 'L'];
    assert(vl@ =~= seq!['V', 'L']);
    let mut out = vec!['p', 'l', 'a', 'y', 'l', 'i', 's', 't', '_', 'c', 'o', 'v', 'e', 'r', ':'];
    assert(out@ =~= cover_prefix());
    if starts_with_exec(&v, &vl) {
        append_chars(&mut out, &copy_range(&v, 2, v.len()));
        assert(v@.subrange(2, v@.len() as int) =~= v@.skip(2));
    } else {
        append_chars(&mut out, &v);
    }
    string_of(&out)
}

/// The setting key marking that a cover of ours reached the account: the cover key + `:synced`.
pub fn synced_key(playlist_id: &str) -> (r: String)
    ensures
        r@ == cover_key_spec(playlist_id@) + seq![':', 's', 'y', 'n', 'c', 'e', 'd'],
{
    let mut v = chars_of(cover_key(playlist_id).as_str());
    let tail = vec![':', 's', 'y', 'n', 'c', 'e', 'd'];
    append_chars(&mut v, &tail);
    assert(tail@ =~= seq![':', 's', 'y', 'n', 'c', 'e', 'd']);
    string_of(&v)
}

/// What the UI needs to draw after a cover changed: where the local copy is, and (on a removal)
/// the thumbnail YouTube rebuilt in its place.
pub struct CoverResult {
    pub cover: Option<String>,
    pub thumbnail: Option<String>,
}

// ---------------------------------------------------------------------------------------------
// Release notes
// ---------------------------------------------------------------------------------------------

/// A release as the GitHub API lists it.
pub struct GitHubRelease {
    pub tag_name: String,
    pub published_at: Option<String>,
    pub body: Option<String>,
    pub draft: bool,
    pub prerelease: bool,
}

/// One entry of the changelog.
pub struct ReleaseNote {
    pub version: String,
    /// `YYYY-MM-DD`, or empty for an unpublished tag.
    pub date: String,
    /// The release description, verbatim markdown.
    pub body: String,
}

pub struct NoteV {
    pub version: Seq<char>,
    pub date: Seq<char>,
    pub body: Seq<char>,
}

/// `trim_start_matches('v')`: every leading `v` removed.
pub open spec fn strip_vs(s: Seq<char>) -> Seq<char>
    decreases s.len(),
{
    if s.len() > 0 && s[0] == 'v' {
        strip_vs(s.drop_first())
    } else {
        s
    }
}

/// The changelog entry of a published release: the tag without its leading `v`s, the date part
/// of the timestamp (up to the first `T`), the body (empty when missing).
pub open spec fn note_of(r: GitHubRelease) -> NoteV {
    NoteV {
        version: strip_vs(r.tag_name@),
        date: match r.published_at {
            Some(d) => d@.take(index_of_char(d@, 'T', 0)),
            None => seq![],
        },
        body: match r.body {
            Some(b) => b@,
            None => seq![],
        },
    }
}

pub open spec fn is_published(r: GitHubRelease) -> bool {
    !r.draft && !r.prerelease
}

pub open spec fn notes_view(v: Seq<ReleaseNote>) -> Seq<NoteV> {
    v.map_values(|n: ReleaseNote| NoteV { version: n.version@, date: n.date@, body: n.body@ })
}

/// Published releases only (no drafts, no prereleases), in order, as changelog entries.
pub open spec fn release_notes_spec(rs: Seq<GitHubRelease>) -> Seq<NoteV> {
    rs.filter(|r: GitHubRelease| is_published(r)).map_values(|r: GitHubRelease| note_of(r))
}

fn note_from(r: &GitHubRelease) -> (n: ReleaseNote)
    ensures
        (NoteV { version: n.version@, date: n.date@, body: n.body@ }) == note_of(*r),
{
    let t = chars_of(r.tag_name.as_str());
    let mut i: usize = 0;
    assert(t@.skip(0) =~= t@);
    while i < t.len() && t[i] == 'v'
        invariant
            i <= t.len(),
            strip_vs(t@) == strip_vs(t@.skip(i as int)),
        decreases t.len() - i,
    {
        assert(t@.skip(i as int).drop_first() =~= t@.skip(i + 1));
        i += 1;
    }
    assert(strip_vs(t@.skip(i as int)) == t@.skip(i as int)) by {
        if i < t.len() {
            assert(t@.skip(i as int)[0] == t@[i as int]);
        }
    }
    assert(t@.skip(0) =~= t@);
    let version = copy_range(&t, i, t.len());
    assert(t@.subrange(i as int, t@.len() as int) =~= t@.skip(i as int));
    let date = match &r.published_at {
        Some(d) => {
            let dv = chars_of(d.as_str());
            let e = index_of_char_exec(&dv, 'T', 0);
            assert(dv@.subrange(0, e as int) =~= dv@.take(e as int));
            string_of(&copy_range(&dv, 0, e))
        },
        None => String::new(),
    };
    let body = match &r.body {
        Some(b) => b.clone(),
        None => String::new(),
    };
    ReleaseNote { version: string_of(&version), date, body }
}

/// What's new: the published releases as changelog entries (see `release_notes_spec`).
pub fn release_notes_from(releases: &Vec<GitHubRelease>) -> (r: Vec<ReleaseNote>)
    ensures
        notes_view(r@) == release_notes_spec(releases@),
{
    let ghost pred = |r: GitHubRelease| is_published(r);
    let ghost f = |r: GitHubRelease| note_of(r);
    let mut out: Vec<ReleaseNote> = Vec::new();
    let mut i: usize = 0;
    while i < releases.len()
        invariant
            i <= releases.len(),
            pred == (|r: GitHubRelease| is_published(r)),
            f == (|r: GitHubRelease| note_of(r)),
            notes_view(out@) == releases@.take(i as int).filter(pred).map_values(f),
        decreases releases.len() - i,
    {
        let rel = &releases[i];
        proof {
            assert(releases@.take(i + 1) =~= releases@.take(i as int).push(releases@[i as int]));
            lemma_filter_push(releases@.take(i as int), releases@[i as int], pred);
        }
        if !rel.draft && !rel.prerelease {
            let n = note_from(rel);
            let ghost prev = out@;
            out.push(n);
            assert(notes_view(out@) =~= notes_view(prev).push(note_of(releases@[i as int])));
            assert(releases@.take(i as int).filter(pred).push(releases@[i as int]).map_values(f)
                =~= releases@.take(i as int).filter(pred).map_values(f).push(f(releases@[i as int])));
        }
        i += 1;
    }
    assert(releases@.take(releases.len() as int) =~= releases@);
    out
}

} // verus!
