//! Offline downloads: the catalogue records, file naming, the googlevideo throttle bypass, and
//! the cancellation bookkeeping shared by running downloads and queued batches.
use vstd::prelude::*;

use crate::text::{
    append_chars, chars_eq, chars_of, contains_seq, copy_range, find_exec, is_ws, occurs_at,
    starts_with, string_of, trim, trim_bounds,
};

verus! {

/// A track the user has saved for offline playback. The audio bytes live at `file_path`; this
/// row is the catalogue the UI lists and the resolver consults before hitting the network.
pub struct DownloadTrack {
    pub video_id: String,
    pub file_path: String,
    pub title: String,
    pub artists: String,
    pub album: Option<String>,
    pub duration: i64,
    pub thumb: Option<String>,
    pub quality: String,
    pub format: String,
    pub size_bytes: i64,
    pub added_at: i64,
}

/// Whether a song is in the offline catalogue.
pub fn is_downloaded(db: &crate::db::Db, video_id: &str) -> (b: bool)
    requires
        db.wf(),
    ensures
        b == db@.downloads.contains_key(video_id@),
{
    db.download_path(video_id).is_some()
}

/// Everything a download needs to know about one track, pre-assembled by the batch caller.
pub struct DownloadCandidate {
    pub video_id: String,
    pub title: String,
    pub artists: String,
    pub album: Option<String>,
    pub duration: i64,
    pub thumb: Option<String>,
}

/// How many tracks pull at once when the user downloads a whole playlist/album.
pub const DOWNLOAD_CONCURRENCY: usize = 4;

// ---------------------------------------------------------------------------------------------
// File names
// ---------------------------------------------------------------------------------------------

/// Unicode control characters (general category `Cc`), what `char::is_control` tests.
pub open spec fn is_control(c: char) -> bool {
    let u = c as u32;
    u <= 0x1f || (0x7f <= u && u <= 0x9f)
}

/// Characters a filename may not hold: path separators and the reserved Windows characters.
pub open spec fn is_reserved(c: char) -> bool {
    c == '/' || c == '\\' || c == ':' || c == '*' || c == '?' || c == '"' || c == '<' || c == '>'
        || c == '|'
}

pub open spec fn keep_in_filename(c: char) -> bool {
    !is_control(c) && !is_reserved(c)
}

/// A filesystem-safe filename component: control and reserved characters dropped, trimmed,
/// at most 180 characters. Unicode letters are kept.
pub open spec fn sanitize_filename_spec(name: Seq<char>) -> Seq<char> {
    let t = trim(name.filter(|c: char| keep_in_filename(c)));
    if t.len() > 180 {
        t.take(180)
    } else {
        t
    }
}

proof fn lemma_filter_push(s: Seq<char>, x: char, pred: spec_fn(char) -> bool)
    ensures
        s.push(x).filter(pred) == (if pred(x) {
            s.filter(pred).push(x)
        } else {
            s.filter(pred)
        }),
{
    reveal(Seq::filter);
    assert(s.push(x).drop_last() =~= s);
}

/// See `sanitize_filename_spec`.
pub fn sanitize_filename(name: &str) -> (r: String)
    ensures
        r@ == sanitize_filename_spec(name@),
{
    let v = chars_of(name);
    let ghost pred = |c: char| keep_in_filename(c);
    let mut kept: Vec<char> = Vec::new();
    let mut i: usize = 0;
    while i < v.len()
        invariant
            i <= v.len(),
            pred == (|c: char| keep_in_filename(c)),
            kept@ == v@.take(i as int).filter(pred),
        decreases v.len() - i,
    {
        let c = v[i];
        let u = c as u32;
        let control = u <= 0x1f || (0x7f <= u && u <= 0x9f);
        let reserved = c == '/' || c == '\\' || c == ':' || c == '*' || c == '?' || c == '"' || c
            == '<' || c == '>' || c == '|';
        proof {
            assert(v@.take(i + 1) =~= v@.take(i as int).push(c));
            lemma_filter_push(v@.take(i as int), c, pred);
        }
        if !control && !reserved {
            kept.push(c);
        }
        i += 1;
    }
    assert(v@.take(v.len() as int) =~= v@);
    let (a, b) = trim_bounds(&kept, 0, kept.len());
    assert(kept@.subrange(0, kept@.len() as int) =~= kept@);
    let end = if b - a > 180 {
        a + 180
    } else {
        b
    };
    let out = copy_range(&kept, a, end);
    assert(b - a > 180 ==> out@ =~= kept@.subrange(a as int, b as int).take(180));
    string_of(&out)
}

/// `Title - Artist` (or just the title when there is no artist), sanitized; the video id when
/// that leaves nothing.
pub open spec fn download_base_name_spec(title: Seq<char>, artists: Seq<char>, video_id: Seq<
    char,
>) -> Seq<char> {
    let joined = if trim(artists).len() == 0 {
        trim(title)
    } else {
        trim(title) + seq![' ', '-', ' '] + trim(artists)
    };
    let base = sanitize_filename_spec(joined);
    if base.len() == 0 {
        video_id
    } else {
        base
    }
}

/// The human-readable base of a download's file name (see `download_base_name_spec`).
pub fn download_base_name(title: &str, artists: &str, video_id: &str) -> (r: String)
    ensures
        r@ == download_base_name_spec(title@, artists@, video_id@),
{
    let tv = crate::text::trim_vec(&chars_of(title));
    let av = crate::text::trim_vec(&chars_of(artists));
    let mut joined = tv;
    if av.len() > 0 {
        joined.push(' ');
        joined.push('-');
        joined.push(' ');
        let ghost j0 = joined@;
        append_chars(&mut joined, &av);
    }
    proof {
        if trim(artists@).len() != 0 {
            assert(joined@ =~= trim(title@) + seq![' ', '-', ' '] + trim(artists@));
        }
    }
    let base = sanitize_filename(string_of(&joined).as_str());
    if base.as_str().is_empty() {
        string_of(&chars_of(video_id))
    } else {
        base
    }
}

/// The file name of a download: `<base>.<format>`, or `<base> [<id8>].<format>` when that name
/// is already taken by another track (or a stray file).
pub open spec fn download_file_name_spec(base: Seq<char>, format: Seq<char>, id8: Seq<char>, taken: bool) -> Seq<char> {
    if taken {
        base + seq![' ', '['] + id8 + seq![']', '.'] + format
    } else {
        base + seq!['.'] + format
    }
}

/// A character Windows (or any of the platforms) cannot take in a file name: a path separator,
/// one of `: * ? " < > |`, or a control character (U+0000 to U+001F, U+007F to U+009F).
pub open spec fn unsafe_in_filename(c: char) -> bool {
    ||| c == '/'
    ||| c == '\\'
    ||| c == ':'
    ||| c == '*'
    ||| c == '?'
    ||| c == '"'
    ||| c == '<'
    ||| c == '>'
    ||| c == '|'
    ||| (c as u32) <= 0x1f
    ||| (0x7f <= (c as u32) && (c as u32) <= 0x9f)
}

proof fn lemma_filter_all(s: Seq<char>, pred: spec_fn(char) -> bool)
    requires
        forall|i: int| 0 <= i < s.len() ==> pred(#[trigger] s[i]),
    ensures
        s.filter(pred) == s,
    decreases s.len(),
{
    if s.len() > 0 {
        lemma_filter_all(s.drop_last(), pred);
        lemma_filter_push(s.drop_last(), s.last(), pred);
        assert(s.drop_last().push(s.last()) =~= s);
    } else {
        reveal(Seq::filter);
        assert(s.filter(pred) =~= s);
    }
}

/// What sanitizing a file name guarantees: whatever the name, the result holds no character a
/// file name cannot take (no separator, none of `: * ? " < > |`, no control character) and
/// at most 180 characters; and a name that already holds none, has no whitespace at either end
/// and at most 180 characters comes back unchanged. So `Theme from "Shaft"` loses its quotes.
pub proof fn lemma_sanitized_names_are_safe(name: Seq<char>)
    ensures
        forall|i: int|
            0 <= i < sanitize_filename_spec(name).len() ==> !unsafe_in_filename(#[trigger] sanitize_filename_spec(name)[i]),
        sanitize_filename_spec(name).len() <= 180,
        (forall|i: int| 0 <= i < name.len() ==> !unsafe_in_filename(#[trigger] name[i])) && trim(name) == name
            && name.len() <= 180 ==> sanitize_filename_spec(name) == name,
{
    let pred = |c: char| keep_in_filename(c);
    let kept = name.filter(pred);
    let t = trim(kept);
    let r = sanitize_filename_spec(name);
    assert forall|i: int| 0 <= i < kept.len() implies keep_in_filename(#[trigger] kept[i]) by {
        name.lemma_filter_pred(pred, i);
    }
    crate::text::lemma_trim_sub(kept);
    let (a, b) = crate::text::trim_range(kept);
    assert forall|i: int| 0 <= i < r.len() implies !unsafe_in_filename(#[trigger] r[i]) by {
        assert(r[i] == t[i]);
        assert(t[i] == kept[a + i]);
        assert(keep_in_filename(kept[a + i]));
    }
    if (forall|i: int| 0 <= i < name.len() ==> !unsafe_in_filename(#[trigger] name[i])) && trim(name) == name
        && name.len() <= 180 {
        assert forall|i: int| 0 <= i < name.len() implies pred(#[trigger] name[i]) by {
            assert(!unsafe_in_filename(name[i]));
        }
        lemma_filter_all(name, pred);
    }
}

/// A download's base name is the sanitized `Title - Artist` (so it holds no character a file
/// name cannot take) unless that is empty, when it is the video id.
pub proof fn lemma_download_base_is_safe(title: Seq<char>, artists: Seq<char>, video_id: Seq<char>)
    ensures
        download_base_name_spec(title, artists, video_id) == video_id || forall|i: int|
            0 <= i < download_base_name_spec(title, artists, video_id).len() ==> !unsafe_in_filename(
                #[trigger] download_base_name_spec(title, artists, video_id)[i],
            ),
{
    let joined = if trim(artists).len() == 0 {
        trim(title)
    } else {
        trim(title) + seq![' ', '-', ' '] + trim(artists)
    };
    lemma_sanitized_names_are_safe(joined);
}

/// Collision-safe names: when the plain name is taken, the name used is a different one (it
/// carries the id suffix), so a second track with the same title and artist never overwrites
/// the first one's file; two tracks whose ids differ in their first characters get different
/// suffixed names.
pub proof fn lemma_taken_names_differ(base: Seq<char>, format: Seq<char>, id8: Seq<char>, other8: Seq<char>)
    ensures
        download_file_name_spec(base, format, id8, true) != download_file_name_spec(base, format, id8, false),
        id8.len() == other8.len() && id8 != other8 ==> download_file_name_spec(base, format, id8, true)
            != download_file_name_spec(base, format, other8, true),
{
    let a = download_file_name_spec(base, format, id8, true);
    let b = download_file_name_spec(base, format, id8, false);
    assert(a.len() != b.len());
    if id8.len() == other8.len() && id8 != other8 {
        let c = download_file_name_spec(base, format, other8, true);
        if a == c {
            assert(id8 =~= a.subrange(base.len() + 2int, base.len() + 2int + id8.len()));
            assert(other8 =~= c.subrange(base.len() + 2int, base.len() + 2int + other8.len()));
        }
    }
}

/// See `download_file_name_spec`.
pub fn download_file_name(base: &str, format: &str, id8: &str, taken: bool) -> (r: String)
    ensures
        r@ == download_file_name_spec(base@, format@, id8@, taken),
{
    let mut v = chars_of(base);
    if taken {
        v.push(' ');
        v.push('[');
        append_chars(&mut v, &chars_of(id8));
        v.push(']');
        v.push('.');
    } else {
        v.push('.');
    }
    append_chars(&mut v, &chars_of(format));
    proof {
        if taken {
            assert(v@ =~= base@ + seq![' ', '['] + id8@ + seq![']', '.'] + format@);
        } else {
            assert(v@ =~= base@ + seq!['.'] + format@);
        }
    }
    string_of(&v)
}

/// How many bytes UTF-8 spends on a character.
pub open spec fn utf8_width(c: char) -> nat {
    if (c as u32) < 0x80 {
        1
    } else if (c as u32) < 0x800 {
        2
    } else if (c as u32) < 0x10000 {
        3
    } else {
        4
    }
}

/// The UTF-8 length of a text in bytes.
pub open spec fn utf8_len(s: Seq<char>) -> nat
    decreases s.len(),
{
    if s.len() == 0 {
        0
    } else {
        utf8_len(s.drop_last()) + utf8_width(s.last())
    }
}

/// How many bytes of the video id tag a disambiguated name: the first 8, or all when shorter.
pub open spec fn id8_bytes(video_id: Seq<char>) -> nat {
    if utf8_len(video_id) < 8 {
        utf8_len(video_id)
    } else {
        8
    }
}

/// Every character adds at least one byte: a longer prefix is longer in bytes by at least the
/// characters it adds.
pub proof fn lemma_utf8_prefix_grows(s: Seq<char>, a: int, b: int)
    requires
        0 <= a <= b <= s.len(),
    ensures
        utf8_len(s.take(a)) + (b - a) <= utf8_len(s.take(b)),
    decreases b - a,
{
    if a < b {
        lemma_utf8_prefix_grows(s, a, b - 1);
        assert(s.take(b).drop_last() =~= s.take(b - 1));
    }
}

/// The characters of a video id's first `id8_bytes` bytes.
pub open spec fn id8_of(video_id: Seq<char>) -> Seq<char> {
    video_id.take(choose|k: int| 0 <= k <= video_id.len() && #[trigger] utf8_len(video_id.take(k)) == id8_bytes(video_id))
}

/// The id tag of a disambiguated file name: the video id's first 8 bytes (all of it when
/// shorter), as the characters they hold. Cutting there must not split a character, which the
/// plain ASCII ids YouTube issues never do.
pub fn video_id_prefix(video_id: &str) -> (r: String)
    requires
        exists|k: int| 0 <= k <= video_id@.len() && #[trigger] utf8_len(video_id@.take(k)) == id8_bytes(video_id@),
    ensures
        r@ == id8_of(video_id@),
        r@ == video_id@.take(r@.len() as int),
        r@.len() <= video_id@.len(),
        utf8_len(r@) == id8_bytes(video_id@),
{
    let v = chars_of(video_id);
    let n = v.len();
    let mut i: usize = 0;
    let mut bytes: u64 = 0;
    proof {
        assert(v@.take(0) =~= Seq::<char>::empty());
    }
    while i < n
        invariant_except_break
            n == v.len(),
            v@ == video_id@,
            i <= n,
            bytes == utf8_len(v@.take(i as int)),
            bytes <= 8,
        ensures
            n == v.len(),
            v@ == video_id@,
            i <= n,
            bytes == utf8_len(v@.take(i as int)),
            bytes <= 8,
            i < n ==> bytes + utf8_width(v@[i as int]) > 8,
        decreases n - i,
    {
        let c = v[i];
        let u = c as u32;
        let w: u64 = if u < 0x80 {
            1
        } else if u < 0x800 {
            2
        } else if u < 0x10000 {
            3
        } else {
            4
        };
        assert(w == utf8_width(c));
        if bytes + w > 8 {
            break;
        }
        proof {
            assert(v@.take(i + 1).drop_last() =~= v@.take(i as int));
        }
        bytes = bytes + w;
        i += 1;
    }
    proof {
        let s = video_id@;
        assert(s.take(s.len() as int) =~= s);
        if i == n {
            assert(v@.take(i as int) =~= s);
        } else {
            lemma_utf8_prefix_grows(s, i + 1, s.len() as int);
            assert(s.take(i + 1).drop_last() =~= s.take(i as int));
            assert(utf8_len(s) >= 8);
            let k = choose|k: int| 0 <= k <= s.len() && #[trigger] utf8_len(s.take(k)) == id8_bytes(s);
            if k <= i {
                lemma_utf8_prefix_grows(s, k, i as int);
            } else {
                lemma_utf8_prefix_grows(s, i + 1, k);
            }
        }
    }
    let out = copy_range(&v, 0, i);
    proof {
        let s = video_id@;
        assert(out@ =~= s.take(i as int));
        assert(out@ =~= s.take(out@.len() as int));
        let k = choose|k: int| 0 <= k <= s.len() && #[trigger] utf8_len(s.take(k)) == id8_bytes(s);
        if k < i {
            lemma_utf8_prefix_grows(s, k, i as int);
        } else if k > i {
            lemma_utf8_prefix_grows(s, i as int, k);
        }
        assert(k == i);
    }
    string_of(&out)
}

/// The names a download is given hold no `:`, and start with no separator, when the video id
/// and format hold no `:` and the id starts with no separator (the sanitized title and artists
/// never hold either), so they join onto a folder as relative parts.
proof fn lemma_download_names_relative(title: Seq<char>, artists: Seq<char>, video_id: Seq<char>, format: Seq<char>, id8: Seq<char>, taken: bool)
    requires
        !video_id.contains(':'),
        !(video_id.len() > 0 && crate::artist_packs::is_sep(video_id[0])),
        !format.contains(':'),
        !id8.contains(':'),
    ensures
        crate::artist_packs::relative_part(
            download_file_name_spec(download_base_name_spec(title, artists, video_id), format, id8, taken),
        ),
        crate::artist_packs::relative_part(
            download_part_name_spec(download_base_name_spec(title, artists, video_id), format, id8),
        ),
{
    let joined = if trim(artists).len() == 0 {
        trim(title)
    } else {
        trim(title) + seq![' ', '-', ' '] + trim(artists)
    };
    let kept = joined.filter(|c: char| keep_in_filename(c));
    let t = trim(kept);
    let san = sanitize_filename_spec(joined);
    assert(forall|i: int| 0 <= i < kept.len() ==> keep_in_filename(#[trigger] kept[i])) by {
        assert forall|i: int| 0 <= i < kept.len() implies keep_in_filename(#[trigger] kept[i]) by {
            joined.lemma_filter_pred(|c: char| keep_in_filename(c), i);
        }
    }
    crate::text::lemma_trim_sub(kept);
    let (a, b) = crate::text::trim_range(kept);
    assert(forall|i: int| 0 <= i < san.len() ==> keep_in_filename(#[trigger] san[i])) by {
        assert forall|i: int| 0 <= i < san.len() implies keep_in_filename(#[trigger] san[i]) by {
            assert(san[i] == t[i]);
            assert(t[i] == kept[a + i]);
        }
    }
    let base = download_base_name_spec(title, artists, video_id);
    assert(!base.contains(':') && !(base.len() > 0 && crate::artist_packs::is_sep(base[0]))) by {
        if base == san {
            if base.contains(':') {
                let i = choose|i: int| 0 <= i < base.len() && base[i] == ':';
                assert(keep_in_filename(san[i]));
            }
            if base.len() > 0 {
                assert(keep_in_filename(san[0]));
            }
        }
    }
    let name = download_file_name_spec(base, format, id8, taken);
    let part = download_part_name_spec(base, format, id8);
    assert(!name.contains(':')) by {
        if name.contains(':') {
            let i = choose|i: int| 0 <= i < name.len() && name[i] == ':';
            if i < base.len() {
                assert(name[i] == base[i]);
            } else if taken {
                let j = i - base.len() - 2;
                if 0 <= j < id8.len() {
                    assert(name[i] == id8[j]);
                } else if j >= id8.len() + 2 {
                    assert(name[i] == format[j - id8.len() - 2]);
                }
            } else if i > base.len() {
                assert(name[i] == format[i - base.len() - 1]);
            }
        }
    }
    assert(!part.contains(':')) by {
        if part.contains(':') {
            let i = choose|i: int| 0 <= i < part.len() && part[i] == ':';
            let b1 = base.len() + 1;
            if 1 <= i < b1 {
                assert(part[i] == base[i - 1]);
            } else if b1 + 1 <= i < b1 + 1 + id8.len() {
                assert(part[i] == id8[i - b1 - 1]);
            } else if b1 + 2 + id8.len() <= i < b1 + 2 + id8.len() + format.len() {
                assert(part[i] == format[i - b1 - 2 - id8.len()]);
            }
        }
    }
    if base.len() > 0 {
        assert(name[0] == base[0]);
    }
}

/// Where a download is written in `dir`: the final file (`download_file_name_spec`, with the
/// id tag when the plain name is taken) and the temporary `.part` file beside it, both named
/// from the title, artists, video id and format, and joined onto `dir` as `Path::join` joins.
/// For a `plain_base` folder, a video id and format without `:` and an id not starting with a
/// separator (all YouTube ids and download formats), each is exactly the folder, a separator,
/// then the name.
pub fn download_target(dir: &str, title: &str, artists: &str, video_id: &str, format: &str, taken: bool) -> (r: (String, String))
    requires
        exists|k: int| 0 <= k <= video_id@.len() && #[trigger] utf8_len(video_id@.take(k)) == id8_bytes(video_id@),
    ensures
        ({
            let base = download_base_name_spec(title@, artists@, video_id@);
            let name = download_file_name_spec(base, format@, id8_of(video_id@), taken);
            let part = download_part_name_spec(base, format@, id8_of(video_id@));
            &&& crate::artist_packs::plain_base(dir@) && crate::artist_packs::relative_part(name)
                ==> crate::artist_packs::sep_joined(dir@, name, r.0@)
            &&& crate::artist_packs::plain_base(dir@) && crate::artist_packs::relative_part(part)
                ==> crate::artist_packs::sep_joined(dir@, part, r.1@)
            &&& crate::artist_packs::plain_base(dir@) && !video_id@.contains(':') && !format@.contains(':')
                && !(video_id@.len() > 0 && crate::artist_packs::is_sep(video_id@[0])) ==> crate::artist_packs::sep_joined(
                dir@,
                name,
                r.0@,
            ) && crate::artist_packs::sep_joined(dir@, part, r.1@)
        }),
{
    let base = download_base_name(title, artists, video_id);
    let id8 = video_id_prefix(video_id);
    let name = download_file_name(base.as_str(), format, id8.as_str(), taken);
    let part = download_part_name(base.as_str(), format, id8.as_str());
    proof {
        if !video_id@.contains(':') {
            assert(!id8@.contains(':')) by {
                if id8@.contains(':') {
                    let i = choose|i: int| 0 <= i < id8@.len() && id8@[i] == ':';
                    assert(id8@[i] == video_id@[i]);
                }
            }
            if !format@.contains(':') && !(video_id@.len() > 0 && crate::artist_packs::is_sep(video_id@[0])) {
                lemma_download_names_relative(title@, artists@, video_id@, format@, id8@, taken);
            }
        }
    }
    let file_path = crate::artist_packs::join_path(dir, name.as_str());
    let part_path = crate::artist_packs::join_path(dir, part.as_str());
    (file_path, part_path)
}

/// The temporary name a download is written under: `.<base>.<id8>.<format>.part`.
pub open spec fn download_part_name_spec(base: Seq<char>, format: Seq<char>, id8: Seq<char>) -> Seq<char> {
    seq!['.'] + base + seq!['.'] + id8 + seq!['.'] + format + seq!['.', 'p', 'a', 'r', 't']
}

/// See `download_part_name_spec`.
pub fn download_part_name(base: &str, format: &str, id8: &str) -> (r: String)
    ensures
        r@ == download_part_name_spec(base@, format@, id8@),
{
    let mut v: Vec<char> = Vec::new();
    v.push('.');
    append_chars(&mut v, &chars_of(base));
    v.push('.');
    append_chars(&mut v, &chars_of(id8));
    v.push('.');
    append_chars(&mut v, &chars_of(format));
    v.push('.');
    v.push('p');
    v.push('a');
    v.push('r');
    v.push('t');
    assert(v@ =~= download_part_name_spec(base@, format@, id8@));
    string_of(&v)
}

// ---------------------------------------------------------------------------------------------
// googlevideo throttle
// ---------------------------------------------------------------------------------------------

pub open spec fn googlevideo() -> Seq<char> {
    seq!['g', 'o', 'o', 'g', 'l', 'e', 'v', 'i', 'd', 'e', 'o', '.', 'c', 'o', 'm']
}

pub open spec fn ratebypass_eq() -> Seq<char> {
    seq!['r', 'a', 't', 'e', 'b', 'y', 'p', 'a', 's', 's', '=']
}

/// `ratebypass=yes` appended (after `&`, or `?` when the URL has no query yet) to googlevideo
/// URLs that lack it; every other URL is unchanged.
pub open spec fn with_ratebypass_spec(url: Seq<char>) -> Seq<char> {
    if contains_seq(url, googlevideo()) && !contains_seq(url, ratebypass_eq()) {
        url + (if url.contains('?') {
            seq!['&']
        } else {
            seq!['?']
        }) + ratebypass_eq() + seq!['y', 'e', 's']
    } else {
        url
    }
}

fn contains_exec(v: &[char], p: &[char]) -> (r: bool)
    ensures
        r == contains_seq(v@, p@),
{
    match find_exec(v, p, 0) {
        Some(_) => true,
        None => {
            assert forall|j: int| !occurs_at(v@, p@, j) by {
                if j >= 0 {
                }
            }
            false
        },
    }
}

fn contains_char(v: &[char], c: char) -> (r: bool)
    ensures
        r == v@.contains(c),
{
    let mut i: usize = 0;
    while i < v.len()
        invariant
            i <= v.len(),
            forall|j: int| 0 <= j < i ==> v@[j] != c,
        decreases v.len() - i,
    {
        if v[i] == c {
            return true;
        }
        i += 1;
    }
    false
}

/// Append `ratebypass=yes` only to googlevideo URLs that don't already have it (see
/// `with_ratebypass_spec`); signed URLs keep every byte they had.
pub fn with_ratebypass(url: &str) -> (r: String)
    ensures
        r@ == with_ratebypass_spec(url@),
{
    let v = chars_of(url);
    let g = vec!['g', 'o', 'o', 'g', 'l', 'e', 'v', 'i', 'd', 'e', 'o', '.', 'c', 'o', 'm'];
    let rb = vec!['r', 'a', 't', 'e', 'b', 'y', 'p', 'a', 's', 's', '='];
    assert(g@ =~= googlevideo());
    assert(rb@ =~= ratebypass_eq());
    if contains_exec(&v, &g) && !contains_exec(&v, &rb) {
        let mut out = v;
        let q = contains_char(&out, '?');
        let ghost u = out@;
        out.push(if q {
            '&'
        } else {
            '?'
        });
        append_chars(&mut out, &rb);
        out.push('y');
        out.push('e');
        out.push('s');
        assert(out@ =~= with_ratebypass_spec(url@));
        string_of(&out)
    } else {
        string_of(&v)
    }
}

// ---------------------------------------------------------------------------------------------
// Cancellation
// ---------------------------------------------------------------------------------------------

// ---------------------------------------------------------------------------------------------
// Settings and names of one download
// ---------------------------------------------------------------------------------------------

/// The container downloads are saved in: `opus` or `webm` when the setting says so, else `m4a`.
pub open spec fn download_format_spec(setting: Option<Seq<char>>) -> Seq<char> {
    match setting {
        Some(f) => if f == seq!['o', 'p', 'u', 's'] || f == seq!['w', 'e', 'b', 'm'] {
            f
        } else {
            seq!['m', '4', 'a']
        },
        None => seq!['m', '4', 'a'],
    }
}

/// The container downloads are saved in (see `download_format_spec`).
pub fn download_format(setting: Option<&str>) -> (r: String)
    ensures
        r@ == download_format_spec(crate::lyrics::opt_str_view(setting)),
{
    let m4a = vec!['m', '4', 'a'];
    assert(m4a@ =~= seq!['m', '4', 'a']);
    match setting {
        Some(f) => {
            let v = chars_of(f);
            let opus = vec!['o', 'p', 'u', 's'];
            let webm = vec!['w', 'e', 'b', 'm'];
            assert(opus@ =~= seq!['o', 'p', 'u', 's']);
            assert(webm@ =~= seq!['w', 'e', 'b', 'm']);
            if chars_eq(&v, &opus) || chars_eq(&v, &webm) {
                string_of(&v)
            } else {
                string_of(&m4a)
            }
        },
        None => string_of(&m4a),
    }
}

/// The quality a download is recorded with: `LOW` or `AUTO` when the setting says so, else
/// `HIGH`.
pub open spec fn download_quality_spec(setting: Option<Seq<char>>) -> Seq<char> {
    match setting {
        Some(q) => if q == seq!['L', 'O', 'W'] {
            seq!['L', 'O', 'W']
        } else if q == seq!['A', 'U', 'T', 'O'] {
            seq!['A', 'U', 'T', 'O']
        } else {
            seq!['H', 'I', 'G', 'H']
        },
        None => seq!['H', 'I', 'G', 'H'],
    }
}

/// The quality label of a download (see `download_quality_spec`).
pub fn download_quality(setting: Option<&str>) -> (r: String)
    ensures
        r@ == download_quality_spec(crate::lyrics::opt_str_view(setting)),
{
    let low = vec!['L', 'O', 'W'];
    let auto = vec!['A', 'U', 'T', 'O'];
    let high = vec!['H', 'I', 'G', 'H'];
    assert(low@ =~= seq!['L', 'O', 'W']);
    assert(auto@ =~= seq!['A', 'U', 'T', 'O']);
    assert(high@ =~= seq!['H', 'I', 'G', 'H']);
    match setting {
        Some(q) => {
            let v = chars_of(q);
            if chars_eq(&v, &low) {
                string_of(&low)
            } else if chars_eq(&v, &auto) {
                string_of(&auto)
            } else {
                string_of(&high)
            }
        },
        None => string_of(&high),
    }
}

/// Whether the plain file name is taken: by another track in the catalogue, or (when the
/// catalogue knows no owner) by a stray file already on disk.
pub fn name_taken(owner: Option<&str>, video_id: &str, exists: bool) -> (t: bool)
    ensures
        t == (match crate::lyrics::opt_str_view(owner) {
            Some(o) => o != video_id@,
            None => exists,
        }),
{
    match owner {
        Some(o) => !chars_eq(&chars_of(o), &chars_of(video_id)),
        None => exists,
    }
}

/// Progress is reported at most every 100 ms, and always once the download is complete.
pub fn progress_due(since_last_ms: u64, downloaded: u64, total: u64) -> (b: bool)
    ensures
        b == (since_last_ms >= 100 || downloaded >= total),
{
    since_last_ms >= 100 || downloaded >= total
}

/// Live downloads (each with its cancel flag), cancel requests for tracks that have not started
/// yet, and the batch stop raised by "cancel all".
pub struct DownloadRegistry {
    active: Vec<(String, bool)>,
    requested: Vec<String>,
    batch_stop: bool,
}

pub open spec fn keys_of(s: Seq<(String, bool)>) -> Seq<Seq<char>> {
    s.map_values(|e: (String, bool)| e.0@)
}

/// The live downloads as a map from video id to cancel flag.
pub open spec fn active_map(s: Seq<(String, bool)>) -> Map<Seq<char>, bool>
    decreases s.len(),
{
    if s.len() == 0 {
        Map::empty()
    } else {
        active_map(s.drop_last()).insert(s.last().0@, s.last().1)
    }
}

pub open spec fn ids_of(s: Seq<String>) -> Seq<Seq<char>> {
    s.map_values(|x: String| x@)
}

/// The model of the registry.
pub struct RegistryV {
    pub active: Map<Seq<char>, bool>,
    pub requested: Set<Seq<char>>,
    pub batch_stop: bool,
}

impl View for DownloadRegistry {
    type V = RegistryV;

    closed spec fn view(&self) -> RegistryV {
        RegistryV {
            active: active_map(self.active@),
            requested: ids_of(self.requested@).to_set(),
            batch_stop: self.batch_stop,
        }
    }
}

proof fn lemma_active_map_dom(s: Seq<(String, bool)>)
    ensures
        active_map(s).dom() =~= keys_of(s).to_set(),
    decreases s.len(),
{
    if s.len() > 0 {
        lemma_active_map_dom(s.drop_last());
        assert(keys_of(s) =~= keys_of(s.drop_last()).push(s.last().0@));
        keys_of(s.drop_last()).lemma_push_to_set_commute(s.last().0@);
    } else {
        assert(keys_of(s).to_set() =~= Set::<Seq<char>>::empty()) by {
            assert(keys_of(s) =~= Seq::<Seq<char>>::empty());
        }
    }
}

proof fn lemma_active_map_get(s: Seq<(String, bool)>, i: int)
    requires
        keys_of(s).no_duplicates(),
        0 <= i < s.len(),
    ensures
        active_map(s).contains_key(s[i].0@),
        active_map(s)[s[i].0@] == s[i].1,
    decreases s.len(),
{
    lemma_active_map_dom(s);
    assert(keys_of(s)[i] == s[i].0@);
    if i < s.len() - 1 {
        assert(keys_of(s.drop_last()) =~= keys_of(s).drop_last());
        assert(s.drop_last()[i] == s[i]);
        lemma_active_map_get(s.drop_last(), i);
        assert(keys_of(s)[s.len() - 1] != keys_of(s)[i]);
    }
}

/// Registering a live download: its flag starts lowered.
pub open spec fn register_spec(r: RegistryV, id: Seq<char>) -> RegistryV {
    RegistryV { active: r.active.insert(id, false), requested: r.requested, batch_stop: r.batch_stop }
}

/// A finished (or failed) download leaves the live set.
pub open spec fn unregister_spec(r: RegistryV, id: Seq<char>) -> RegistryV {
    RegistryV { active: r.active.remove(id), requested: r.requested, batch_stop: r.batch_stop }
}

/// Cancelling one track: a live one gets its flag raised; otherwise the request is remembered
/// for when it would start. The answer says whether it was live.
pub open spec fn cancel_spec(r: RegistryV, id: Seq<char>) -> (RegistryV, bool) {
    if r.active.contains_key(id) {
        (RegistryV { active: r.active.insert(id, true), requested: r.requested, batch_stop: r.batch_stop }, true)
    } else {
        (RegistryV { active: r.active, requested: r.requested.insert(id), batch_stop: r.batch_stop }, false)
    }
}

/// Cancelling everything: the batch stop goes up and every live flag is raised.
pub open spec fn cancel_all_spec(r: RegistryV) -> RegistryV {
    RegistryV {
        active: Map::new(|k: Seq<char>| r.active.contains_key(k), |k: Seq<char>| true),
        requested: r.requested,
        batch_stop: true,
    }
}

/// Draining a pending request for `id` (whether there was one is the answer).
pub open spec fn take_request_spec(r: RegistryV, id: Seq<char>) -> (RegistryV, bool) {
    (RegistryV { active: r.active, requested: r.requested.remove(id), batch_stop: r.batch_stop }, r.requested.contains(id))
}

/// Whether a batch must skip `id` rather than start it: after a "cancel all", or when `id`
/// itself was cancelled while queued (that request is drained).
pub open spec fn skip_spec(r: RegistryV, id: Seq<char>) -> (RegistryV, bool) {
    let (r2, individually) = take_request_spec(r, id);
    (r2, r.batch_stop || individually)
}

/// Whether a live download has been asked to stop.
pub open spec fn is_cancelled_spec(r: RegistryV, id: Seq<char>) -> bool {
    r.active.contains_key(id) && r.active[id]
}

proof fn lemma_active_map_update(s: Seq<(String, bool)>, i: int, e: (String, bool))
    requires
        keys_of(s).no_duplicates(),
        0 <= i < s.len(),
        e.0@ == s[i].0@,
    ensures
        active_map(s.update(i, e)) =~= active_map(s).insert(e.0@, e.1),
        keys_of(s.update(i, e)) =~= keys_of(s),
    decreases s.len(),
{
    assert(keys_of(s.update(i, e)) =~= keys_of(s));
    if i == s.len() - 1 {
        assert(s.update(i, e).drop_last() =~= s.drop_last());
    } else {
        assert(s.update(i, e).drop_last() =~= s.drop_last().update(i, e));
        assert(keys_of(s.drop_last()) =~= keys_of(s).drop_last());
        lemma_active_map_update(s.drop_last(), i, e);
        assert(keys_of(s)[s.len() - 1] != keys_of(s)[i]);
    }
}

proof fn lemma_active_map_remove(s: Seq<(String, bool)>, i: int)
    requires
        keys_of(s).no_duplicates(),
        0 <= i < s.len(),
    ensures
        active_map(s.remove(i)) =~= active_map(s).remove(s[i].0@),
        keys_of(s.remove(i)) =~= keys_of(s).remove(i),
    decreases s.len(),
{
    assert(keys_of(s.remove(i)) =~= keys_of(s).remove(i));
    lemma_active_map_dom(s.drop_last());
    if i == s.len() - 1 {
        assert(s.remove(i) =~= s.drop_last());
        assert(keys_of(s.drop_last()) =~= keys_of(s).drop_last());
        assert(!keys_of(s.drop_last()).contains(s[i].0@)) by {
            if keys_of(s.drop_last()).contains(s[i].0@) {
                let j = choose|j: int| 0 <= j < keys_of(s.drop_last()).len() && keys_of(s.drop_last())[j] == s[i].0@;
                assert(keys_of(s)[j] == keys_of(s)[i]);
            }
        }
    } else {
        assert(s.remove(i).drop_last() =~= s.drop_last().remove(i));
        assert(s.remove(i).last() == s.last());
        assert(keys_of(s.drop_last()) =~= keys_of(s).drop_last());
        lemma_active_map_remove(s.drop_last(), i);
        assert(keys_of(s)[s.len() - 1] != keys_of(s)[i]);
    }
}

proof fn lemma_active_map_absent(s: Seq<(String, bool)>, k: Seq<char>)
    requires
        forall|j: int| 0 <= j < s.len() ==> s[j].0@ != k,
    ensures
        !active_map(s).contains_key(k),
{
    lemma_active_map_dom(s);
    if keys_of(s).to_set().contains(k) {
        let j = choose|j: int| 0 <= j < keys_of(s).len() && keys_of(s)[j] == k;
        assert(s[j].0@ == k);
    }
}

proof fn lemma_ids_remove(s: Seq<Seq<char>>, i: int)
    requires
        s.no_duplicates(),
        0 <= i < s.len(),
    ensures
        s.remove(i).to_set() =~= s.to_set().remove(s[i]),
        s.remove(i).no_duplicates(),
{
    let t = s.remove(i);
    assert forall|y: Seq<char>| t.to_set().contains(y) <==> s.to_set().remove(s[i]).contains(y) by {
        if t.to_set().contains(y) {
            let j = choose|j: int| 0 <= j < t.len() && t[j] == y;
            if j < i {
                assert(s[j] == y);
            } else {
                assert(s[j + 1] == y);
            }
        }
        if s.to_set().remove(s[i]).contains(y) {
            let j = choose|j: int| 0 <= j < s.len() && s[j] == y;
            assert(j != i);
            if j < i {
                assert(t[j] == y);
            } else {
                assert(t[j - 1] == y);
            }
        }
    }
}

impl DownloadRegistry {
    /// The registry is consistent: one entry per live video id, one per requested id.
    pub closed spec fn wf(&self) -> bool {
        keys_of(self.active@).no_duplicates() && ids_of(self.requested@).no_duplicates()
    }

    /// Nothing running, nothing requested, no batch stop.
    pub fn new() -> (r: Self)
        ensures
            r.wf(),
            r@.active == Map::<Seq<char>, bool>::empty(),
            r@.requested == Set::<Seq<char>>::empty(),
            !r@.batch_stop,
    {
        let r = DownloadRegistry { active: Vec::new(), requested: Vec::new(), batch_stop: false };
        assert(ids_of(r.requested@) =~= Seq::<Seq<char>>::empty());
        assert(keys_of(r.active@) =~= Seq::<Seq<char>>::empty());
        assert(r@.requested =~= Set::<Seq<char>>::empty());
        r
    }

    /// Registers a live download (its flag lowered).
    pub fn register(&mut self, video_id: &str)
        requires
            old(self).wf(),
        ensures
            final(self).wf(),
            final(self)@ == register_spec(old(self)@, video_id@),
    {
        let id = chars_of(video_id);
        match self.find_active(&id) {
            Some(i) => {
                proof {
                    lemma_active_map_update(self.active@, i as int, (self.active@[i as int].0, false));
                }
                let name = self.active[i].0.clone();
                let ghost e = (name, false);
                self.active.set(i, (name, false));
                assert(self.active@ =~= old(self).active@.update(i as int, e));
            },
            None => {
                let ghost before = self.active@;
                let name = string_of(&id);
                self.active.push((name, false));
                proof {
                    assert(keys_of(self.active@) =~= keys_of(before).push(video_id@));
                    assert(self.active@.drop_last() =~= before);
                    assert(!keys_of(before).contains(video_id@));
                }
            },
        }
        assert(self@.requested =~= old(self)@.requested);
    }

    /// Removes a download from the live set.
    pub fn unregister(&mut self, video_id: &str)
        requires
            old(self).wf(),
        ensures
            final(self).wf(),
            final(self)@ == unregister_spec(old(self)@, video_id@),
    {
        let id = chars_of(video_id);
        match self.find_active(&id) {
            Some(i) => {
                proof {
                    lemma_active_map_remove(self.active@, i as int);
                    lemma_ids_remove(keys_of(self.active@), i as int);
                }
                self.active.remove(i);
            },
            None => {
                proof {
                    lemma_active_map_absent(self.active@, video_id@);
                    assert(active_map(self.active@).remove(video_id@) =~= active_map(self.active@));
                }
            },
        }
    }

    /// Drains a pending cancel request for `video_id`; the answer says whether there was one.
    pub fn take_request(&mut self, video_id: &str) -> (found: bool)
        requires
            old(self).wf(),
        ensures
            final(self).wf(),
            (final(self)@, found) == take_request_spec(old(self)@, video_id@),
    {
        let id = chars_of(video_id);
        match self.find_requested(&id) {
            Some(i) => {
                proof {
                    lemma_ids_remove(ids_of(self.requested@), i as int);
                    assert(ids_of(self.requested@.remove(i as int)) =~= ids_of(self.requested@).remove(i as int));
                    assert(ids_of(self.requested@)[i as int] == video_id@);
                }
                self.requested.remove(i);
                true
            },
            None => {
                proof {
                    assert(!ids_of(self.requested@).contains(video_id@)) by {
                        if ids_of(self.requested@).contains(video_id@) {
                            let j = choose|j: int| 0 <= j < ids_of(self.requested@).len() && ids_of(self.requested@)[j] == video_id@;
                            assert(self.requested@[j]@ == video_id@);
                        }
                    }
                    assert(self@.requested.remove(video_id@) =~= self@.requested);
                }
                false
            },
        }
    }

    /// Whether the live download of `video_id` has been asked to stop.
    pub fn is_cancelled(&self, video_id: &str) -> (b: bool)
        requires
            self.wf(),
        ensures
            b == is_cancelled_spec(self@, video_id@),
    {
        let id = chars_of(video_id);
        match self.find_active(&id) {
            Some(i) => {
                proof {
                    lemma_active_map_get(self.active@, i as int);
                }
                self.active[i].1
            },
            None => {
                proof {
                    lemma_active_map_absent(self.active@, video_id@);
                }
                false
            },
        }
    }

    /// A fresh batch clears a stale stop from an earlier "cancel all".
    pub fn begin_batch(&mut self)
        requires
            old(self).wf(),
        ensures
            final(self).wf(),
            final(self)@ == (RegistryV { batch_stop: false, ..old(self)@ }),
    {
        self.batch_stop = false;
    }

    /// Whether a batch must skip `video_id` instead of starting it (see `skip_spec`).
    pub fn skip_in_batch(&mut self, video_id: &str) -> (skip: bool)
        requires
            old(self).wf(),
        ensures
            final(self).wf(),
            (final(self)@, skip) == skip_spec(old(self)@, video_id@),
    {
        let individually = self.take_request(video_id);
        self.batch_stop || individually
    }

    fn find_active(&self, id: &[char]) -> (r: Option<usize>)
        ensures
            match r {
                Some(i) => i < self.active@.len() && self.active@[i as int].0@ == id@,
                None => forall|k: int| 0 <= k < self.active@.len() ==> self.active@[k].0@ != id@,
            },
    {
        let mut i: usize = 0;
        while i < self.active.len()
            invariant
                i <= self.active.len(),
                forall|k: int| 0 <= k < i ==> self.active@[k].0@ != id@,
            decreases self.active.len() - i,
        {
            if crate::text::chars_eq(&chars_of(self.active[i].0.as_str()), id) {
                return Some(i);
            }
            i += 1;
        }
        None
    }

    fn find_requested(&self, id: &[char]) -> (r: Option<usize>)
        ensures
            match r {
                Some(i) => i < self.requested@.len() && self.requested@[i as int]@ == id@,
                None => forall|k: int| 0 <= k < self.requested@.len() ==> self.requested@[k]@ != id@,
            },
    {
        let mut i: usize = 0;
        while i < self.requested.len()
            invariant
                i <= self.requested.len(),
                forall|k: int| 0 <= k < i ==> self.requested@[k]@ != id@,
            decreases self.requested.len() - i,
        {
            if crate::text::chars_eq(&chars_of(self.requested[i].as_str()), id) {
                return Some(i);
            }
            i += 1;
        }
        None
    }
}

/// Request cancellation of one download, in-flight or still queued (see `cancel_spec`).
/// Always succeeds; the answer says whether it was in flight.
pub fn cancel_download(reg: &mut DownloadRegistry, video_id: &str) -> (live: bool)
    requires
        old(reg).wf(),
    ensures
        final(reg).wf(),
        (final(reg)@, live) == cancel_spec(old(reg)@, video_id@),
{
    let id = chars_of(video_id);
    match reg.find_active(&id) {
        Some(i) => {
            proof {
                lemma_active_map_update(reg.active@, i as int, (reg.active@[i as int].0, true));
                lemma_active_map_get(reg.active@, i as int);
            }
            let name = reg.active[i].0.clone();
            let ghost e = (name, true);
            reg.active.set(i, (name, true));
            assert(reg.active@ =~= old(reg).active@.update(i as int, e));
            assert(reg@.requested =~= old(reg)@.requested);
            true
        },
        None => {
            proof {
                lemma_active_map_absent(reg.active@, video_id@);
            }
            match reg.find_requested(&id) {
                Some(j) => {
                    proof {
                        assert(ids_of(reg.requested@)[j as int] == video_id@);
                        assert(reg@.requested.insert(video_id@) =~= reg@.requested);
                    }
                },
                None => {
                    let ghost before = reg.requested@;
                    reg.requested.push(string_of(&id));
                    proof {
                        assert(ids_of(reg.requested@) =~= ids_of(before).push(video_id@));
                        ids_of(before).lemma_push_to_set_commute(video_id@);
                        assert(!ids_of(before).contains(video_id@)) by {
                            if ids_of(before).contains(video_id@) {
                                let k = choose|k: int| 0 <= k < ids_of(before).len() && ids_of(before)[k] == video_id@;
                                assert(before[k]@ == video_id@);
                            }
                        }
                    }
                },
            }
            false
        },
    }
}

/// Cancel everything: every in-flight track plus any batch that hasn't started them yet. The
/// answer counts the live downloads and the pending requests.
pub fn cancel_all_downloads(reg: &mut DownloadRegistry) -> (n: usize)
    requires
        old(reg).wf(),
        old(reg)@.active.dom().len() + old(reg)@.requested.len() <= usize::MAX,
    ensures
        final(reg).wf(),
        final(reg)@ == cancel_all_spec(old(reg)@),
        n == old(reg)@.active.dom().len() + old(reg)@.requested.len(),
{
    proof {
        lemma_active_map_dom(reg.active@);
        keys_of(reg.active@).unique_seq_to_set();
        ids_of(reg.requested@).unique_seq_to_set();
    }
    reg.batch_stop = true;
    let ghost orig = reg.active@;
    let mut i: usize = 0;
    while i < reg.active.len()
        invariant
            i <= reg.active.len(),
            reg.active@.len() == orig.len(),
            keys_of(reg.active@) == keys_of(orig),
            forall|k: int| 0 <= k < i ==> #[trigger] reg.active@[k].1,
            forall|k: int| i <= k < orig.len() ==> #[trigger] reg.active@[k] == orig[k],
            reg.requested@ == old(reg).requested@,
            reg.batch_stop,
            orig == old(reg).active@,
            keys_of(orig).no_duplicates(),
        decreases reg.active.len() - i,
    {
        let name = reg.active[i].0.clone();
        let ghost before = reg.active@;
        reg.active.set(i, (name, true));
        assert(keys_of(reg.active@) =~= keys_of(before));
        i += 1;
    }
    proof {
        lemma_active_map_dom(reg.active@);
        assert forall|k: Seq<char>| active_map(reg.active@).contains_key(k) implies active_map(reg.active@)[k] by {
            let j = choose|j: int| 0 <= j < keys_of(reg.active@).len() && keys_of(reg.active@)[j] == k;
            lemma_active_map_get(reg.active@, j);
        }
        assert(active_map(reg.active@).dom() =~= active_map(orig).dom());
        assert(active_map(reg.active@) =~= cancel_all_spec(old(reg)@).active);
    }
    proof {
        lemma_active_map_dom(orig);
        keys_of(orig).unique_seq_to_set();
        ids_of(reg.requested@).unique_seq_to_set();
        assert(orig.len() == keys_of(orig).len());
    }
    reg.active.len() + reg.requested.len()
}


// ---------------------------------------------------------------------------------------------
// Laws of the registry
// ---------------------------------------------------------------------------------------------

/// Cancelling a live download raises its flag: the download reads as cancelled at its next
/// chunk.
pub proof fn lemma_cancel_live_stops(r: RegistryV, id: Seq<char>)
    requires
        r.active.contains_key(id),
    ensures
        cancel_spec(r, id).1,
        is_cancelled_spec(cancel_spec(r, id).0, id),
{
}

/// Cancelling a track that has not started is remembered: the batch skips it when it comes up,
/// and only once (the request is drained).
pub proof fn lemma_cancel_queued_skips_once(r: RegistryV, id: Seq<char>)
    requires
        !r.active.contains_key(id),
    ensures
        !cancel_spec(r, id).1,
        skip_spec(cancel_spec(r, id).0, id).1,
        !take_request_spec(skip_spec(cancel_spec(r, id).0, id).0, id).1,
{
}

/// "Cancel all" stops every live download and makes the batch skip every track it reaches,
/// until the next batch begins.
pub proof fn lemma_cancel_all_stops_everything(r: RegistryV, id: Seq<char>)
    ensures
        r.active.contains_key(id) ==> is_cancelled_spec(cancel_all_spec(r), id),
        skip_spec(cancel_all_spec(r), id).1,
{
}

/// A download that has finished is no longer live: cancelling it afterwards raises no flag.
pub proof fn lemma_finished_is_not_live(r: RegistryV, id: Seq<char>)
    ensures
        !is_cancelled_spec(unregister_spec(r, id), id),
        !cancel_spec(unregister_spec(r, id), id).1,
{
}


// ---------------------------------------------------------------------------------------------
// Playlist downloads
// ---------------------------------------------------------------------------------------------

/// One row of a playlist about to be downloaded, with what the catalogue says of its video:
/// whether earlier attempts put it in quarantine, and whether it is already saved.
pub struct PlaylistRow {
    pub video_id: String,
    pub quarantined: bool,
    pub downloaded: bool,
}

pub open spec fn row_is_local(r: PlaylistRow) -> bool {
    starts_with(r.video_id@, crate::local::song_prefix())
}

/// A row repeats an earlier one: some earlier row that is not a local file has its video id.
pub open spec fn repeats_earlier(rows: Seq<PlaylistRow>, i: int) -> bool {
    exists|j: int| 0 <= j < i && !row_is_local(rows[j]) && (#[trigger] rows[j]).video_id@ == rows[i].video_id@
}

/// A row is fetched when it is not a local file, not a repeat, not quarantined and not saved.
pub open spec fn is_candidate(rows: Seq<PlaylistRow>, i: int) -> bool {
    !row_is_local(rows[i]) && !repeats_earlier(rows, i) && !rows[i].quarantined && !rows[i].downloaded
}

/// A row counts as skipped when it is a local file, or a first occurrence that is not
/// quarantined and already saved (quarantined rows and repeats are not counted at all).
pub open spec fn is_skipped(rows: Seq<PlaylistRow>, i: int) -> bool {
    row_is_local(rows[i]) || (!repeats_earlier(rows, i) && !rows[i].quarantined && rows[i].downloaded)
}

pub open spec fn count_skipped(rows: Seq<PlaylistRow>, n: int) -> nat
    decreases n,
{
    if n <= 0 {
        0
    } else {
        count_skipped(rows, n - 1) + (if is_skipped(rows, n - 1) { 1nat } else { 0nat })
    }
}

proof fn lemma_count_skipped_bound(rows: Seq<PlaylistRow>, n: int)
    requires
        0 <= n,
    ensures
        count_skipped(rows, n) <= n,
    decreases n,
{
    if n > 0 {
        lemma_count_skipped_bound(rows, n - 1);
    }
}

/// Whether row `i` repeats an earlier row (see `repeats_earlier`).
fn repeats_earlier_exec(rows: &Vec<PlaylistRow>, i: usize) -> (b: bool)
    requires
        i < rows.len(),
    ensures
        b == repeats_earlier(rows@, i as int),
{
    let id = chars_of(rows[i].video_id.as_str());
    let mut j: usize = 0;
    while j < i
        invariant
            j <= i < rows.len(),
            id@ == rows@[i as int].video_id@,
            forall|m: int| 0 <= m < j ==> !(!row_is_local(rows@[m]) && (#[trigger] rows@[m]).video_id@ == rows@[i as int].video_id@),
        decreases i - j,
    {
        if !crate::local::is_local_song(rows[j].video_id.as_str()) && chars_eq(&chars_of(rows[j].video_id.as_str()), &id) {
            assert(!row_is_local(rows@[j as int]) && rows@[j as int].video_id@ == rows@[i as int].video_id@);
            return true;
        }
        j += 1;
    }
    false
}

/// Which rows of a playlist to fetch, in order, and how many count as skipped (see
/// `is_candidate`, `is_skipped`).
pub fn select_candidates(rows: &Vec<PlaylistRow>) -> (r: (Vec<usize>, u32))
    requires
        rows.len() <= u32::MAX,
    ensures
        forall|k: int| 0 <= k < r.0@.len() ==> (#[trigger] r.0@[k]) < rows@.len() && is_candidate(rows@, r.0@[k] as int),
        forall|k: int, l: int| 0 <= k < l < r.0@.len() ==> r.0@[k] < r.0@[l],
        forall|i: int| 0 <= i < rows@.len() && is_candidate(rows@, i) ==> r.0@.contains(i as usize),
        r.1 == count_skipped(rows@, rows@.len() as int),
{
    let mut picked: Vec<usize> = Vec::new();
    let mut skipped: u32 = 0;
    let mut i: usize = 0;
    while i < rows.len()
        invariant
            i <= rows.len(),
            rows.len() <= u32::MAX,
            skipped == count_skipped(rows@, i as int),
            forall|k: int| 0 <= k < picked@.len() ==> (#[trigger] picked@[k]) < i && is_candidate(rows@, picked@[k] as int),
            forall|k: int, l: int| 0 <= k < l < picked@.len() ==> picked@[k] < picked@[l],
            forall|j: int| 0 <= j < i && is_candidate(rows@, j) ==> picked@.contains(j as usize),
        decreases rows.len() - i,
    {
        proof {
            lemma_count_skipped_bound(rows@, i as int);
        }
        let ghost before = picked@;
        if crate::local::is_local_song(rows[i].video_id.as_str()) {
            skipped = skipped + 1;
        } else if !repeats_earlier_exec(rows, i) && !rows[i].quarantined {
            if rows[i].downloaded {
                skipped = skipped + 1;
            } else {
                picked.push(i);
                proof {
                    assert forall|j: int| 0 <= j < i && is_candidate(rows@, j) implies picked@.contains(j as usize) by {
                        let k = choose|k: int| 0 <= k < before.len() && before[k] == j as usize;
                        assert(picked@[k] == before[k]);
                    }
                    assert(picked@[picked@.len() - 1] == i);
                }
            }
        }
        i += 1;
    }
    (picked, skipped)
}

/// How a batch's downloads ended: the completed ones and the failed ones; a download that ended
/// as `cancelled` counts as neither.
pub open spec fn tally_spec(rs: Seq<Result<(), String>>) -> (nat, nat)
    decreases rs.len(),
{
    if rs.len() == 0 {
        (0, 0)
    } else {
        let (c, f) = tally_spec(rs.drop_last());
        match rs.last() {
            Ok(()) => (c + 1, f),
            Err(m) => if m@ == seq!['c', 'a', 'n', 'c', 'e', 'l', 'l', 'e', 'd'] {
                (c, f)
            } else {
                (c, f + 1)
            },
        }
    }
}

/// The window of a download batch: how many downloads hold a slot. A batch starts a track only
/// when fewer than [`DOWNLOAD_CONCURRENCY`] are running, so at most that many streams are ever
/// in flight; a finished download gives its slot back.
pub struct DownloadWindow {
    running: usize,
}

impl View for DownloadWindow {
    type V = nat;

    closed spec fn view(&self) -> nat {
        self.running as nat
    }
}

impl DownloadWindow {
    #[verifier::type_invariant]
    spec fn within_limit(&self) -> bool {
        self.running <= DOWNLOAD_CONCURRENCY
    }

    /// No download running.
    pub fn new() -> (w: Self)
        ensures
            w@ == 0,
    {
        DownloadWindow { running: 0 }
    }

    /// How many downloads hold a slot.
    pub fn running(&self) -> (n: usize)
        ensures
            n == self@,
            n <= DOWNLOAD_CONCURRENCY,
    {
        proof {
            use_type_invariant(self);
        }
        self.running
    }

    /// Takes a slot for the next track when one is free: true (and one more running) when fewer
    /// than `DOWNLOAD_CONCURRENCY` are running, else false and nothing changes. Never more than
    /// `DOWNLOAD_CONCURRENCY` run.
    pub fn try_start(&mut self) -> (started: bool)
        ensures
            started == (old(self)@ < DOWNLOAD_CONCURRENCY),
            final(self)@ == (if started { old(self)@ + 1 } else { old(self)@ }),
            final(self)@ <= DOWNLOAD_CONCURRENCY,
    {
        proof {
            use_type_invariant(&*self);
        }
        if self.running < DOWNLOAD_CONCURRENCY {
            self.running = self.running + 1;
            true
        } else {
            false
        }
    }

    /// A running download finished (done, failed or cancelled): its slot is free again.
    pub fn finish(&mut self)
        requires
            old(self)@ > 0,
        ensures
            final(self)@ == old(self)@ - 1,
            final(self)@ < DOWNLOAD_CONCURRENCY,
    {
        proof {
            use_type_invariant(&*self);
        }
        self.running = self.running - 1;
    }
}

/// Counts a batch's outcomes (see `tally_spec`).
pub fn tally_results(rs: &Vec<Result<(), String>>) -> (r: (usize, usize))
    ensures
        r.0 == tally_spec(rs@).0,
        r.1 == tally_spec(rs@).1,
{
    let cancelled = vec!['c', 'a', 'n', 'c', 'e', 'l', 'l', 'e', 'd'];
    assert(cancelled@ =~= seq!['c', 'a', 'n', 'c', 'e', 'l', 'l', 'e', 'd']);
    let mut c: usize = 0;
    let mut f: usize = 0;
    let mut i: usize = 0;
    while i < rs.len()
        invariant
            i <= rs.len(),
            cancelled@ == seq!['c', 'a', 'n', 'c', 'e', 'l', 'l', 'e', 'd'],
            c == tally_spec(rs@.take(i as int)).0,
            f == tally_spec(rs@.take(i as int)).1,
            c + f <= i,
        decreases rs.len() - i,
    {
        assert(rs@.take(i + 1).drop_last() =~= rs@.take(i as int));
        match &rs[i] {
            Ok(()) => {
                c = c + 1;
            },
            Err(m) => {
                if !chars_eq(&chars_of(m.as_str()), &cancelled) {
                    f = f + 1;
                }
            },
        }
        i += 1;
    }
    assert(rs@.take(rs.len() as int) =~= rs@);
    (c, f)
}

// ---------------------------------------------------------------------------------------------
// One download's life in the catalogue and the registry
// ---------------------------------------------------------------------------------------------

/// How a download starts.
pub enum DownloadStart {
    /// Already in the catalogue: nothing to do.
    AlreadyDownloaded,
    /// Cancelled while it sat queued: it ends here.
    Cancelled,
    /// Registered as live: fetch it.
    Go,
}

/// Starting a download: one already in the catalogue is done; otherwise it is registered as
/// live (so a cancel lands even while its stream is resolved) and, when a cancel arrived while
/// it was queued, that request is drained and it leaves the live set again.
pub open spec fn start_spec(downloaded: bool, r: RegistryV, id: Seq<char>) -> (RegistryV, DownloadStart) {
    if downloaded {
        (r, DownloadStart::AlreadyDownloaded)
    } else {
        let live = register_spec(r, id);
        let (drained, was_requested) = take_request_spec(live, id);
        if was_requested {
            (unregister_spec(drained, id), DownloadStart::Cancelled)
        } else {
            (drained, DownloadStart::Go)
        }
    }
}

/// A cancel that arrives while a track is queued stops it before it starts: it ends cancelled,
/// not live, with the request used up; a track already in the catalogue is never fetched again.
pub proof fn lemma_start_honours_cancels(r: RegistryV, id: Seq<char>)
    ensures
        r.requested.contains(id) ==> {
            let (after, s) = start_spec(false, r, id);
            &&& s is Cancelled
            &&& !after.active.contains_key(id)
            &&& !after.requested.contains(id)
        },
        start_spec(true, r, id) == (r, DownloadStart::AlreadyDownloaded),
        !r.requested.contains(id) ==> {
            let (after, s) = start_spec(false, r, id);
            &&& s is Go
            &&& after.active.contains_key(id)
            &&& !after.active[id]
        },
{
}

pub fn begin_download(db: &crate::db::Db, reg: &mut DownloadRegistry, video_id: &str) -> (s: DownloadStart)
    requires
        db.wf(),
        old(reg).wf(),
    ensures
        final(reg).wf(),
        (final(reg)@, s) == start_spec(db@.downloads.contains_key(video_id@), old(reg)@, video_id@),
{
    if is_downloaded(db, video_id) {
        return DownloadStart::AlreadyDownloaded;
    }
    reg.register(video_id);
    if reg.take_request(video_id) {
        reg.unregister(video_id);
        return DownloadStart::Cancelled;
    }
    DownloadStart::Go
}

/// The catalogue row of a finished download: the track's details, its file, the format it was
/// fetched in, the quality setting's label, its size (the byte count, as an `i64`), and when.
pub open spec fn record_ok(
    rec: DownloadTrack,
    video_id: Seq<char>,
    file_path: Seq<char>,
    title: Seq<char>,
    artists: Seq<char>,
    album: Option<Seq<char>>,
    duration: i64,
    thumb: Option<Seq<char>>,
    quality: Seq<char>,
    format: Seq<char>,
    size: u64,
    added_at: i64,
) -> bool {
    &&& rec.video_id@ == video_id
    &&& rec.file_path@ == file_path
    &&& rec.title@ == title
    &&& rec.artists@ == artists
    &&& crate::lyrics::opt_string_view(rec.album) == album
    &&& rec.duration == duration
    &&& crate::lyrics::opt_string_view(rec.thumb) == thumb
    &&& rec.quality@ == quality
    &&& rec.format@ == format
    &&& rec.size_bytes == size as i64
    &&& rec.added_at == added_at
}

/// The `download_quality` setting of the stored settings.
pub open spec fn quality_setting(db: crate::db::DbV) -> Option<Seq<char>> {
    if db.settings.contains_key("download_quality"@) {
        Some(db.settings["download_quality"@])
    } else {
        None
    }
}

/// A finished download goes into the catalogue (replacing any row of the same track) and
/// leaves the live set; returns its row.
pub fn finish_download(
    db: &mut crate::db::Db,
    reg: &mut DownloadRegistry,
    video_id: &str,
    file_path: &str,
    title: &str,
    artists: &str,
    album: Option<&str>,
    duration: i64,
    thumb: Option<&str>,
    format: &str,
    size: u64,
    added_at: i64,
) -> (rec: DownloadTrack)
    requires
        old(db).wf(),
        old(reg).wf(),
    ensures
        record_ok(
            rec,
            video_id@,
            file_path@,
            title@,
            artists@,
            crate::lyrics::opt_str_view(album),
            duration,
            crate::lyrics::opt_str_view(thumb),
            download_quality_spec(quality_setting(old(db)@)),
            format@,
            size,
            added_at,
        ),
        final(db).wf(),
        final(db)@ == (crate::db::DbV { downloads: old(db)@.downloads.insert(video_id@, rec), ..old(db)@ }),
        final(reg).wf(),
        final(reg)@ == unregister_spec(old(reg)@, video_id@),
{
    let setting = db.get_setting("download_quality");
    let quality = match &setting {
        Some(q) => download_quality(Some(q.as_str())),
        None => download_quality(None),
    };
    proof {
        assert(crate::lyrics::opt_string_view(setting) == quality_setting(db@));
    }
    let rec = DownloadTrack {
        video_id: video_id.to_string(),
        file_path: file_path.to_string(),
        title: title.to_string(),
        artists: artists.to_string(),
        album: match album {
            Some(a) => Some(a.to_string()),
            None => None,
        },
        duration,
        thumb: match thumb {
            Some(t) => Some(t.to_string()),
            None => None,
        },
        quality,
        format: format.to_string(),
        size_bytes: size as i64,
        added_at,
    };
    db.put_download(&rec);
    reg.unregister(video_id);
    rec
}

/// Deleting a download: its row goes; the file to remove is handed back when there was one.
pub fn delete_track(db: &mut crate::db::Db, video_id: &str) -> (r: Option<String>)
    requires
        old(db).wf(),
    ensures
        final(db).wf(),
        final(db)@ == (crate::db::DbV { downloads: old(db)@.downloads.remove(video_id@), ..old(db)@ }),
        r is Some == old(db)@.downloads.contains_key(video_id@),
        r matches Some(p) ==> p@ == old(db)@.downloads[video_id@].file_path@,
{
    let path = db.download_path(video_id);
    db.delete_download(video_id);
    path
}

} // verus!
