//! Local music: synthetic ids for files and albums on disk, the album key, duration labels, the
//! watched-folder list, and what the player is handed for a local file.
use vstd::prelude::*;

use crate::text::{
    ascii_lower, chars_eq, chars_of, contains_seq, dec_digits, dec_digits_exec, dec_int, dec_pad2,
    dec_pad2_exec, dec_signed_exec, append_chars, is_ascii_alnum, occurs_at, starts_with,
    starts_with_exec, string_of,
};

verus! {

/// A local file's synthetic videoId: this prefix + the absolute path.
pub const SONG_PREFIX: &'static str = "LOCAL:";

/// A local album's synthetic browseId: this prefix + the album key.
pub const ALBUM_PREFIX: &'static str = "LOCALALBUM:";

pub open spec fn song_prefix() -> Seq<char> {
    seq!['L', 'O', 'C', 'A', 'L', ':']
}

pub open spec fn album_prefix() -> Seq<char> {
    seq!['L', 'O', 'C', 'A', 'L', 'A', 'L', 'B', 'U', 'M', ':']
}

fn song_prefix_exec() -> (r: Vec<char>)
    ensures
        r@ == song_prefix(),
{
    let r = vec!['L', 'O', 'C', 'A', 'L', ':'];
    assert(r@ =~= song_prefix());
    r
}

fn album_prefix_exec() -> (r: Vec<char>)
    ensures
        r@ == album_prefix(),
{
    let r = vec!['L', 'O', 'C', 'A', 'L', 'A', 'L', 'B', 'U', 'M', ':'];
    assert(r@ =~= album_prefix());
    r
}

/// Whether a videoId names a local file.
pub fn is_local_song(video_id: &str) -> (b: bool)
    ensures
        b == starts_with(video_id@, song_prefix()),
{
    let v = chars_of(video_id);
    let p = song_prefix_exec();
    starts_with_exec(&v, &p)
}

/// The file behind a local videoId, or `None` when this isn't one.
pub fn song_path(video_id: &str) -> (r: Option<&str>)
    ensures
        match r {
            Some(p) => starts_with(video_id@, song_prefix()) && p@ == video_id@.skip(
                song_prefix().len() as int,
            ),
            None => !starts_with(video_id@, song_prefix()),
        },
{
    if is_local_song(video_id) {
        let n = video_id.unicode_len();
        let rest = video_id.substring_char(6, n);
        assert(rest@ =~= video_id@.skip(6));
        Some(rest)
    } else {
        None
    }
}

/// The synthetic videoId of a local file.
pub fn song_id(path: &str) -> (r: String)
    ensures
        r@ == song_prefix() + path@,
{
    let mut v = song_prefix_exec();
    append_chars(&mut v, &chars_of(path));
    string_of(&v)
}

/// The synthetic browseId of a local album.
pub fn album_id_of(album_key: &str) -> (r: String)
    ensures
        r@ == album_prefix() + album_key@,
{
    let mut v = album_prefix_exec();
    append_chars(&mut v, &chars_of(album_key));
    string_of(&v)
}

// ---------------------------------------------------------------------------------------------
// Album key
// ---------------------------------------------------------------------------------------------

/// What `str::to_lowercase` returns: the Unicode lowercase mapping of the string.
pub uninterp spec fn lowercase(s: Seq<char>) -> Seq<char>;

/// Lowercases a string.
///
/// Trusted: wraps `str::to_lowercase`, which std documents as returning the lowercase
/// equivalent of the string as a new `String`; the mapping itself (Unicode's) is only named.
#[verifier::external_body]
pub(crate) fn to_lowercase(s: &str) -> (r: String)
    ensures
        r@ == lowercase(s@),
{
    s.to_lowercase()
}

/// A character of an album key: ASCII letters, digits and `-` stay, everything else is `-`.
pub open spec fn key_char(c: char) -> char {
    if is_ascii_alnum(c) || c == '-' {
        c
    } else {
        '-'
    }
}

pub open spec fn raw_album_key(artist: Seq<char>, album: Seq<char>, dir: Option<Seq<char>>) -> Seq<
    char,
> {
    if album.len() == 0 {
        match dir {
            Some(d) => d,
            None => seq!['u', 'n', 'k', 'n', 'o', 'w', 'n'],
        }
    } else {
        artist + seq!['-', '-'] + album
    }
}

/// A stable, readable album id: `artist--album` (or the folder when there is no album),
/// lowercased, every character outside `[A-Za-z0-9-]` turned into `-`, at most 80 long.
pub open spec fn album_key_spec(artist: Seq<char>, album: Seq<char>, dir: Option<Seq<char>>) -> Seq<
    char,
> {
    let mapped = lowercase(raw_album_key(artist, album, dir)).map_values(|c: char| key_char(c));
    if mapped.len() > 80 {
        mapped.take(80)
    } else {
        mapped
    }
}

/// See `album_key_spec`. `dir` is the track's folder, as text.
pub fn album_key(artist: &str, album: &str, dir: Option<&str>) -> (r: String)
    ensures
        r@ == album_key_spec(artist@, album@, crate::lyrics::opt_str_view(dir)),
{
    let raw: Vec<char> = if album.is_empty() {
        match dir {
            Some(d) => chars_of(d),
            None => {
                let u = vec!['u', 'n', 'k', 'n', 'o', 'w', 'n'];
                assert(u@ =~= seq!['u', 'n', 'k', 'n', 'o', 'w', 'n']);
                u
            },
        }
    } else {
        let mut r = chars_of(artist);
        r.push('-');
        r.push('-');
        append_chars(&mut r, &chars_of(album));
        r
    };
    proof {
        if album@.len() != 0 {
            assert(raw@ =~= artist@ + seq!['-', '-'] + album@);
        }
    }
    let lower = chars_of(&to_lowercase(&string_of(&raw)));
    let mut out: Vec<char> = Vec::new();
    let mut i: usize = 0;
    while i < lower.len() && i < 80
        invariant
            i <= lower.len(),
            i <= 80,
            out@ == lower@.take(i as int).map_values(|c: char| key_char(c)),
        decreases lower.len() - i,
    {
        let c = lower[i];
        let k = if ('a' <= c && c <= 'z') || ('A' <= c && c <= 'Z') || ('0' <= c && c <= '9') || c
            == '-' {
            c
        } else {
            '-'
        };
        out.push(k);
        assert(lower@.take(i + 1).map_values(|c: char| key_char(c)) =~= lower@.take(
            i as int,
        ).map_values(|c: char| key_char(c)).push(key_char(lower@[i as int])));
        i += 1;
    }
    proof {
        let mapped = lower@.map_values(|c: char| key_char(c));
        if lower@.len() > 80 {
            assert(out@ =~= mapped.take(80));
        } else {
            assert(lower@.take(lower@.len() as int) =~= lower@);
            assert(out@ =~= mapped);
        }
    }
    string_of(&out)
}

// ---------------------------------------------------------------------------------------------
// Durations
// ---------------------------------------------------------------------------------------------

/// Integer division rounding toward zero (Rust's `/`).
pub open spec fn tdiv(a: int, b: int) -> int {
    if a >= 0 {
        a / b
    } else {
        -((-a) / b)
    }
}

/// Remainder with the dividend's sign (Rust's `%`).
pub open spec fn trem(a: int, b: int) -> int {
    a - b * tdiv(a, b)
}

/// Seconds to `m:ss`, or `h:mm:ss` once there is a whole hour.
pub open spec fn fmt_duration_spec(secs: int) -> Seq<char> {
    let h = tdiv(secs, 3600);
    let m = tdiv(trem(secs, 3600), 60);
    let s = trem(secs, 60);
    if h > 0 {
        dec_int(h) + seq![':'] + dec_pad2(m) + seq![':'] + dec_pad2(s)
    } else {
        dec_int(m) + seq![':'] + dec_pad2(s)
    }
}

/// Seconds to "3:47" / "1:08:20".
pub fn fmt_duration(secs: i64) -> (r: String)
    ensures
        r@ == fmt_duration_spec(secs as int),
{
    let neg = secs < 0;
    let mag: u64 = if neg {
        (-(secs as i128)) as u64
    } else {
        secs as u64
    };
    let hm = mag / 3600;
    let mm = (mag % 3600) / 60;
    let sm = mag % 60;
    proof {
        let a = secs as int;
        if neg {
            assert(tdiv(a, 3600) == -(hm as int));
            assert(trem(a, 3600) == -((mag % 3600) as int));
            assert(tdiv(trem(a, 3600), 60) == -(mm as int));
            assert(trem(a, 60) == -(sm as int));
        }
    }
    let mut out: Vec<char> = Vec::new();
    if !neg && hm > 0 {
        out = dec_signed_exec(false, hm);
        out.push(':');
        append_chars(&mut out, &dec_pad2_exec(false, mm));
        out.push(':');
        append_chars(&mut out, &dec_pad2_exec(false, sm));
    } else {
        out = dec_signed_exec(neg, mm);
        out.push(':');
        append_chars(&mut out, &dec_pad2_exec(neg, sm));
    }
    string_of(&out)
}

// ---------------------------------------------------------------------------------------------
// Watched folders
// ---------------------------------------------------------------------------------------------

pub open spec fn strings_view(v: Seq<String>) -> Seq<Seq<char>> {
    v.map_values(|s: String| s@)
}

/// Whether `path` is `f` or lies inside it.
pub open spec fn covered_by(path: Seq<char>, f: Seq<char>) -> bool {
    path == f || starts_with(path, f.push('/'))
}

/// The list after adding `path`: unchanged when a watched folder already covers it; otherwise
/// the folders inside `path` give way to it and it goes last.
pub open spec fn add_folder_spec(list: Seq<Seq<char>>, path: Seq<char>) -> Seq<Seq<char>> {
    if exists|i: int| 0 <= i < list.len() && covered_by(path, #[trigger] list[i]) {
        list
    } else {
        list.filter(|f: Seq<char>| !starts_with(f, path.push('/'))).push(path)
    }
}

/// The list after removing every entry equal to `path`.
pub open spec fn remove_folder_spec(list: Seq<Seq<char>>, path: Seq<char>) -> Seq<Seq<char>> {
    list.filter(|f: Seq<char>| f != path)
}

/// Whether `path` is `f` or inside it.
fn covered_by_exec(path: &[char], f: &[char]) -> (r: bool)
    ensures
        r == covered_by(path@, f@),
{
    if chars_eq(path, f) {
        return true;
    }
    let mut fs: Vec<char> = Vec::new();
    append_chars(&mut fs, f);
    fs.push('/');
    assert(fs@ =~= f@.push('/'));
    starts_with_exec(path, &fs)
}

proof fn lemma_filter_push<A>(s: Seq<A>, x: A, pred: spec_fn(A) -> bool)
    ensures
        s.push(x).filter(pred) == (if pred(x) {
            s.filter(pred).push(x)
        } else {
            s.filter(pred)
        }),
{
    reveal(Seq::filter);
    assert(s.push(x).drop_last() =~= s);
}

/// Adds a watched folder (no-op if it's already watched, or nested inside one that is; a new
/// parent supersedes the children already in the list).
pub fn add_folder_to(list: Vec<String>, path: String) -> (r: Vec<String>)
    ensures
        strings_view(r@) == add_folder_spec(strings_view(list@), path@),
{
    let pv = chars_of(path.as_str());
    let mut i: usize = 0;
    while i < list.len()
        invariant
            i <= list.len(),
            pv@ == path@,
            forall|k: int| 0 <= k < i ==> !covered_by(path@, #[trigger] strings_view(list@)[k]),
        decreases list.len() - i,
    {
        let f = chars_of(list[i].as_str());
        if covered_by_exec(&pv, &f) {
            assert(covered_by(path@, strings_view(list@)[i as int]));
            return list;
        }
        i += 1;
    }
    let mut child: Vec<char> = Vec::new();
    append_chars(&mut child, &pv);
    child.push('/');
    let ghost pred = |f: Seq<char>| !starts_with(f, path@.push('/'));
    let mut out: Vec<String> = Vec::new();
    let mut j: usize = 0;
    while j < list.len()
        invariant
            j <= list.len(),
            child@ == path@.push('/'),
            pred == (|f: Seq<char>| !starts_with(f, path@.push('/'))),
            strings_view(out@) == strings_view(list@).take(j as int).filter(pred),
        decreases list.len() - j,
    {
        let f = chars_of(list[j].as_str());
        let keep = !starts_with_exec(&f, &child);
        proof {
            assert(strings_view(list@).take(j + 1) =~= strings_view(list@).take(j as int).push(
                list@[j as int]@,
            ));
            lemma_filter_push(strings_view(list@).take(j as int), list@[j as int]@, pred);
        }
        if keep {
            let ghost prev = out@;
            out.push(list[j].clone());
            assert(strings_view(out@) =~= strings_view(prev).push(list@[j as int]@));
        }
        j += 1;
    }
    let ghost prev = out@;
    out.push(path);
    proof {
        assert(strings_view(out@) =~= strings_view(prev).push(path@));
        assert(strings_view(list@).take(list.len() as int) =~= strings_view(list@));
    }
    out
}

/// Stops watching a folder.
pub fn remove_folder_from(list: Vec<String>, path: &str) -> (r: Vec<String>)
    ensures
        strings_view(r@) == remove_folder_spec(strings_view(list@), path@),
{
    let pv = chars_of(path);
    let ghost pred = |f: Seq<char>| f != path@;
    let mut out: Vec<String> = Vec::new();
    let mut j: usize = 0;
    while j < list.len()
        invariant
            j <= list.len(),
            pv@ == path@,
            pred == (|f: Seq<char>| f != path@),
            strings_view(out@) == strings_view(list@).take(j as int).filter(pred),
        decreases list.len() - j,
    {
        let f = chars_of(list[j].as_str());
        let keep = !chars_eq(&f, &pv);
        proof {
            assert(strings_view(list@).take(j + 1) =~= strings_view(list@).take(j as int).push(
                list@[j as int]@,
            ));
            lemma_filter_push(strings_view(list@).take(j as int), list@[j as int]@, pred);
        }
        if keep {
            let ghost prev = out@;
            out.push(list[j].clone());
            assert(strings_view(out@) =~= strings_view(prev).push(list@[j as int]@));
        }
        j += 1;
    }
    assert(strings_view(list@).take(list.len() as int) =~= strings_view(list@));
    out
}

// ---------------------------------------------------------------------------------------------
// Playback
// ---------------------------------------------------------------------------------------------

/// Everything the player needs for one track.
pub struct PlaybackData {
    pub video_id: String,
    /// What mpv opens: a URL, or for a local file its path.
    pub stream_url: String,
    pub itag: i64,
    pub headers: Vec<(String, String)>,
    pub expires_in_seconds: i64,
    pub stream_client: String,
}

/// Whether a path names an existing regular file.
///
/// Trusted: wraps `std::path::Path::is_file`. The answer depends on the disk at the time of the
/// call, so nothing is stated of it.
#[verifier::external_body]
fn path_is_file(path: &str) -> bool {
    std::path::Path::new(path).is_file()
}

/// The playback record of a local file: the "stream url" is the path itself, it never expires
/// (`i64::MAX / 2`), carries no headers, and is attributed to the `local` client.
pub open spec fn local_playback_ok(d: PlaybackData, video_id: Seq<char>, path: Seq<char>) -> bool {
    &&& d.video_id@ == video_id
    &&& d.stream_url@ == path
    &&& d.itag == 0
    &&& d.headers@.len() == 0
    &&& d.expires_in_seconds == i64::MAX / 2
    &&& d.stream_client@ == seq!['l', 'o', 'c', 'a', 'l']
}

/// The playback record for a local file known to exist (see `local_playback_ok`).
pub fn local_playback(video_id: &str, path: &str) -> (d: PlaybackData)
    ensures
        local_playback_ok(d, video_id@, path@),
{
    let client = vec!['l', 'o', 'c', 'a', 'l'];
    assert(client@ =~= seq!['l', 'o', 'c', 'a', 'l']);
    PlaybackData {
        video_id: string_of(&chars_of(video_id)),
        stream_url: string_of(&chars_of(path)),
        itag: 0,
        headers: Vec::new(),
        expires_in_seconds: i64::MAX / 2,
        stream_client: string_of(&client),
    }
}

/// The playback answer once it is known whether the file is still there: its record when it
/// is, `Err` when it is gone.
pub fn playback_if_found(found: bool, video_id: &str, path: &str) -> (r: Result<PlaybackData, ()>)
    ensures
        r is Ok == found,
        r matches Ok(d) ==> local_playback_ok(d, video_id@, path@),
{
    if !found {
        return Err(());
    }
    Ok(local_playback(video_id, path))
}

/// Everything the player needs for a local file, or `Err` when the file is gone (the user
/// deleted it since the scan): the queue skips it like any other unplayable track. Whether the
/// file is there is the disk's answer at the time of the call (see `playback_if_found`).
pub fn playback_data(video_id: &str, path: &str) -> (r: Result<PlaybackData, ()>)
    ensures
        r matches Ok(d) ==> local_playback_ok(d, video_id@, path@),
{
    let found = path_is_file(path);
    playback_if_found(found, video_id, path)
}


// ---------------------------------------------------------------------------------------------
// Audio files
// ---------------------------------------------------------------------------------------------

/// The audio formats the scan picks up (by extension, compared in ASCII lowercase).
pub open spec fn audio_exts() -> Seq<Seq<char>> {
    seq![
        seq!['m', 'p', '3'],
        seq!['f', 'l', 'a', 'c'],
        seq!['m', '4', 'a'],
        seq!['m', '4', 'b'],
        seq!['a', 'a', 'c'],
        seq!['o', 'g', 'g'],
        seq!['o', 'g', 'a'],
        seq!['o', 'p', 'u', 's'],
        seq!['w', 'a', 'v'],
        seq!['w', 'm', 'a'],
        seq!['a', 'i', 'f', 'f'],
        seq!['a', 'i', 'f'],
        seq!['a', 'p', 'e'],
        seq!['w', 'v'],
        seq!['m', 'k', 'a'],
    ]
}

/// `str::to_ascii_lowercase`.
pub open spec fn ascii_lowercase(s: Seq<char>) -> Seq<char> {
    s.map_values(|c: char| ascii_lower(c))
}

/// `str::to_ascii_lowercase`, as characters.
pub fn ascii_lowercase_exec(v: &Vec<char>) -> (r: Vec<char>)
    ensures
        r@ == ascii_lowercase(v@),
{
    let mut r: Vec<char> = Vec::new();
    let mut i: usize = 0;
    while i < v.len()
        invariant
            i <= v.len(),
            r@ == ascii_lowercase(v@.take(i as int)),
        decreases v.len() - i,
    {
        r.push(crate::text::char_ascii_lower(v[i]));
        assert(ascii_lowercase(v@.take(i + 1)) =~= ascii_lowercase(v@.take(i as int)).push(
            ascii_lower(v@[i as int]),
        ));
        i += 1;
    }
    assert(v@.take(v.len() as int) =~= v@);
    r
}

/// Whether `w` is one of the words in `list`.
pub fn one_of(w: &Vec<char>, list: &Vec<Vec<char>>) -> (b: bool)
    ensures
        b == exists|i: int| 0 <= i < list@.len() && (#[trigger] list@[i])@ == w@,
{
    let mut i: usize = 0;
    while i < list.len()
        invariant
            i <= list.len(),
            forall|j: int| 0 <= j < i ==> (#[trigger] list@[j])@ != w@,
        decreases list.len() - i,
    {
        if chars_eq(&list[i], w) {
            return true;
        }
        i += 1;
    }
    false
}

/// An extension marks an audio file when, lowercased, it is one of `audio_exts`.
pub open spec fn is_audio_ext_spec(ext: Option<Seq<char>>) -> bool {
    match ext {
        Some(e) => audio_exts().contains(ascii_lowercase(e)),
        None => false,
    }
}

/// Whether a file extension (without the dot) marks an audio file (see `is_audio_ext_spec`).
pub fn is_audio_ext(ext: Option<&str>) -> (b: bool)
    ensures
        b == is_audio_ext_spec(crate::lyrics::opt_str_view(ext)),
{
    let e = match ext {
        Some(e) => e,
        None => return false,
    };
    let lower = ascii_lowercase_exec(&chars_of(e));
    let list = vec![
        vec!['m', 'p', '3'],
        vec!['f', 'l', 'a', 'c'],
        vec!['m', '4', 'a'],
        vec!['m', '4', 'b'],
        vec!['a', 'a', 'c'],
        vec!['o', 'g', 'g'],
        vec!['o', 'g', 'a'],
        vec!['o', 'p', 'u', 's'],
        vec!['w', 'a', 'v'],
        vec!['w', 'm', 'a'],
        vec!['a', 'i', 'f', 'f'],
        vec!['a', 'i', 'f'],
        vec!['a', 'p', 'e'],
        vec!['w', 'v'],
        vec!['m', 'k', 'a'],
    ];
    proof {
        let l = list@.map_values(|x: Vec<char>| x@);
        assert(list@[0]@ =~= audio_exts()[0]);
        assert(list@[1]@ =~= audio_exts()[1]);
        assert(list@[2]@ =~= audio_exts()[2]);
        assert(list@[3]@ =~= audio_exts()[3]);
        assert(list@[4]@ =~= audio_exts()[4]);
        assert(list@[5]@ =~= audio_exts()[5]);
        assert(list@[6]@ =~= audio_exts()[6]);
        assert(list@[7]@ =~= audio_exts()[7]);
        assert(list@[8]@ =~= audio_exts()[8]);
        assert(list@[9]@ =~= audio_exts()[9]);
        assert(list@[10]@ =~= audio_exts()[10]);
        assert(list@[11]@ =~= audio_exts()[11]);
        assert(list@[12]@ =~= audio_exts()[12]);
        assert(list@[13]@ =~= audio_exts()[13]);
        assert(list@[14]@ =~= audio_exts()[14]);
        assert(l =~= audio_exts());
        assert(forall|i: int| 0 <= i < list@.len() ==> (#[trigger] list@[i])@ == l[i]);
    }
    let b = one_of(&lower, &list);
    proof {
        let l = list@.map_values(|x: Vec<char>| x@);
        if b {
            let i = choose|i: int| 0 <= i < list@.len() && (#[trigger] list@[i])@ == lower@;
            assert(audio_exts()[i] == lower@);
        } else {
            if audio_exts().contains(lower@) {
                let i = choose|i: int| 0 <= i < audio_exts().len() && audio_exts()[i] == lower@;
                assert(list@[i]@ == l[i]);
            }
        }
    }
    b
}

/// What follows the last `c` in `s` (all of `s` when there is none).
pub open spec fn after_last(s: Seq<char>, c: char) -> Seq<char>
    decreases s.len(),
{
    if s.len() == 0 {
        s
    } else if s.last() == c {
        Seq::<char>::empty()
    } else {
        after_last(s.drop_last(), c).push(s.last())
    }
}

/// A path whose file name is what follows its last `/` on every platform: no `\`, no `:` and
/// no leading `//` (so no Windows prefix and no other separator), not ending in `/`, and its
/// last component neither `.` nor `..`.
pub open spec fn plain_path(p: Seq<char>) -> bool {
    &&& p.len() > 0
    &&& !p.contains('\\')
    &&& !p.contains(':')
    &&& !(p.len() >= 2 && p[0] == '/' && p[1] == '/')
    &&& p.last() != '/'
    &&& after_last(p, '/') != seq!['.']
    &&& after_last(p, '/') != seq!['.', '.']
}

/// The extension of a file name as std documents it: none without a `.`, none when the only
/// `.` begins the name, else what follows the last `.`.
pub open spec fn name_extension(name: Seq<char>) -> Option<Seq<char>> {
    let e = after_last(name, '.');
    if !name.contains('.') || e.len() + 1 == name.len() {
        None
    } else {
        Some(e)
    }
}

/// The extension of a path, as `Path::extension` reads it (and only when it is valid UTF-8).
///
/// Trusted: wraps `std::path::Path::extension` and `OsStr::to_str`. std documents the extension
/// as the part of the file name after its final `.` (none without an embedded `.`, none when the
/// name begins with its only `.`), and the file name as the final normal component; so, whatever
/// the platform's separators, the extension has no `.` and no `/` and follows a `.` in the path,
/// and for a `plain_path` it is `name_extension` of what follows the last `/`. Which part of
/// other paths is the file name depends on the platform's separators, so no more is stated.
#[verifier::external_body]
fn path_extension(path: &str) -> (r: Option<String>)
    ensures
        r matches Some(e) ==> !e@.contains('.') && !e@.contains('/') && contains_seq(
            path@,
            seq!['.'] + e@,
        ),
        plain_path(path@) ==> (match r {
            Some(e) => Some(e@),
            None => None,
        }) == name_extension(after_last(path@, '/')),
{
    std::path::Path::new(path).extension().and_then(|e| e.to_str()).map(|e| e.to_string())
}

/// Whether a file's extension marks it as audio: the extension `Path` reads off it, checked
/// by `is_audio_ext`. A file said to be audio has, after a `.`, a dot-free extension from the
/// audio list (in any ASCII case); for a `plain_path` the answer is exactly whether the file
/// name's extension is in that list.
pub fn is_audio(path: &str) -> (b: bool)
    ensures
        b ==> exists|e: Seq<char>|
            !e.contains('.') && contains_seq(path@, seq!['.'] + e) && #[trigger] is_audio_ext_spec(Some(e)),
        plain_path(path@) ==> b == is_audio_ext_spec(name_extension(after_last(path@, '/'))),
{
    match path_extension(path) {
        Some(e) => is_audio_ext(Some(e.as_str())),
        None => false,
    }
}

/// The font file extensions a theme may load.
pub open spec fn font_exts() -> Seq<Seq<char>> {
    seq![seq!['t', 't', 'f'], seq!['o', 't', 'f'], seq!['w', 'o', 'f', 'f'], seq!['w', 'o', 'f', 'f', '2']]
}

pub open spec fn not_a_font_msg(path: Seq<char>) -> Seq<char> {
    "not a font file: "@ + path
}

pub open spec fn font_missing_msg(path: Seq<char>) -> Seq<char> {
    "font file not found: "@ + path
}

/// Whether a font file the user picked may be served: its extension, lowercased, must be a
/// font's, and the file must exist. A path without a `.` has no extension, so it is refused as
/// not a font; a file that passes has a font extension after a `.`; a file refused as missing
/// has one too.
pub fn font_file_check(path: &str) -> (r: Result<(), String>)
    ensures
        !path@.contains('.') ==> (r matches Err(m) && m@ == not_a_font_msg(path@)),
        (r is Ok || (r matches Err(m) && m@ == font_missing_msg(path@))) ==> exists|e: Seq<char>|
            !e.contains('.') && contains_seq(path@, seq!['.'] + e) && #[trigger] font_exts().contains(
                ascii_lowercase(e),
            ),
        r matches Err(m) ==> m@ == not_a_font_msg(path@) || m@ == font_missing_msg(path@),
{
    let ext = path_extension(path);
    let lower = match &ext {
        Some(e) => ascii_lowercase_exec(&chars_of(e.as_str())),
        None => Vec::new(),
    };
    let list = vec![vec!['t', 't', 'f'], vec!['o', 't', 'f'], vec!['w', 'o', 'f', 'f'], vec!['w', 'o', 'f', 'f', '2']];
    proof {
        let l = list@.map_values(|x: Vec<char>| x@);
        assert(list@[0]@ =~= font_exts()[0]);
        assert(list@[1]@ =~= font_exts()[1]);
        assert(list@[2]@ =~= font_exts()[2]);
        assert(list@[3]@ =~= font_exts()[3]);
        assert(forall|i: int| 0 <= i < list@.len() ==> (#[trigger] list@[i])@ == font_exts()[i]);
        if path@.contains('.') == false {
            if ext is Some {
                let e = ext->0;
                let k = choose|k: int| occurs_at(path@, seq!['.'] + e@, k);
                assert(path@[k] == (seq!['.'] + e@)[0]);
            }
        }
    }
    let is_font = one_of(&lower, &list);
    proof {
        reveal_strlit("not a font file: ");
        reveal_strlit("font file not found: ");
    }
    if !is_font {
        proof {
            if ext is None {
                assert(lower@.len() == 0);
                assert forall|i: int| 0 <= i < list@.len() implies (#[trigger] list@[i])@ != lower@ by {
                    assert(list@[i]@.len() > 0);
                }
            }
        }
        let mut m = chars_of("not a font file: ");
        append_chars(&mut m, &chars_of(path));
        assert(m@ =~= not_a_font_msg(path@));
        assert(m@[0] != font_missing_msg(path@)[0]);
        return Err(string_of(&m));
    }
    proof {
        let i = choose|i: int| 0 <= i < list@.len() && (#[trigger] list@[i])@ == lower@;
        if ext is Some {
            let e = ext->0;
            assert(font_exts()[i] == ascii_lowercase(e@));
            assert(font_exts().contains(ascii_lowercase(e@)));
        } else {
            assert(list@[i]@.len() > 0);
        }
    }
    if !path_is_file(path) {
        let mut m = chars_of("font file not found: ");
        append_chars(&mut m, &chars_of(path));
        assert(m@ =~= font_missing_msg(path@));
        return Err(string_of(&m));
    }
    Ok(())
}

// ---------------------------------------------------------------------------------------------
// Forgetting files that are gone
// ---------------------------------------------------------------------------------------------

/// Whether any track in `m` belongs to album `key`.
pub open spec fn album_has_tracks(m: Map<Seq<char>, crate::db::LocalTrack>, key: Seq<char>) -> bool {
    exists|p: Seq<char>| #[trigger] m.contains_key(p) && m[p].album_key@ == key
}

/// The ids the UI may still show once `path` is forgotten: its song, and its album when that
/// was the album's last track.
pub open spec fn forget_spec(m: Map<Seq<char>, crate::db::LocalTrack>, path: Seq<char>) -> Seq<Seq<char>> {
    let song = seq![song_prefix() + path];
    if m.contains_key(path) && !album_has_tracks(m.remove(path), m[path].album_key@) {
        song.push(album_prefix() + m[path].album_key@)
    } else {
        song
    }
}

/// Forgets one file the moment it turns out to be gone. Returns the song's id, plus its
/// album's when that was the last track left in it.
pub fn forget_missing(db: &mut crate::db::Db, path: &str) -> (r: Vec<String>)
    requires
        old(db).wf(),
    ensures
        final(db).wf(),
        final(db)@ == (crate::db::DbV { local: old(db)@.local.remove(path@), ..old(db)@ }),
        strings_view(r@) == forget_spec(old(db)@.local, path@),
{
    let ghost m = db@.local;
    let key = db.local_album_key(path);
    let name = string_of(&chars_of(path));
    let gone = vec![name];
    assert(gone@.drop_last() =~= Seq::<String>::empty());
    assert(crate::db::delete_paths_spec(m, gone@.drop_last()) == m);
    assert(gone@.last()@ == path@);
    db.delete_local_tracks(&gone);
    assert(db@.local == m.remove(path@));
    let mut ids = vec![song_id(path)];
    assert(strings_view(ids@) =~= seq![song_prefix() + path@]);
    if let Some(k) = key {
        let rest = db.local_tracks(Some(k.as_str()));
        if rest.len() == 0 {
            proof {
                if album_has_tracks(m.remove(path@), k@) {
                    let p = choose|p: Seq<char>| #[trigger] m.remove(path@).contains_key(p)
                        && m.remove(path@)[p].album_key@ == k@;
                    assert(db@.local.contains_key(p) && crate::db::in_listing(db@.local[p], Some(k@)));
                }
            }
            let ghost before = ids@;
            ids.push(album_id_of(k.as_str()));
            assert(strings_view(ids@) =~= strings_view(before).push(album_prefix() + k@));
        } else {
            proof {
                assert(db@.local.contains_key(rest@[0].path@));
            }
        }
    }
    ids
}

/// Whether `p` is one of the texts in `v`.
pub open spec fn listed(v: Seq<String>, p: Seq<char>) -> bool {
    exists|j: int| 0 <= j < v.len() && (#[trigger] v[j])@ == p
}

/// The library after a rescan: the files that were found, as they are stored.
pub open spec fn kept_after_scan(m: Map<Seq<char>, crate::db::LocalTrack>, found: Seq<String>) -> Map<
    Seq<char>,
    crate::db::LocalTrack,
> {
    Map::new(|k: Seq<char>| m.contains_key(k) && listed(found, k), |k: Seq<char>| m[k])
}

/// The ids a rescan reports as gone: the songs of the stored files that were not found, and
/// the albums the library had before that no longer have a track.
pub open spec fn scan_removed(
    m: Map<Seq<char>, crate::db::LocalTrack>,
    found: Seq<String>,
    before: Seq<String>,
) -> Set<Seq<char>> {
    Set::new(
        |id: Seq<char>|
            (exists|p: Seq<char>| #[trigger] m.contains_key(p) && !listed(found, p) && id == song_prefix() + p)
                || (exists|k: Seq<char>| #[trigger] listed(before, k) && !album_has_tracks(
                kept_after_scan(m, found),
                k,
            ) && id == album_prefix() + k),
    )
}

fn is_listed(v: &Vec<String>, p: &String) -> (b: bool)
    ensures
        b == listed(v@, p@),
{
    let mut j: usize = 0;
    while j < v.len()
        invariant
            j <= v.len(),
            forall|k: int| 0 <= k < j ==> (#[trigger] v@[k])@ != p@,
        decreases v.len() - j,
    {
        if v[j] == *p {
            assert(v@[j as int]@ == p@);
            return true;
        }
        j += 1;
    }
    false
}

proof fn lemma_song_album_ids_differ(p: Seq<char>, k: Seq<char>)
    ensures
        song_prefix() + p != album_prefix() + k,
{
    assert((song_prefix() + p)[5] == ':');
    assert((album_prefix() + k)[5] == 'A');
}

proof fn lemma_no_dup_ordered(s: Seq<Seq<char>>)
    requires
        forall|a: int, b: int| 0 <= a < b < s.len() ==> s[a] != s[b],
    ensures
        s.no_duplicates(),
{
    assert forall|i: int, j: int| 0 <= i < s.len() && 0 <= j < s.len() && i != j implies s[i] != s[j] by {
        if i < j {
            assert(s[i] != s[j]);
        } else {
            assert(s[j] != s[i]);
        }
    }
}

fn unfound_paths(known: &Vec<(String, i64)>, found: &Vec<String>) -> (gone: Vec<String>)
    requires
        forall|a: int, b: int| 0 <= a < b < known.len() ==> (#[trigger] known@[a]).0@ != (#[trigger] known@[b]).0@,
    ensures
        forall|a: int| 0 <= a < gone.len() ==> !listed(found@, (#[trigger] gone@[a])@) && exists|c: int| 0 <= c < known.len() && gone@[a]@ == known@[c].0@,
        forall|c: int| 0 <= c < known.len() && !listed(found@, (#[trigger] known@[c]).0@) ==> exists|a: int| 0 <= a < gone.len() && gone@[a]@ == known@[c].0@,
        strings_view(gone@).no_duplicates(),
{
    let mut gone: Vec<String> = Vec::new();
    let ghost mut from: Seq<int> = Seq::empty();
    let mut i: usize = 0;
    while i < known.len()
        invariant
            i <= known.len(),
            forall|a: int, b: int| 0 <= a < b < known.len() ==> (#[trigger] known@[a]).0@ != (#[trigger] known@[b]).0@,
            from.len() == gone.len(),
            forall|a: int| 0 <= a < gone.len() ==> 0 <= #[trigger] from[a] < i,
            forall|a: int| 0 <= a < gone.len() ==> !listed(found@, (#[trigger] gone@[a])@) && gone@[a]@ == known@[from[a]].0@,
            forall|a: int, b: int| 0 <= a < b < gone.len() ==> #[trigger] from[a] < #[trigger] from[b],
            forall|c: int| 0 <= c < i && !listed(found@, (#[trigger] known@[c]).0@) ==> exists|a: int| 0 <= a < gone.len() && from[a] == c,
        decreases known.len() - i,
    {
        let p = &known[i].0;
        if !is_listed(found, p) {
            let ghost fb = from;
            gone.push(p.clone());
            proof {
                from = fb.push(i as int);
                assert forall|c: int| 0 <= c < i + 1 && !listed(found@, (#[trigger] known@[c]).0@) implies exists|a: int| 0 <= a < gone.len() && from[a] == c by {
                    if c < i {
                        let a = choose|a: int| 0 <= a < fb.len() && fb[a] == c;
                        assert(from[a] == c);
                    } else {
                        assert(from[fb.len() as int] == c);
                    }
                }
            }
        }
        i += 1;
    }
    proof {
        assert forall|a: int| 0 <= a < gone.len() implies !listed(found@, (#[trigger] gone@[a])@) && exists|c: int| 0 <= c < known.len() && gone@[a]@ == known@[c].0@ by {
            let c = from[a];
            assert(0 <= c < known.len() && gone@[a]@ == known@[c].0@);
        }
        assert forall|c: int| 0 <= c < known.len() && !listed(found@, (#[trigger] known@[c]).0@) implies exists|a: int| 0 <= a < gone.len() && gone@[a]@ == known@[c].0@ by {
            let a = choose|a: int| 0 <= a < gone.len() && from[a] == c;
            assert(gone@[a]@ == known@[c].0@);
        }
        assert forall|a: int, b: int| 0 <= a < b < gone.len() implies strings_view(gone@)[a] != strings_view(gone@)[b] by {
            assert(from[a] < from[b]);
            assert(known@[from[a]].0@ != known@[from[b]].0@);
        }
        lemma_no_dup_ordered(strings_view(gone@));
    }
    gone
}

/// `x` is the album id of one of the `keys` whose album has no track in `m`.
pub open spec fn is_emptied_album(x: Seq<char>, keys: Seq<String>, m: Map<Seq<char>, crate::db::LocalTrack>) -> bool {
    exists|c: int| 0 <= c < keys.len() && x == album_prefix() + (#[trigger] keys[c])@ && !album_has_tracks(m, keys[c]@)
}

/// `x` is listed in `r`.
pub open spec fn lists(r: Seq<String>, x: Seq<char>) -> bool {
    exists|a: int| 0 <= a < r.len() && (#[trigger] r[a])@ == x
}

/// `r` lists, once each, the album ids of the `keys` whose album has no track in `m`.
pub open spec fn emptied_ids(r: Seq<String>, keys: Seq<String>, m: Map<Seq<char>, crate::db::LocalTrack>) -> bool {
    &&& forall|a: int| 0 <= a < r.len() ==> is_emptied_album((#[trigger] r[a])@, keys, m)
    &&& forall|c: int| 0 <= c < keys.len() && !album_has_tracks(m, (#[trigger] keys[c])@) ==> lists(r, album_prefix() + keys[c]@)
    &&& strings_view(r).no_duplicates()
}

/// The album ids of `keys` whose album has no track left in the library.
fn emptied_album_ids(db: &crate::db::Db, keys: &Vec<String>) -> (r: Vec<String>)
    requires
        db.wf(),
        strings_view(keys@).no_duplicates(),
    ensures
        emptied_ids(r@, keys@, db@.local),
{
    let mut ids: Vec<String> = Vec::new();
    let ghost mut picked: Seq<int> = Seq::empty();
    let mut b: usize = 0;
    while b < keys.len()
        invariant
            b <= keys.len(),
            db.wf(),
            strings_view(keys@).no_duplicates(),
            ids.len() == picked.len(),
            forall|a: int| 0 <= a < picked.len() ==> 0 <= #[trigger] picked[a] < b,
            forall|a: int| 0 <= a < picked.len() ==> (#[trigger] ids@[a])@ == album_prefix() + keys@[picked[a]]@
                && !album_has_tracks(db@.local, keys@[picked[a]]@),
            forall|a: int, c: int| 0 <= a < c < picked.len() ==> #[trigger] picked[a] < #[trigger] picked[c],
            forall|c: int| 0 <= c < b && !album_has_tracks(db@.local, (#[trigger] keys@[c])@) ==> exists|a: int| 0 <= a < picked.len() && picked[a] == c,
        decreases keys.len() - b,
    {
        let rest = db.local_tracks(Some(keys[b].as_str()));
        if rest.len() == 0 {
            proof {
                if album_has_tracks(db@.local, keys@[b as int]@) {
                    let p = choose|p: Seq<char>| #[trigger] db@.local.contains_key(p) && db@.local[p].album_key@ == keys@[b as int]@;
                    assert(crate::db::in_listing(db@.local[p], Some(keys@[b as int]@)));
                }
            }
            let ghost pk = picked;
            ids.push(album_id_of(keys[b].as_str()));
            proof {
                picked = pk.push(b as int);
                assert forall|a: int| 0 <= a < picked.len() implies (#[trigger] ids@[a])@ == album_prefix() + keys@[picked[a]]@
                    && !album_has_tracks(db@.local, keys@[picked[a]]@) by {
                    if a < pk.len() {
                        assert(picked[a] == pk[a]);
                    }
                }
                assert forall|c: int| 0 <= c < b + 1 && !album_has_tracks(db@.local, (#[trigger] keys@[c])@) implies exists|a: int| 0 <= a < picked.len() && picked[a] == c by {
                    if c < b {
                        let a = choose|a: int| 0 <= a < pk.len() && pk[a] == c;
                        assert(picked[a] == c);
                    } else {
                        assert(picked[pk.len() as int] == c);
                    }
                }
            }
        } else {
            proof {
                assert(db@.local.contains_key(rest@[0].path@));
            }
        }
        b += 1;
    }
    proof {
        assert forall|a: int, c: int| 0 <= a < c < ids.len() implies strings_view(ids@)[a] != strings_view(ids@)[c] by {
            let pa = picked[a];
            let pc = picked[c];
            assert(strings_view(keys@)[pa] != strings_view(keys@)[pc]);
            if ids@[a]@ == ids@[c]@ {
                assert((album_prefix() + keys@[pa]@).skip(11) =~= keys@[pa]@);
                assert((album_prefix() + keys@[pc]@).skip(11) =~= keys@[pc]@);
            }
        }
        assert forall|a: int| 0 <= a < ids.len() implies is_emptied_album((#[trigger] ids@[a])@, keys@, db@.local) by {
            let c = picked[a];
            assert(0 <= c < keys.len() && ids@[a]@ == album_prefix() + keys@[c]@ && !album_has_tracks(db@.local, keys@[c]@));
        }
        assert forall|c: int| 0 <= c < keys.len() && !album_has_tracks(db@.local, (#[trigger] keys@[c])@) implies lists(ids@, album_prefix() + keys@[c]@) by {
            let a = choose|a: int| 0 <= a < picked.len() && picked[a] == c;
            assert(ids@[a]@ == album_prefix() + keys@[c]@);
        }
        lemma_no_dup_ordered(strings_view(ids@));
        assert(emptied_ids(ids@, keys@, db@.local));
    }
    ids
}

proof fn lemma_scan_ids(
    m: Map<Seq<char>, crate::db::LocalTrack>,
    found: Seq<String>,
    before: Seq<String>,
    known: Seq<(String, i64)>,
    gone: Seq<String>,
    songs: Seq<String>,
    albums: Seq<String>,
)
    requires
        forall|k: Seq<char>| #[trigger] m.contains_key(k) ==> exists|c: int| 0 <= c < known.len() && known[c].0@ == k,
        forall|a: int| 0 <= a < gone.len() ==> !listed(found, (#[trigger] gone[a])@) && exists|c: int| 0 <= c < known.len() && gone[a]@ == known[c].0@,
        forall|a: int| 0 <= a < known.len() ==> m.contains_key((#[trigger] known[a]).0@),
        forall|c: int| 0 <= c < known.len() && !listed(found, (#[trigger] known[c]).0@) ==> exists|a: int| 0 <= a < gone.len() && gone[a]@ == known[c].0@,
        strings_view(gone).no_duplicates(),
        songs.len() == gone.len(),
        forall|a: int| 0 <= a < songs.len() ==> (#[trigger] songs[a])@ == song_prefix() + gone[a]@,
        emptied_ids(albums, before, kept_after_scan(m, found)),
    ensures
        strings_view(songs + albums).to_set() == scan_removed(m, found, before),
        strings_view(songs + albums).no_duplicates(),
{
    let ids = songs + albums;
    let sv = strings_view(ids);
    let after = kept_after_scan(m, found);
    let want = scan_removed(m, found, before);
    let ns = songs.len() as int;
    assert forall|x: Seq<char>| sv.to_set().contains(x) <==> want.contains(x) by {
        if sv.to_set().contains(x) {
            let t = choose|t: int| 0 <= t < sv.len() && sv[t] == x;
            if t < ns {
                assert(ids[t] == songs[t]);
                let c = choose|c: int| 0 <= c < known.len() && gone[t]@ == known[c].0@;
                assert(m.contains_key(known[c].0@));
                assert(x == song_prefix() + gone[t]@);
            } else {
                assert(ids[t] == albums[t - ns]);
                assert(is_emptied_album(albums[t - ns]@, before, after));
                let c = choose|c: int| 0 <= c < before.len() && albums[t - ns]@ == album_prefix() + (#[trigger] before[c])@ && !album_has_tracks(after, before[c]@);
                assert(listed(before, before[c]@));
            }
        }
        if want.contains(x) {
            if exists|p: Seq<char>| #[trigger] m.contains_key(p) && !listed(found, p) && x == song_prefix() + p {
                let p = choose|p: Seq<char>| #[trigger] m.contains_key(p) && !listed(found, p) && x == song_prefix() + p;
                let c = choose|c: int| 0 <= c < known.len() && known[c].0@ == p;
                let a = choose|a: int| 0 <= a < gone.len() && gone[a]@ == known[c].0@;
                assert(ids[a] == songs[a]);
                assert(sv[a] == x);
            } else {
                let kk = choose|kk: Seq<char>| #[trigger] listed(before, kk) && !album_has_tracks(after, kk) && x == album_prefix() + kk;
                let c = choose|c: int| 0 <= c < before.len() && (#[trigger] before[c])@ == kk;
                assert(lists(albums, album_prefix() + before[c]@));
                let a = choose|a: int| 0 <= a < albums.len() && (#[trigger] albums[a])@ == album_prefix() + before[c]@;
                assert(ids[ns + a] == albums[a]);
                assert(sv[ns + a] == x);
            }
        }
    }
    assert(sv.to_set() =~= want);
    assert forall|a: int, c: int| 0 <= a < c < sv.len() implies sv[a] != sv[c] by {
        if c < ns {
            assert(ids[a] == songs[a] && ids[c] == songs[c]);
            assert(strings_view(gone)[a] != strings_view(gone)[c]);
            if sv[a] == sv[c] {
                assert((song_prefix() + gone[a]@).skip(6) =~= gone[a]@);
                assert((song_prefix() + gone[c]@).skip(6) =~= gone[c]@);
            }
        } else if a < ns {
            assert(ids[a] == songs[a] && ids[c] == albums[c - ns]);
            assert(is_emptied_album(albums[c - ns]@, before, after));
            let cc = choose|cc: int| 0 <= cc < before.len() && albums[c - ns]@ == album_prefix() + (#[trigger] before[cc])@ && !album_has_tracks(after, before[cc]@);
            lemma_song_album_ids_differ(gone[a]@, before[cc]@);
        } else {
            assert(ids[a] == albums[a - ns] && ids[c] == albums[c - ns]);
            assert(strings_view(albums)[a - ns] != strings_view(albums)[c - ns]);
        }
    }
    lemma_no_dup_ordered(sv);
}

/// After a rescan's walk: forgets every stored file that was not `found`, and returns the ids
/// the UI may still be showing: the songs of those files, then the albums of `before` (the
/// library's album keys before the walk) that no longer have a track. No id is listed twice.
pub fn finish_scan(db: &mut crate::db::Db, before: &Vec<String>, found: &Vec<String>) -> (r: Vec<String>)
    requires
        old(db).wf(),
        strings_view(before@).no_duplicates(),
    ensures
        final(db).wf(),
        final(db)@ == (crate::db::DbV { local: kept_after_scan(old(db)@.local, found@), ..old(db)@ }),
        strings_view(r@).to_set() == scan_removed(old(db)@.local, found@, before@),
        strings_view(r@).no_duplicates(),
{
    let ghost m = db@.local;
    let known = db.local_mtimes();
    let gone = unfound_paths(&known, found);
    db.delete_local_tracks(&gone);
    proof {
        crate::db::lemma_delete_paths(m, gone@);
        assert(db@.local =~= kept_after_scan(m, found@)) by {
            assert forall|k: Seq<char>| #[trigger] db@.local.contains_key(k) <==> kept_after_scan(m, found@).contains_key(k) by {
                if m.contains_key(k) && !listed(found@, k) {
                    let c = choose|c: int| 0 <= c < known.len() && known@[c].0@ == k;
                    let a = choose|a: int| 0 <= a < gone.len() && gone@[a]@ == known@[c].0@;
                    assert(gone@[a]@ == k);
                }
                if m.contains_key(k) && listed(found@, k) {
                    assert forall|j: int| 0 <= j < gone.len() implies gone@[j]@ != k by {
                        assert(!listed(found@, gone@[j]@));
                    }
                }
            }
        }
    }
    let ghost after = db@.local;
    let mut ids: Vec<String> = Vec::new();
    let mut j: usize = 0;
    while j < gone.len()
        invariant
            j <= gone.len(),
            ids.len() == j,
            forall|a: int| 0 <= a < j ==> (#[trigger] ids@[a])@ == song_prefix() + gone@[a]@,
        decreases gone.len() - j,
    {
        ids.push(song_id(gone[j].as_str()));
        j += 1;
    }
    let albums = emptied_album_ids(db, before);
    let ghost songs = ids@;
    let mut k: usize = 0;
    while k < albums.len()
        invariant
            k <= albums.len(),
            ids@ == songs + albums@.take(k as int),
        decreases albums.len() - k,
    {
        ids.push(albums[k].clone());
        assert(albums@.take(k + 1) =~= albums@.take(k as int).push(albums@[k as int]));
        k += 1;
    }
    assert(albums@.take(albums.len() as int) =~= albums@);
    proof {
        lemma_scan_ids(m, found@, before@, known@, gone@, songs, albums@);
    }
    ids
}

/// Forgetting a file twice is harmless: the second time only its song id is reported and the
/// library does not change.
pub proof fn lemma_forget_twice(m: Map<Seq<char>, crate::db::LocalTrack>, path: Seq<char>)
    ensures
        forget_spec(m.remove(path), path) == seq![song_prefix() + path],
        m.remove(path).remove(path) == m.remove(path),
{
    assert(m.remove(path).remove(path) =~= m.remove(path));
}

/// A rescan that finds the same files again reports nothing: no stored file is missing, and
/// every album it is asked about (one that still has a track) keeps one.
pub proof fn lemma_rescan_reports_nothing(
    m: Map<Seq<char>, crate::db::LocalTrack>,
    found: Seq<String>,
    before: Seq<String>,
)
    requires
        forall|c: int| 0 <= c < before.len() ==> album_has_tracks(kept_after_scan(m, found), (#[trigger] before[c])@),
    ensures
        kept_after_scan(kept_after_scan(m, found), found) == kept_after_scan(m, found),
        scan_removed(kept_after_scan(m, found), found, before) == Set::<Seq<char>>::empty(),
{
    let k = kept_after_scan(m, found);
    assert(kept_after_scan(k, found) =~= k);
    assert forall|x: Seq<char>| !scan_removed(k, found, before).contains(x) by {
        if exists|kk: Seq<char>| #[trigger] listed(before, kk) && !album_has_tracks(kept_after_scan(k, found), kk) && x == album_prefix() + kk {
            let kk = choose|kk: Seq<char>| #[trigger] listed(before, kk) && !album_has_tracks(kept_after_scan(k, found), kk) && x == album_prefix() + kk;
            let c = choose|c: int| 0 <= c < before.len() && (#[trigger] before[c])@ == kk;
            assert(album_has_tracks(k, before[c]@));
        }
    }
    assert(scan_removed(k, found, before) =~= Set::<Seq<char>>::empty());
}

// ---------------------------------------------------------------------------------------------
// Songs and album pages
// ---------------------------------------------------------------------------------------------

/// A local file as a song row.
pub struct LocalSong {
    pub video_id: String,
    pub title: String,
    pub artists: String,
    pub album: Option<String>,
    pub album_id: Option<String>,
    pub duration: Option<String>,
    pub thumbnail: Option<String>,
}

/// A local file's song row: its synthetic id, its tags, its album's id, its length when the
/// tag reader knew it (`m:ss`), and its cover.
pub open spec fn song_ok(s: LocalSong, t: crate::db::LocalTrack) -> bool {
    &&& s.video_id@ == song_prefix() + t.path@
    &&& s.title@ == t.title@
    &&& s.artists@ == t.artist@
    &&& crate::lyrics::opt_string_view(s.album) == Some(t.album@)
    &&& crate::lyrics::opt_string_view(s.album_id) == Some(album_prefix() + t.album_key@)
    &&& crate::lyrics::opt_string_view(s.duration) == if t.duration_secs > 0 {
        Some(fmt_duration_spec(t.duration_secs as int))
    } else {
        None
    }
    &&& crate::lyrics::opt_string_view(s.thumbnail) == crate::lyrics::opt_string_view(t.cover)
}

pub fn to_song(t: &crate::db::LocalTrack) -> (s: LocalSong)
    ensures
        song_ok(s, *t),
{
    LocalSong {
        video_id: song_id(t.path.as_str()),
        title: t.title.clone(),
        artists: t.artist.clone(),
        album: Some(t.album.clone()),
        album_id: Some(album_id_of(t.album_key.as_str())),
        duration: if t.duration_secs > 0 {
            Some(fmt_duration(t.duration_secs))
        } else {
            None
        },
        thumbnail: crate::lyrics::clone_opt_string(&t.cover),
    }
}

/// A local album's page.
pub struct LocalAlbumPage {
    pub title: Option<String>,
    pub artist: Option<String>,
    pub subtitle: String,
    pub second_subtitle: String,
    pub thumbnail: Option<String>,
    pub items: Vec<LocalSong>,
}

/// The tracks' total length in seconds (wrapping, as a release build adds).
pub open spec fn total_secs(ts: Seq<crate::db::LocalTrack>) -> i64
    decreases ts.len(),
{
    if ts.len() == 0 {
        0
    } else {
        total_secs(ts.drop_last()).wrapping_add(ts.last().duration_secs)
    }
}

/// `n song(s) • total`.
pub open spec fn songs_line(n: nat, total: i64) -> Seq<char> {
    dec_digits(n) + seq![' ', 's', 'o', 'n', 'g'] + (if n == 1 {
        Seq::<char>::empty()
    } else {
        seq!['s']
    }) + seq![' ', '\u{2022}', ' '] + fmt_duration_spec(total as int)
}

/// The page of an album whose tracks, in album order, are `ts`: titled by the first track's
/// album and artist, "On this device", the song count and total length, the first track's
/// cover, and one song row per track.
pub open spec fn album_page_ok(p: LocalAlbumPage, ts: Seq<crate::db::LocalTrack>) -> bool {
    &&& crate::lyrics::opt_string_view(p.title) == if ts.len() > 0 { Some(ts[0].album@) } else { None }
    &&& crate::lyrics::opt_string_view(p.artist) == if ts.len() > 0 { Some(ts[0].artist@) } else { None }
    &&& p.subtitle@ == "On this device"@
    &&& p.second_subtitle@ == songs_line(ts.len(), total_secs(ts))
    &&& crate::lyrics::opt_string_view(p.thumbnail) == if ts.len() > 0 {
        crate::lyrics::opt_string_view(ts[0].cover)
    } else {
        None
    }
    &&& p.items.len() == ts.len()
    &&& forall|i: int| 0 <= i < ts.len() ==> song_ok(#[trigger] p.items@[i], ts[i])
}

/// The page of a local album: its tracks as the library lists them (see `album_page_ok`).
pub fn album_page(db: &crate::db::Db, album_key: &str) -> (p: LocalAlbumPage)
    requires
        db.wf(),
    ensures
        exists|ts: Seq<crate::db::LocalTrack>|
            crate::db::is_listing(db@.local, Some(album_key@), ts) && #[trigger] album_page_ok(p, ts),
{
    let tracks = db.local_tracks(Some(album_key));
    let ghost ts = tracks@;
    let mut total: i64 = 0;
    let mut items: Vec<LocalSong> = Vec::new();
    let mut i: usize = 0;
    while i < tracks.len()
        invariant
            i <= tracks.len(),
            ts == tracks@,
            total == total_secs(ts.take(i as int)),
            items.len() == i,
            forall|k: int| 0 <= k < i ==> song_ok(#[trigger] items@[k], ts[k]),
        decreases tracks.len() - i,
    {
        proof {
            assert(ts.take(i + 1).drop_last() =~= ts.take(i as int));
            assert(ts.take(i + 1).last() == ts[i as int]);
        }
        total = total.wrapping_add(tracks[i].duration_secs);
        items.push(to_song(&tracks[i]));
        i += 1;
    }
    assert(ts.take(tracks.len() as int) =~= ts);
    let n = tracks.len();
    let mut line = dec_digits_exec(n as u64);
    proof {
        assert(n as u64 as nat == n as nat);
    }
    line.push(' ');
    line.push('s');
    line.push('o');
    line.push('n');
    line.push('g');
    if n != 1 {
        line.push('s');
    }
    line.push(' ');
    line.push('\u{2022}');
    line.push(' ');
    let d = fmt_duration(total);
    append_chars(&mut line, &chars_of(d.as_str()));
    proof {
        if n != 1 {
            assert(line@ =~= songs_line(n as nat, total));
        } else {
            assert(line@ =~= songs_line(n as nat, total));
        }
    }
    let (title, artist, thumbnail) = if n > 0 {
        (Some(tracks[0].album.clone()), Some(tracks[0].artist.clone()), crate::lyrics::clone_opt_string(&tracks[0].cover))
    } else {
        (None, None, None)
    };
    let p = LocalAlbumPage {
        title,
        artist,
        subtitle: "On this device".to_string(),
        second_subtitle: string_of(&line),
        thumbnail,
        items,
    };
    assert(album_page_ok(p, ts));
    p
}

} // verus!
