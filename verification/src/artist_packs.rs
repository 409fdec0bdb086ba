//! Artist packs: the index and pack records, where a pack lives on disk, which files of a pack
//! archive matter, and the record an install produces.
use vstd::prelude::*;

use crate::text::{chars_of, ends_with, ends_with_exec, is_ascii_alnum, starts_with, starts_with_exec, string_of};

verus! {

/// One pack as the remote index lists it.
pub struct ArtistPackIndexEntry {
    pub id: String,
    pub name: String,
    pub version: String,
    pub description: Option<String>,
    pub artist_ids: Vec<String>,
    pub aliases: Vec<String>,
    /// ZIP URL.
    pub url: String,
    pub thumbnail: Option<String>,
}

/// The remote index of packs.
pub struct ArtistPackIndex {
    pub packs: Vec<ArtistPackIndexEntry>,
}

/// The `artist.json` inside a pack archive.
pub struct ArtistJson {
    pub id: String,
    pub name: String,
    pub version: String,
    pub layout: Option<String>,
    pub aliases: Vec<String>,
    pub artist_ids: Vec<String>,
    pub description: Option<String>,
}

/// An installed pack.
pub struct ArtistPack {
    pub id: String,
    pub name: String,
    pub version: String,
    pub description: Option<String>,
    pub artist_ids: Vec<String>,
    pub aliases: Vec<String>,
    pub layout: Option<String>,
    pub style_css: Option<String>,
    pub installed_at: i64,
    pub thumbnail: Option<String>,
}

/// An installed pack as values.
pub struct PackV {
    pub id: Seq<char>,
    pub name: Seq<char>,
    pub version: Seq<char>,
    pub description: Option<Seq<char>>,
    pub artist_ids: Seq<Seq<char>>,
    pub aliases: Seq<Seq<char>>,
    pub layout: Option<Seq<char>>,
    pub style_css: Option<Seq<char>>,
    pub installed_at: i64,
    pub thumbnail: Option<Seq<char>>,
}

impl View for ArtistPack {
    type V = PackV;

    open spec fn view(&self) -> PackV {
        PackV {
            id: self.id@,
            name: self.name@,
            version: self.version@,
            description: crate::lyrics::opt_string_view(self.description),
            artist_ids: strings_view(self.artist_ids@),
            aliases: strings_view(self.aliases@),
            layout: crate::lyrics::opt_string_view(self.layout),
            style_css: crate::lyrics::opt_string_view(self.style_css),
            installed_at: self.installed_at,
            thumbnail: crate::lyrics::opt_string_view(self.thumbnail),
        }
    }
}

/// A copy of an installed pack.
pub fn copy_pack(p: &ArtistPack) -> (c: ArtistPack)
    ensures
        c@ == p@,
{
    ArtistPack {
        id: p.id.clone(),
        name: p.name.clone(),
        version: p.version.clone(),
        description: crate::lyrics::clone_opt_string(&p.description),
        artist_ids: clone_strings(&p.artist_ids),
        aliases: clone_strings(&p.aliases),
        layout: crate::lyrics::clone_opt_string(&p.layout),
        style_css: crate::lyrics::clone_opt_string(&p.style_css),
        installed_at: p.installed_at,
        thumbnail: crate::lyrics::clone_opt_string(&p.thumbnail),
    }
}

/// A path separator on some platform: `/` everywhere, `\\` on Windows.
pub open spec fn is_sep(c: char) -> bool {
    c == '/' || c == '\\'
}

/// A base that `join` extends with exactly one separator and the part, unchanged, on every
/// platform: not empty, not ending in a separator, holding no `:` (so no Windows drive prefix)
/// and not starting with two separators (so no Windows verbatim, device or UNC prefix, whose
/// joins are normalized).
pub open spec fn plain_base(base: Seq<char>) -> bool {
    &&& base.len() > 0
    &&& !is_sep(base.last())
    &&& !base.contains(':')
    &&& !(base.len() >= 2 && is_sep(base[0]) && is_sep(base[1]))
}

/// A relative path to push: no `:` (so no drive prefix) and not starting with a separator (so
/// no root).
pub open spec fn relative_part(part: Seq<char>) -> bool {
    &&& !part.contains(':')
    &&& !(part.len() > 0 && is_sep(part[0]))
}

/// `r` is `base`, one separator (`/` or `\\`, the platform's), then `part`.
pub open spec fn sep_joined(base: Seq<char>, part: Seq<char>, r: Seq<char>) -> bool {
    r == base + seq!['/'] + part || r == base + seq!['\\'] + part
}

/// Joins a part onto a path.
///
/// Trusted: wraps `std::path::Path::join` (with a lossless round trip through
/// `to_string_lossy`, as both sides are UTF-8 strings). std documents `join` as pushing the part
/// onto the base: a part with no prefix and no root is appended after the platform's separator
/// unless the base is empty, ends in a separator, or is a bare drive prefix; on Windows a base
/// with a verbatim prefix has the result normalized. So for a `plain_base` and a
/// `relative_part` the result is the base, one separator and the part. What other inputs give
/// depends on the platform (which separator, which prefixes), so nothing is stated of them, and
/// the result is not named: the separator differs between platforms.
#[verifier::external_body]
pub(crate) fn join_path(base: &str, part: &str) -> (r: String)
    ensures
        plain_base(base@) && relative_part(part@) ==> sep_joined(base@, part@, r@),
{
    std::path::Path::new(base).join(part).to_string_lossy().into_owned()
}

pub open spec fn keep_in_dir_name(c: char) -> bool {
    is_ascii_alnum(c) || c == '-' || c == '_'
}

pub open spec fn packs_dir_name() -> Seq<char> {
    seq!['a', 'r', 't', 'i', 's', 't', '_', 'p', 'a', 'c', 'k', 's']
}

proof fn lemma_filter_push(s: Seq<char>, x: char, pred: spec_fn(char) -> bool)
    ensures
        s.push(x).filter(pred) == (if pred(x) {
            s.filter(pred).push(x)
        } else {
            s.filter(pred)
        }),
{
    reveal(Seq::filter);
    assert(s.push(x).drop_last() =~= s);
}

/// A pack id reduced to a safe directory name: only ASCII letters, digits, `-` and `_` stay.
pub fn pack_dir_name(id: &str) -> (r: String)
    ensures
        r@ == id@.filter(|c: char| keep_in_dir_name(c)),
{
    let v = chars_of(id);
    let ghost pred = |c: char| keep_in_dir_name(c);
    let mut out: Vec<char> = Vec::new();
    let mut i: usize = 0;
    while i < v.len()
        invariant
            i <= v.len(),
            pred == (|c: char| keep_in_dir_name(c)),
            out@ == v@.take(i as int).filter(pred),
        decreases v.len() - i,
    {
        let c = v[i];
        proof {
            assert(v@.take(i + 1) =~= v@.take(i as int).push(c));
            lemma_filter_push(v@.take(i as int), c, pred);
        }
        if ('a' <= c && c <= 'z') || ('A' <= c && c <= 'Z') || ('0' <= c && c <= '9') || c == '-'
            || c == '_' {
            out.push(c);
        }
        i += 1;
    }
    assert(v@.take(v.len() as int) =~= v@);
    string_of(&out)
}

/// A pack id reduced to the characters a directory name keeps.
pub open spec fn safe_dir_name(id: Seq<char>) -> Seq<char> {
    id.filter(|c: char| keep_in_dir_name(c))
}

proof fn lemma_dir_name_relative(s: Seq<char>)
    requires
        forall|i: int| 0 <= i < s.len() ==> keep_in_dir_name(#[trigger] s[i]),
    ensures
        relative_part(s),
{
    if s.contains(':') {
        let i = choose|i: int| 0 <= i < s.len() && s[i] == ':';
        assert(keep_in_dir_name(s[i]));
    }
    if s.len() > 0 {
        assert(keep_in_dir_name(s[0]));
    }
}

/// Where a pack's files live: `<data_dir>/artist_packs/<safe id>`, joined as `Path::join`
/// joins. Below a `plain_base` data directory it is exactly the directory, a separator,
/// `artist_packs`, a separator, then the safe id (what other directories give depends on the
/// platform).
pub fn packs_dir_for(data_dir: &str, id: &str) -> (r: String)
    ensures
        plain_base(data_dir@) ==> exists|mid: Seq<char>|
            sep_joined(data_dir@, packs_dir_name(), mid) && #[trigger] sep_joined(mid, safe_dir_name(id@), r@),
{
    let name = vec!['a', 'r', 't', 'i', 's', 't', '_', 'p', 'a', 'c', 'k', 's'];
    assert(name@ =~= packs_dir_name());
    let n = string_of(&name);
    assert forall|i: int| 0 <= i < n@.len() implies keep_in_dir_name(#[trigger] n@[i]) by {
    }
    proof {
        lemma_dir_name_relative(n@);
    }
    let base = join_path(data_dir, n.as_str());
    let safe = pack_dir_name(id);
    proof {
        let pred = |c: char| keep_in_dir_name(c);
        assert forall|i: int| 0 <= i < safe@.len() implies keep_in_dir_name(#[trigger] safe@[i]) by {
            id@.lemma_filter_pred(pred, i);
        }
        lemma_dir_name_relative(safe@);
    }
    let r = join_path(base.as_str(), safe.as_str());
    proof {
        if plain_base(data_dir@) {
            let d = data_dir@;
            let b = base@;
            assert(sep_joined(d, packs_dir_name(), b));
            assert(!b.contains(':')) by {
                if b.contains(':') {
                    let i = choose|i: int| 0 <= i < b.len() && b[i] == ':';
                    if i < d.len() {
                        assert(b[i] == d[i]);
                        assert(d.contains(':'));
                    } else if i > d.len() {
                        assert(b[i] == packs_dir_name()[i - d.len() - 1]);
                    }
                }
            }
            assert(b.len() == d.len() + 1 + 12);
            assert(b.last() == 's');
            assert(b[0] == d[0]);
            if d.len() >= 2 {
                assert(b[1] == d[1]);
            } else {
                assert(!is_sep(d[0]));
            }
            assert(plain_base(b));
            assert(sep_joined(d, packs_dir_name(), b));
            assert(sep_joined(b, safe_dir_name(id@), r@));
        }
    }
    r
}

/// A `..` component of an entry name starts at `i`.
pub open spec fn parent_step_at(n: Seq<char>, i: int) -> bool {
    &&& 0 <= i
    &&& i + 2 <= n.len()
    &&& n[i] == '.'
    &&& n[i + 1] == '.'
    &&& (i == 0 || is_sep(n[i - 1]))
    &&& (i + 2 == n.len() || is_sep(n[i + 2]))
}

/// An archive entry name that stays inside the pack directory: not empty, not absolute (no
/// leading separator), no drive or other prefix (no `:`), and no `..` component.
pub open spec fn safe_entry_name(n: Seq<char>) -> bool {
    &&& n.len() > 0
    &&& !is_sep(n[0])
    &&& !n.contains(':')
    &&& !exists|i: int| #[trigger] parent_step_at(n, i)
}

/// Where an archive entry is written inside a pack's directory (the guard against archive
/// entries that climb out of it): `None` for an entry name that is not `safe_entry_name`,
/// else the directory joined with the name (for a `plain_base` directory: the directory, a
/// separator, then the name).
pub fn pack_entry_target(pack_dir: &str, name: &str) -> (r: Option<String>)
    ensures
        r is Some == safe_entry_name(name@),
        r matches Some(t) ==> (plain_base(pack_dir@) ==> sep_joined(pack_dir@, name@, t@)),
{
    let v = chars_of(name);
    if v.len() == 0 || v[0] == '/' || v[0] == '\\' {
        return None;
    }
    let n = v.len();
    let mut i: usize = 0;
    while i < n
        invariant
            n == v.len(),
            v@ == name@,
            i <= n,
            forall|j: int| 0 <= j < i ==> v@[j] != ':' && !parent_step_at(v@, j),
        decreases n - i,
    {
        if v[i] == ':' {
            assert(name@.contains(':'));
            return None;
        }
        if n - i >= 2 && v[i] == '.' && v[i + 1] == '.' && (i == 0 || v[i - 1] == '/' || v[i - 1] == '\\')
            && (n - i == 2 || v[i + 2] == '/' || v[i + 2] == '\\') {
            assert(parent_step_at(name@, i as int));
            return None;
        }
        i += 1;
    }
    proof {
        assert(!name@.contains(':'));
        assert(!exists|k: int| #[trigger] parent_step_at(name@, k)) by {
            if exists|k: int| #[trigger] parent_step_at(name@, k) {
                let k = choose|k: int| #[trigger] parent_step_at(name@, k);
                assert(!parent_step_at(v@, k));
            }
        }
        assert(relative_part(name@));
    }
    Some(join_path(pack_dir, name))
}

pub open spec fn https_prefix() -> Seq<char> {
    seq!['h', 't', 't', 'p', 's', ':', '/', '/']
}

pub open spec fn http_prefix() -> Seq<char> {
    seq!['h', 't', 't', 'p', ':', '/', '/']
}

/// Packs install only from `https://` or `http://` URLs.
pub fn is_pack_url(url: &str) -> (b: bool)
    ensures
        b == (starts_with(url@, https_prefix()) || starts_with(url@, http_prefix())),
{
    let v = chars_of(url);
    let a = vec!['h', 't', 't', 'p', 's', ':', '/', '/'];
    let b = vec!['h', 't', 't', 'p', ':', '/', '/'];
    assert(a@ =~= https_prefix());
    assert(b@ =~= http_prefix());
    starts_with_exec(&v, &a) || starts_with_exec(&v, &b)
}

/// The files of a pack archive that the install reads.
pub enum PackFile {
    ArtistJson,
    StyleCss,
    Other,
}

pub open spec fn artist_json_name() -> Seq<char> {
    seq!['a', 'r', 't', 'i', 's', 't', '.', 'j', 's', 'o', 'n']
}

pub open spec fn style_css_name() -> Seq<char> {
    seq!['s', 't', 'y', 'l', 'e', '.', 'c', 's', 's']
}

/// An archive entry is the pack's `artist.json` or `style.css` by how its name ends (checked in
/// that order); anything else is only extracted.
pub fn pack_file_kind(name: &str) -> (k: PackFile)
    ensures
        k is ArtistJson <==> ends_with(name@, artist_json_name()),
        k is StyleCss <==> (!ends_with(name@, artist_json_name()) && ends_with(name@, style_css_name())),
{
    let v = chars_of(name);
    let a = vec!['a', 'r', 't', 'i', 's', 't', '.', 'j', 's', 'o', 'n'];
    let s = vec!['s', 't', 'y', 'l', 'e', '.', 'c', 's', 's'];
    assert(a@ =~= artist_json_name());
    assert(s@ =~= style_css_name());
    if ends_with_exec(&v, &a) {
        PackFile::ArtistJson
    } else if ends_with_exec(&v, &s) {
        PackFile::StyleCss
    } else {
        PackFile::Other
    }
}

pub open spec fn strings_view(v: Seq<String>) -> Seq<Seq<char>> {
    v.map_values(|s: String| s@)
}

fn clone_strings(v: &Vec<String>) -> (r: Vec<String>)
    ensures
        strings_view(r@) == strings_view(v@),
{
    let mut r: Vec<String> = Vec::new();
    let mut i: usize = 0;
    while i < v.len()
        invariant
            i <= v.len(),
            strings_view(r@) == strings_view(v@.take(i as int)),
        decreases v.len() - i,
    {
        let ghost prev = r@;
        r.push(v[i].clone());
        assert(strings_view(r@) =~= strings_view(prev).push(v@[i as int]@));
        assert(strings_view(v@.take(i + 1)) =~= strings_view(v@.take(i as int)).push(v@[i as int]@));
        i += 1;
    }
    assert(v@.take(v.len() as int) =~= v@);
    r
}

/// The installed record of a pack: everything `artist.json` says, the stylesheet, the install
/// time, and no thumbnail.
pub open spec fn pack_from_meta_ok(p: ArtistPack, meta: ArtistJson, style_css: Option<Seq<char>>, installed_at: i64) -> bool {
    &&& p.id@ == meta.id@
    &&& p.name@ == meta.name@
    &&& p.version@ == meta.version@
    &&& crate::lyrics::opt_string_view(p.description) == crate::lyrics::opt_string_view(meta.description)
    &&& strings_view(p.artist_ids@) == strings_view(meta.artist_ids@)
    &&& strings_view(p.aliases@) == strings_view(meta.aliases@)
    &&& crate::lyrics::opt_string_view(p.layout) == crate::lyrics::opt_string_view(meta.layout)
    &&& crate::lyrics::opt_string_view(p.style_css) == style_css
    &&& p.installed_at == installed_at
    &&& p.thumbnail is None
}

/// Builds the installed record (see `pack_from_meta_ok`).
pub fn pack_from_meta(meta: &ArtistJson, style_css: Option<String>, installed_at: i64) -> (p: ArtistPack)
    ensures
        pack_from_meta_ok(p, *meta, crate::lyrics::opt_string_view(style_css), installed_at),
{
    ArtistPack {
        id: meta.id.clone(),
        name: meta.name.clone(),
        version: meta.version.clone(),
        description: crate::lyrics::clone_opt_string(&meta.description),
        artist_ids: clone_strings(&meta.artist_ids),
        aliases: clone_strings(&meta.aliases),
        layout: crate::lyrics::clone_opt_string(&meta.layout),
        style_css,
        installed_at,
        thumbnail: None,
    }
}

// ---------------------------------------------------------------------------------------------
// Installed packs
// ---------------------------------------------------------------------------------------------

/// Installed packs, newest install first.
pub fn list_packs(db: &crate::db::Db) -> (r: Vec<ArtistPack>)
    requires
        db.wf(),
    ensures
        r.len() == db@.packs.dom().len(),
        forall|i: int| 0 <= i < r.len() ==> db@.packs.contains_key((#[trigger] r@[i]).id@)
            && db@.packs[r@[i].id@] == r@[i]@,
        forall|i: int, j: int| 0 <= i < j < r.len() ==> (#[trigger] r@[i]).id@ != (#[trigger] r@[j]).id@,
        forall|i: int, j: int| 0 <= i < j < r.len() ==> (#[trigger] r@[i]).installed_at >= (#[trigger] r@[j]).installed_at,
{
    db.all_packs()
}

/// One installed pack.
pub fn get_pack(db: &crate::db::Db, id: &str) -> (r: Option<ArtistPack>)
    requires
        db.wf(),
    ensures
        r is Some == db@.packs.contains_key(id@),
        r matches Some(p) ==> p@ == db@.packs[id@],
{
    db.pack(id)
}

/// Forgets an installed pack (its directory is removed by the caller).
pub fn remove_pack(db: &mut crate::db::Db, id: &str)
    requires
        old(db).wf(),
    ensures
        final(db).wf(),
        final(db)@ == (crate::db::DbV { packs: old(db)@.packs.remove(id@), ..old(db)@ }),
{
    db.delete_pack(id);
}

/// One entry of a pack archive as read: its name, its text when it is one of the two files the
/// install reads, and for an `artist.json` its parse, when it parsed.
pub struct PackEntry {
    pub name: String,
    pub text: String,
    pub artist: Option<ArtistJson>,
}

/// An `artist.json` entry that parsed.
pub open spec fn gives_meta(e: PackEntry) -> bool {
    ends_with(e.name@, artist_json_name()) && e.artist is Some
}

/// A `style.css` entry.
pub open spec fn gives_css(e: PackEntry) -> bool {
    !ends_with(e.name@, artist_json_name()) && ends_with(e.name@, style_css_name())
}

/// Index of the last entry among the first `n` that gives the metadata, or -1.
pub open spec fn last_meta(es: Seq<PackEntry>, n: int) -> int
    decreases n,
{
    if n <= 0 {
        -1
    } else if gives_meta(es[n - 1]) {
        n - 1
    } else {
        last_meta(es, n - 1)
    }
}

/// Index of the last entry among the first `n` that gives the stylesheet, or -1.
pub open spec fn last_css(es: Seq<PackEntry>, n: int) -> int
    decreases n,
{
    if n <= 0 {
        -1
    } else if gives_css(es[n - 1]) {
        n - 1
    } else {
        last_css(es, n - 1)
    }
}

proof fn lemma_last_bounds(es: Seq<PackEntry>, n: int)
    requires
        0 <= n <= es.len(),
    ensures
        -1 <= last_meta(es, n) < n,
        last_meta(es, n) >= 0 ==> gives_meta(es[last_meta(es, n)]),
        -1 <= last_css(es, n) < n,
        last_css(es, n) >= 0 ==> gives_css(es[last_css(es, n)]),
    decreases n,
{
    if n > 0 {
        lemma_last_bounds(es, n - 1);
    }
}

/// The message when an archive has no usable `artist.json`.
pub open spec fn missing_meta_msg() -> Seq<char> {
    "ZIP missing artist.json"@
}

/// What an install takes from the archive: the last `artist.json` that parsed (an error
/// without one) and the last `style.css`'s text, if any.
pub fn read_pack_entries(entries: Vec<PackEntry>) -> (r: Result<(ArtistJson, Option<String>), String>)
    ensures
        match r {
            Ok((meta, css)) => {
                let n = entries@.len() as int;
                &&& last_meta(entries@, n) >= 0
                &&& meta == entries@[last_meta(entries@, n)].artist->0
                &&& crate::lyrics::opt_string_view(css) == if last_css(entries@, n) >= 0 {
                    Some(entries@[last_css(entries@, n)].text@)
                } else {
                    None
                }
            },
            Err(e) => last_meta(entries@, entries@.len() as int) < 0 && e@ == missing_meta_msg(),
        },
{
    let ghost es = entries@;
    let ghost n = es.len() as int;
    let mut meta: Option<ArtistJson> = None;
    let mut css: Option<String> = None;
    let mut rest = entries;
    proof {
        assert(es.skip(0) =~= es);
    }
    while rest.len() > 0
        invariant
            n == es.len(),
            rest.len() <= n,
            rest@ == es.skip(n - rest.len()),
            match meta {
                Some(m) => last_meta(es, n - rest.len()) >= 0 && m == es[last_meta(es, n - rest.len())].artist->0,
                None => last_meta(es, n - rest.len()) < 0,
            },
            crate::lyrics::opt_string_view(css) == if last_css(es, n - rest.len()) >= 0 {
                Some(es[last_css(es, n - rest.len())].text@)
            } else {
                None
            },
        decreases rest.len(),
    {
        let ghost done = n - rest.len();
        let ghost before = rest@;
        let e = rest.remove(0);
        proof {
            assert(before[0] == e);
            assert(es[done] == es.skip(done)[0]);
            assert(rest@ =~= es.skip(done + 1));
            lemma_last_bounds(es, done + 1);
        }
        match pack_file_kind(e.name.as_str()) {
            PackFile::ArtistJson => {
                if let Some(m) = e.artist {
                    meta = Some(m);
                }
            },
            PackFile::StyleCss => {
                css = Some(e.text);
            },
            PackFile::Other => {},
        }
    }
    match meta {
        Some(m) => Ok((m, css)),
        None => {
            let msg = "ZIP missing artist.json".to_string();
            Err(msg)
        },
    }
}

/// Records a pack installed from its metadata and stylesheet at `installed_at`, replacing an
/// earlier install of the same pack; returns the record.
pub fn install_pack(db: &mut crate::db::Db, meta: &ArtistJson, style_css: Option<String>, installed_at: i64) -> (p: ArtistPack)
    requires
        old(db).wf(),
    ensures
        pack_from_meta_ok(p, *meta, crate::lyrics::opt_string_view(style_css), installed_at),
        final(db).wf(),
        final(db)@ == (crate::db::DbV { packs: old(db)@.packs.insert(meta.id@, p@), ..old(db)@ }),
{
    let p = pack_from_meta(meta, style_css, installed_at);
    let stored = copy_pack(&p);
    db.put_pack(stored);
    p
}

} // verus!
