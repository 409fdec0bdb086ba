//! The app's store: settings, the lyrics and stream caches, lyric offsets and votes, the play
//! diary, the downloads catalogue, the local library, artist packs and waveforms, each table with
//! its model and the operations on it; and the wall clock their timestamps come from.
use vstd::prelude::*;

use crate::albums::{lemma_text_lt_order, text_lt, text_lt_exec};
use crate::downloads::DownloadTrack;
use crate::lyrics::{opt_str_view, opt_string_view};
use crate::plays::{
    PlayRow, PlayV, copy_play, play_counts_of, play_counts_spec, plays_view, prune_plays,
    prune_spec, record_spec, recent_plays_of, recent_plays_spec, without_local_plays, without_local_spec, top_plays_of, top_plays_spec,
};
use crate::settings::{auth_identity_spec, clear_identity_spec, pending_selection_spec, SettingsStore};
use crate::table::Table;
use crate::text::{chars_of, string_of};

verus! {

/// Unix seconds now (0 if the clock reads before the epoch).
///
/// Trusted: wraps `std::time::SystemTime::now` and `duration_since(UNIX_EPOCH)`. The value depends
/// on the clock, so nothing is stated of it.
#[verifier::external_body]
pub fn now_secs() -> i64 {
    std::time::SystemTime::now()
        .duration_since(std::time::UNIX_EPOCH)
        .map(|d| d.as_secs() as i64)
        .unwrap_or(0)
}

/// One file in the local library. Tag data as read at scan time; `mtime` is the change detector.
pub struct LocalTrack {
    pub path: String,
    pub title: String,
    pub artist: String,
    pub album: String,
    /// Stable, human-readable album id fragment (`artist--album`, sanitized).
    pub album_key: String,
    pub track_no: i64,
    pub duration_secs: i64,
    /// Absolute path to the cover image (extracted or found next to the files).
    pub cover: Option<String>,
    pub mtime: i64,
}

/// A cached stream URL with its expiry. Never a source of truth, purely a latency cache. The
/// stream's loudness (`loudnessDb`, a float the player reads) is carried as its bit pattern.
pub struct CachedStream {
    pub url: String,
    pub itag: i64,
    pub expires_at: i64,
    pub loudness_bits: Option<u64>,
}

/// A cached stream as values.
pub struct StreamV {
    pub url: Seq<char>,
    pub itag: i64,
    pub expires_at: i64,
    pub loudness_bits: Option<u64>,
}

impl View for CachedStream {
    type V = StreamV;

    open spec fn view(&self) -> StreamV {
        StreamV { url: self.url@, itag: self.itag, expires_at: self.expires_at, loudness_bits: self.loudness_bits }
    }
}

pub open spec fn streams_map(m: Map<Seq<char>, CachedStream>) -> Map<Seq<char>, StreamV> {
    m.map_values(|c: CachedStream| c@)
}

/// The cache without the entries that have expired by `now`.
pub open spec fn fresh_streams(m: Map<Seq<char>, StreamV>, now: i64) -> Map<Seq<char>, StreamV> {
    Map::new(|k: Seq<char>| m.contains_key(k) && m[k].expires_at > now, |k: Seq<char>| m[k])
}

/// What a lookup of the stream cache serves: the entry while it expires after `now`.
pub open spec fn stream_lookup(m: Map<Seq<char>, StreamV>, video_id: Seq<char>, now: int) -> Option<StreamV> {
    if m.contains_key(video_id) && m[video_id].expires_at > now {
        Some(m[video_id])
    } else {
        None
    }
}

/// What a stream cache write gives back: the song's URL is served until it expires, and every
/// other song's lookup is untouched.
pub proof fn lemma_stream_read_after_write(
    m: Map<Seq<char>, StreamV>,
    video_id: Seq<char>,
    s: StreamV,
    now: int,
    other: Seq<char>,
)
    ensures
        stream_lookup(m.insert(video_id, s), video_id, now) == (if s.expires_at > now {
            Some(s)
        } else {
            None
        }),
        other != video_id ==> stream_lookup(m.insert(video_id, s), other, now) == stream_lookup(m, other, now),
{
}

/// Sweeping at `now` changes no lookup made then or later: it only drops what can no longer
/// be served.
pub proof fn lemma_sweep_keeps_lookups(m: Map<Seq<char>, StreamV>, now: i64, later: int, video_id: Seq<char>)
    requires
        now <= later,
    ensures
        stream_lookup(fresh_streams(m, now), video_id, later) == stream_lookup(m, video_id, later),
{
}

/// A copy of a catalogue row.
pub fn copy_download(d: &DownloadTrack) -> (c: DownloadTrack)
    ensures
        c == *d,
{
    DownloadTrack {
        video_id: d.video_id.clone(),
        file_path: d.file_path.clone(),
        title: d.title.clone(),
        artists: d.artists.clone(),
        album: match &d.album {
            Some(a) => Some(a.clone()),
            None => None,
        },
        duration: d.duration,
        thumb: match &d.thumb {
            Some(t) => Some(t.clone()),
            None => None,
        },
        quality: d.quality.clone(),
        format: d.format.clone(),
        size_bytes: d.size_bytes,
        added_at: d.added_at,
    }
}

/// The app's stored state, table by table.
pub struct DbV {
    /// The settings table.
    pub settings: Map<Seq<char>, Seq<char>>,
    /// Per-song lyric sync offset in ms; a song without a row has offset 0.
    pub offsets: Map<Seq<char>, i64>,
    /// Cached lyrics per song with the time they were fetched; `None` text is a cached miss.
    pub lyrics: Map<Seq<char>, (Option<Seq<char>>, i64)>,
    /// The play diary, oldest row first.
    pub plays: Seq<PlayV>,
    /// The offline catalogue by video id.
    pub downloads: Map<Seq<char>, DownloadTrack>,
    /// Cached stream URLs by video id.
    pub streams: Map<Seq<char>, StreamV>,
    /// Votes on lyric sources, by video id and then source (+1 up, -1 down).
    pub votes: Map<Seq<char>, Map<Seq<char>, i32>>,
    /// The local library by file path.
    pub local: Map<Seq<char>, LocalTrack>,
    /// Installed artist packs by id.
    pub packs: Map<Seq<char>, crate::artist_packs::PackV>,
    /// Computed waveform peaks per song with the bar count they were computed at.
    pub waveforms: Map<Seq<char>, (Seq<u8>, i64)>,
}

/// The app's tables.
pub struct Db {
    settings: SettingsStore,
    offsets: Table<i64>,
    lyrics: Table<(Option<String>, i64)>,
    plays: Vec<PlayRow>,
    downloads: Table<DownloadTrack>,
    votes: Table<Table<i32>>,
    waveforms: Table<(Vec<u8>, i64, i64)>,
    local: Table<LocalTrack>,
    packs: Table<crate::artist_packs::ArtistPack>,
    streams: Table<CachedStream>,
}

pub open spec fn packs_map(m: Map<Seq<char>, crate::artist_packs::ArtistPack>) -> Map<Seq<char>, crate::artist_packs::PackV> {
    m.map_values(|p: crate::artist_packs::ArtistPack| p@)
}

/// A copy of a local track.
pub fn copy_local_track(t: &LocalTrack) -> (c: LocalTrack)
    ensures
        c == *t,
{
    LocalTrack {
        path: t.path.clone(),
        title: t.title.clone(),
        artist: t.artist.clone(),
        album: t.album.clone(),
        album_key: t.album_key.clone(),
        track_no: t.track_no,
        duration_secs: t.duration_secs,
        cover: match &t.cover {
            Some(c) => Some(c.clone()),
            None => None,
        },
        mtime: t.mtime,
    }
}

/// `a` comes strictly before `b` in album order: by album, then track number, then title
/// (texts compared character by character).
pub open spec fn track_before(a: LocalTrack, b: LocalTrack) -> bool {
    ||| text_lt(a.album@, b.album@)
    ||| a.album@ == b.album@ && a.track_no < b.track_no
    ||| a.album@ == b.album@ && a.track_no == b.track_no && text_lt(a.title@, b.title@)
}

/// Album order is a strict weak order: irreflexive, asymmetric, and "not before" chains.
pub proof fn lemma_track_order(x: LocalTrack, y: LocalTrack, z: LocalTrack)
    ensures
        !track_before(x, x),
        track_before(x, y) ==> !track_before(y, x),
        track_before(z, x) ==> track_before(y, x) || track_before(z, y),
{
    lemma_text_lt_order(x.album@, y.album@, z.album@);
    lemma_text_lt_order(y.album@, x.album@, z.album@);
    lemma_text_lt_order(z.album@, x.album@, y.album@);
    lemma_text_lt_order(z.album@, y.album@, x.album@);
    lemma_text_lt_order(y.album@, z.album@, x.album@);
    lemma_text_lt_order(x.album@, z.album@, y.album@);
    lemma_text_lt_order(x.title@, y.title@, z.title@);
    lemma_text_lt_order(y.title@, x.title@, z.title@);
    lemma_text_lt_order(z.title@, x.title@, y.title@);
    lemma_text_lt_order(z.title@, y.title@, x.title@);
    lemma_text_lt_order(y.title@, z.title@, x.title@);
    lemma_text_lt_order(x.title@, z.title@, y.title@);
}

pub open spec fn votes_map(m: Map<Seq<char>, Table<i32>>) -> Map<Seq<char>, Map<Seq<char>, i32>> {
    m.map_values(|t: Table<i32>| t@)
}

pub open spec fn waveforms_map(m: Map<Seq<char>, (Vec<u8>, i64, i64)>) -> Map<Seq<char>, (Seq<u8>, i64)> {
    m.map_values(|w: (Vec<u8>, i64, i64)| (w.0@, w.1))
}

/// The vote stored for a song's lyric source, if any.
pub open spec fn vote_spec(db: DbV, video_id: Seq<char>, source: Seq<char>) -> Option<i32> {
    if db.votes.contains_key(video_id) && db.votes[video_id].contains_key(source) {
        Some(db.votes[video_id][source])
    } else {
        None
    }
}

/// Storing a vote: the song's votes gain (or replace) the one for `source`.
pub open spec fn set_vote_spec(
    m: Map<Seq<char>, Map<Seq<char>, i32>>,
    video_id: Seq<char>,
    source: Seq<char>,
    vote: i32,
) -> Map<Seq<char>, Map<Seq<char>, i32>> {
    let inner = if m.contains_key(video_id) {
        m[video_id]
    } else {
        Map::empty()
    };
    m.insert(video_id, inner.insert(source, vote))
}

pub open spec fn lyrics_map(m: Map<Seq<char>, (Option<String>, i64)>) -> Map<Seq<char>, (Option<Seq<char>>, i64)> {
    m.map_values(|v: (Option<String>, i64)| (opt_string_view(v.0), v.1))
}

impl View for Db {
    type V = DbV;

    closed spec fn view(&self) -> DbV {
        DbV {
            settings: self.settings@,
            offsets: self.offsets@,
            lyrics: lyrics_map(self.lyrics@),
            plays: plays_view(self.plays@),
            downloads: self.downloads@,
            votes: votes_map(self.votes@),
            waveforms: waveforms_map(self.waveforms@),
            local: self.local@,
            packs: packs_map(self.packs@),
            streams: streams_map(self.streams@),
        }
    }
}

/// The cached verdict for a song, as `get_lyrics` answers it: `None` when nothing usable is
/// cached (no row, or a miss older than `miss_ttl`), else the cached text or cached miss.
pub open spec fn cached_lyrics_spec(
    db: DbV,
    video_id: Seq<char>,
    now: int,
    miss_ttl: int,
) -> Option<Option<Seq<char>>> {
    if !db.lyrics.contains_key(video_id) {
        None
    } else {
        let (text, fetched_at) = db.lyrics[video_id];
        if text is None && now - fetched_at > miss_ttl {
            None
        } else {
            Some(text)
        }
    }
}

/// A song's lyric offset: its row, or 0.
pub open spec fn stored_offset(db: DbV, video_id: Seq<char>) -> i64 {
    if db.offsets.contains_key(video_id) {
        db.offsets[video_id]
    } else {
        0
    }
}

/// Storing an offset: 0 removes the row, anything else replaces it.
pub open spec fn set_offset_spec(m: Map<Seq<char>, i64>, video_id: Seq<char>, offset_ms: i64) -> Map<Seq<char>, i64> {
    if offset_ms == 0 {
        m.remove(video_id)
    } else {
        m.insert(video_id, offset_ms)
    }
}

/// The catalogue's total size: the sum of `size_bytes` over its rows.
pub open spec fn sizes_total(m: Map<Seq<char>, DownloadTrack>) -> int
    decreases m.dom().len(),
{
    if m.dom().finite() && m.dom().len() > 0 {
        let k = m.dom().choose();
        m[k].size_bytes + sizes_total(m.remove(k))
    } else {
        0
    }
}

/// The total does not depend on which row is taken first.
pub proof fn lemma_sizes_total_remove(m: Map<Seq<char>, DownloadTrack>, k: Seq<char>)
    requires
        m.dom().finite(),
        m.contains_key(k),
    ensures
        sizes_total(m) == m[k].size_bytes + sizes_total(m.remove(k)),
    decreases m.dom().len(),
{
    let c = m.dom().choose();
    assert(m.dom().contains(c));
    if c != k {
        lemma_sizes_total_remove(m.remove(c), k);
        lemma_sizes_total_remove(m.remove(k), c);
        assert(m.remove(c).remove(k) =~= m.remove(k).remove(c));
    }
}

/// What a write of an offset gives back: the song reads the offset just stored (0 when 0 was
/// stored, since that removes the row), and every other song keeps its own.
pub proof fn lemma_offset_read_after_write(db: DbV, video_id: Seq<char>, offset_ms: i64, other: Seq<char>)
    ensures
        ({
            let after = DbV { offsets: set_offset_spec(db.offsets, video_id, offset_ms), ..db };
            &&& stored_offset(after, video_id) == offset_ms
            &&& other != video_id ==> stored_offset(after, other) == stored_offset(db, other)
        }),
{
}

/// What a cache write gives back: found lyrics are served at any later time; a cached miss is
/// served while no more than `miss_ttl` seconds old and then reads as nothing cached; other
/// songs are untouched.
pub proof fn lemma_lyrics_cache_read_after_write(
    db: DbV,
    video_id: Seq<char>,
    lyrics: Option<Seq<char>>,
    fetched_at: i64,
    now: int,
    miss_ttl: int,
    other: Seq<char>,
)
    ensures
        ({
            let after = DbV { lyrics: db.lyrics.insert(video_id, (lyrics, fetched_at)), ..db };
            &&& lyrics is Some ==> cached_lyrics_spec(after, video_id, now, miss_ttl) == Some(lyrics)
            &&& lyrics is None ==> cached_lyrics_spec(after, video_id, now, miss_ttl) == (if now
                - fetched_at > miss_ttl {
                None
            } else {
                Some(None::<Seq<char>>)
            })
            &&& other != video_id ==> cached_lyrics_spec(after, other, now, miss_ttl)
                == cached_lyrics_spec(db, other, now, miss_ttl)
        }),
{
}

/// The catalogue answers what was written: after a row is put, its song is downloaded at the
/// row's path; after a delete, the song is not downloaded; other songs are untouched.
pub proof fn lemma_catalogue_read_after_write(db: DbV, d: DownloadTrack, video_id: Seq<char>, other: Seq<char>)
    ensures
        db.downloads.insert(d.video_id@, d).contains_key(d.video_id@),
        db.downloads.insert(d.video_id@, d)[d.video_id@].file_path == d.file_path,
        !db.downloads.remove(video_id).contains_key(video_id),
        other != d.video_id@ ==> db.downloads.insert(d.video_id@, d).contains_key(other)
            == db.downloads.contains_key(other),
        other != video_id ==> db.downloads.remove(video_id).contains_key(other)
            == db.downloads.contains_key(other),
{
}

fn newest_pos(v: &Vec<DownloadTrack>, added_at: i64) -> (p: usize)
    ensures
        p <= v.len(),
        p > 0 ==> v@[p - 1].added_at >= added_at,
        forall|j: int| p <= j < v.len() ==> (#[trigger] v@[j]).added_at < added_at,
{
    let mut j = v.len();
    while j > 0
        invariant
            j <= v.len(),
            forall|k: int| j <= k < v.len() ==> (#[trigger] v@[k]).added_at < added_at,
        decreases j,
    {
        if v[j - 1].added_at >= added_at {
            return j;
        }
        j -= 1;
    }
    j
}

/// A batch of upserts, applied in order.
pub open spec fn put_tracks_spec(m: Map<Seq<char>, LocalTrack>, ts: Seq<LocalTrack>) -> Map<Seq<char>, LocalTrack>
    decreases ts.len(),
{
    if ts.len() == 0 {
        m
    } else {
        put_tracks_spec(m, ts.drop_last()).insert(ts.last().path@, ts.last())
    }
}

/// A batch of deletions.
pub open spec fn delete_paths_spec(m: Map<Seq<char>, LocalTrack>, paths: Seq<String>) -> Map<Seq<char>, LocalTrack>
    decreases paths.len(),
{
    if paths.len() == 0 {
        m
    } else {
        delete_paths_spec(m, paths.drop_last()).remove(paths.last()@)
    }
}

/// A batch of deletions removes exactly the listed paths.
pub proof fn lemma_delete_paths(m: Map<Seq<char>, LocalTrack>, paths: Seq<String>)
    ensures
        forall|k: Seq<char>| #[trigger] delete_paths_spec(m, paths).contains_key(k) <==> (m.contains_key(k)
            && forall|j: int| 0 <= j < paths.len() ==> paths[j]@ != k),
        forall|k: Seq<char>| #[trigger] delete_paths_spec(m, paths).contains_key(k) ==> delete_paths_spec(m, paths)[k]
            == m[k],
    decreases paths.len(),
{
    if paths.len() > 0 {
        lemma_delete_paths(m, paths.drop_last());
        assert forall|k: Seq<char>| #[trigger] delete_paths_spec(m, paths).contains_key(k) <==> (m.contains_key(k)
            && forall|j: int| 0 <= j < paths.len() ==> paths[j]@ != k) by {
            let d = paths.drop_last();
            assert(delete_paths_spec(m, paths) == delete_paths_spec(m, d).remove(paths.last()@));
            assert(delete_paths_spec(m, d).contains_key(k) <==> (m.contains_key(k) && forall|j: int|
                0 <= j < d.len() ==> d[j]@ != k));
            if m.contains_key(k) && forall|j: int| 0 <= j < paths.len() ==> paths[j]@ != k {
                assert forall|j: int| 0 <= j < paths.drop_last().len() implies paths.drop_last()[j]@ != k by {
                    assert(paths.drop_last()[j] == paths[j]);
                }
                assert(paths.last()@ != k);
            }
            if delete_paths_spec(m, paths).contains_key(k) {
                assert forall|j: int| 0 <= j < paths.len() implies paths[j]@ != k by {
                    if j < paths.len() - 1 {
                        assert(d[j] == paths[j]);
                    }
                }
            }
        }
        assert forall|k: Seq<char>| #[trigger] delete_paths_spec(m, paths).contains_key(k) implies delete_paths_spec(
            m,
            paths,
        )[k] == m[k] by {
            let d = paths.drop_last();
            assert(delete_paths_spec(m, paths) == delete_paths_spec(m, d).remove(paths.last()@));
            assert(delete_paths_spec(m, d).contains_key(k));
        }
    }
}

/// Whether a track belongs to the listing asked for: every track, or one album's.
pub open spec fn in_listing(t: LocalTrack, album_key: Option<Seq<char>>) -> bool {
    match album_key {
        Some(k) => t.album_key@ == k,
        None => true,
    }
}

/// `ts` lists the library's tracks (or one album's) once each, in album order.
pub open spec fn is_listing(m: Map<Seq<char>, LocalTrack>, album_key: Option<Seq<char>>, ts: Seq<LocalTrack>) -> bool {
    &&& forall|i: int| 0 <= i < ts.len() ==> m.contains_key((#[trigger] ts[i]).path@)
        && m[ts[i].path@] == ts[i] && in_listing(ts[i], album_key)
    &&& forall|k: Seq<char>| #[trigger] m.contains_key(k) && in_listing(m[k], album_key)
        ==> exists|i: int| 0 <= i < ts.len() && (#[trigger] ts[i]).path@ == k
    &&& forall|i: int, j: int| 0 <= i < j < ts.len() ==> (#[trigger] ts[i]).path@ != (#[trigger] ts[j]).path@
    &&& forall|i: int, j: int| 0 <= i < j < ts.len() ==> !track_before(#[trigger] ts[j], #[trigger] ts[i])
}

fn track_pos(v: &Vec<LocalTrack>, x: &LocalTrack) -> (p: usize)
    ensures
        p <= v.len(),
        p > 0 ==> !track_before(*x, v@[p - 1]),
        forall|j: int| p <= j < v.len() ==> track_before(*x, #[trigger] v@[j]),
{
    let xa = chars_of(x.album.as_str());
    let xt = chars_of(x.title.as_str());
    let mut j = v.len();
    while j > 0
        invariant
            j <= v.len(),
            xa@ == x.album@,
            xt@ == x.title@,
            forall|k: int| j <= k < v.len() ==> track_before(*x, #[trigger] v@[k]),
        decreases j,
    {
        let y = &v[j - 1];
        let ya = chars_of(y.album.as_str());
        let yt = chars_of(y.title.as_str());
        let before = text_lt_exec(&xa, &ya) || (crate::text::chars_eq(&xa, &ya) && (x.track_no < y.track_no || (
        x.track_no == y.track_no && text_lt_exec(&xt, &yt))));
        if !before {
            return j;
        }
        j -= 1;
    }
    j
}

fn newest_pack_pos(v: &Vec<crate::artist_packs::ArtistPack>, installed_at: i64) -> (p: usize)
    ensures
        p <= v.len(),
        p > 0 ==> v@[p - 1].installed_at >= installed_at,
        forall|j: int| p <= j < v.len() ==> (#[trigger] v@[j]).installed_at < installed_at,
{
    let mut j = v.len();
    while j > 0
        invariant
            j <= v.len(),
            forall|k: int| j <= k < v.len() ==> (#[trigger] v@[k]).installed_at < installed_at,
        decreases j,
    {
        if v[j - 1].installed_at >= installed_at {
            return j;
        }
        j -= 1;
    }
    j
}

impl Db {
    /// Each table holds one row per key, and each catalogue row sits under its own video id.
    pub closed spec fn wf(&self) -> bool {
        &&& self.settings.wf()
        &&& self.offsets.wf()
        &&& self.lyrics.wf()
        &&& self.downloads.wf()
        &&& forall|k: Seq<char>| #[trigger] self.downloads@.contains_key(k) ==> self.downloads@[k].video_id@ == k
        &&& self.votes.wf()
        &&& forall|k: Seq<char>| #[trigger] self.votes@.contains_key(k) ==> self.votes@[k].wf()
        &&& self.waveforms.wf()
        &&& self.local.wf()
        &&& forall|k: Seq<char>| #[trigger] self.local@.contains_key(k) ==> self.local@[k].path@ == k
        &&& self.packs.wf()
        &&& forall|k: Seq<char>| #[trigger] self.packs@.contains_key(k) ==> self.packs@[k].id@ == k
        &&& self.streams.wf()
    }

    /// Empty tables.
    pub fn new() -> (d: Self)
        ensures
            d.wf(),
            d@.settings == Map::<Seq<char>, Seq<char>>::empty(),
            d@.offsets == Map::<Seq<char>, i64>::empty(),
            d@.lyrics == Map::<Seq<char>, (Option<Seq<char>>, i64)>::empty(),
            d@.plays == Seq::<PlayV>::empty(),
            d@.downloads == Map::<Seq<char>, DownloadTrack>::empty(),
            d@.votes == Map::<Seq<char>, Map<Seq<char>, i32>>::empty(),
            d@.waveforms == Map::<Seq<char>, (Seq<u8>, i64)>::empty(),
            d@.local == Map::<Seq<char>, LocalTrack>::empty(),
            d@.packs == Map::<Seq<char>, crate::artist_packs::PackV>::empty(),
            d@.streams == Map::<Seq<char>, StreamV>::empty(),
    {
        let d = Db { settings: SettingsStore::new(), offsets: Table::new(), lyrics: Table::new(), plays: Vec::new(), downloads: Table::new(), votes: Table::new(), waveforms: Table::new(), local: Table::new(), packs: Table::new(), streams: Table::new() };
        assert(streams_map(d.streams@) =~= Map::<Seq<char>, StreamV>::empty());
        assert(packs_map(d.packs@) =~= Map::<Seq<char>, crate::artist_packs::PackV>::empty());
        assert(votes_map(d.votes@) =~= Map::<Seq<char>, Map<Seq<char>, i32>>::empty());
        assert(waveforms_map(d.waveforms@) =~= Map::<Seq<char>, (Seq<u8>, i64)>::empty());
        assert(lyrics_map(d.lyrics@) =~= Map::<Seq<char>, (Option<Seq<char>>, i64)>::empty());
        assert(plays_view(d.plays@) =~= Seq::<PlayV>::empty());
        d
    }

    // --- settings ----------------------------------------------------------------------------

    /// The value stored under a setting's key.
    pub fn get_setting(&self, key: &str) -> (r: Option<String>)
        requires
            self.wf(),
        ensures
            opt_string_view(r) == (if self@.settings.contains_key(key@) {
                Some(self@.settings[key@])
            } else {
                None
            }),
    {
        self.settings.get_setting(key)
    }

    /// Every stored setting as `(key, value)`, in no particular order.
    pub fn all_settings(&self) -> (r: Vec<(String, String)>)
        requires
            self.wf(),
        ensures
            r.len() == self@.settings.dom().len(),
            forall|i: int| 0 <= i < r.len() ==> self@.settings.contains_key((#[trigger] r@[i]).0@)
                && self@.settings[r@[i].0@] == r@[i].1@,
            forall|i: int, j: int| 0 <= i < j < r.len() ==> (#[trigger] r@[i]).0@ != (#[trigger] r@[j]).0@,
    {
        self.settings.all_settings()
    }

    /// Stores a setting, replacing its old value.
    pub fn set_setting(&mut self, key: &str, value: &str)
        requires
            old(self).wf(),
        ensures
            final(self).wf(),
            final(self)@ == (DbV { settings: old(self)@.settings.insert(key@, value@), ..old(self)@ }),
    {
        self.settings.set_setting(key, value);
    }

    /// Removes a setting.
    pub fn delete_setting(&mut self, key: &str)
        requires
            old(self).wf(),
        ensures
            final(self).wf(),
            final(self)@ == (DbV { settings: old(self)@.settings.remove(key@), ..old(self)@ }),
    {
        self.settings.delete_setting(key);
    }

    /// Signs in as a chosen identity: the cookie, identity and account together, the delegated
    /// channel id stored or removed, the pending-choice marker gone.
    pub fn set_auth_identity(
        &mut self,
        session_cookie: &str,
        selected_json: &str,
        data_sync_id: Option<&str>,
        account_json: &str,
    )
        requires
            old(self).wf(),
        ensures
            final(self).wf(),
            final(self)@ == (DbV {
                settings: auth_identity_spec(
                    old(self)@.settings,
                    session_cookie@,
                    selected_json@,
                    opt_str_view(data_sync_id),
                    account_json@,
                ),
                ..old(self)@
            }),
    {
        self.settings.set_auth_identity(session_cookie, selected_json, data_sync_id, account_json);
    }

    /// Keeps a signed-in cookie while a channel still has to be picked.
    pub fn set_pending_auth_selection(&mut self, session_cookie: &str)
        requires
            old(self).wf(),
        ensures
            final(self).wf(),
            final(self)@ == (DbV {
                settings: pending_selection_spec(old(self)@.settings, session_cookie@),
                ..old(self)@
            }),
    {
        self.settings.set_pending_auth_selection(session_cookie);
    }

    /// Signs out of the identity, leaving the cookie.
    pub fn clear_auth_identity(&mut self)
        requires
            old(self).wf(),
        ensures
            final(self).wf(),
            final(self)@ == (DbV { settings: clear_identity_spec(old(self)@.settings), ..old(self)@ }),
    {
        self.settings.clear_auth_identity();
    }

    // --- stream URL cache ----------------------------------------------------------------------

    /// The cached stream for a song, only while it is still valid (it expires after `now`).
    pub fn get_stream(&self, video_id: &str, now: i64) -> (r: Option<CachedStream>)
        requires
            self.wf(),
        ensures
            (match r {
                Some(c) => Some(c@),
                None => None,
            }) == stream_lookup(self@.streams, video_id@, now as int),
    {
        match self.streams.get(video_id) {
            Some(c) => {
                if c.expires_at > now {
                    Some(CachedStream {
                        url: c.url.clone(),
                        itag: c.itag,
                        expires_at: c.expires_at,
                        loudness_bits: c.loudness_bits,
                    })
                } else {
                    None
                }
            },
            None => None,
        }
    }

    /// Drops a song's cached URL (it was refused on the real request).
    pub fn evict_stream(&mut self, video_id: &str)
        requires
            old(self).wf(),
        ensures
            final(self).wf(),
            final(self)@ == (DbV { streams: old(self)@.streams.remove(video_id@), ..old(self)@ }),
    {
        let ghost before = self.streams@;
        self.streams.remove(video_id);
        assert(streams_map(self.streams@) =~= streams_map(before).remove(video_id@));
    }

    /// Caches a song's stream URL, replacing an earlier one.
    pub fn put_stream(&mut self, video_id: &str, url: &str, itag: i64, expires_at: i64, loudness_bits: Option<u64>)
        requires
            old(self).wf(),
        ensures
            final(self).wf(),
            final(self)@ == (DbV {
                streams: old(self)@.streams.insert(
                    video_id@,
                    StreamV { url: url@, itag, expires_at, loudness_bits },
                ),
                ..old(self)@
            }),
    {
        let ghost before = self.streams@;
        let c = CachedStream { url: url.to_string(), itag, expires_at, loudness_bits };
        self.streams.put(video_id, c);
        assert(streams_map(self.streams@) =~= streams_map(before).insert(
            video_id@,
            StreamV { url: url@, itag, expires_at, loudness_bits },
        ));
    }

    /// Wipes the stream URL cache and the lyrics cache ("Clear caches").
    pub fn clear_stream_cache(&mut self)
        requires
            old(self).wf(),
        ensures
            final(self).wf(),
            final(self)@ == (DbV {
                streams: Map::<Seq<char>, StreamV>::empty(),
                lyrics: Map::<Seq<char>, (Option<Seq<char>>, i64)>::empty(),
                ..old(self)@
            }),
    {
        self.streams.clear();
        self.lyrics.clear();
        assert(streams_map(self.streams@) =~= Map::<Seq<char>, StreamV>::empty());
        assert(lyrics_map(self.lyrics@) =~= Map::<Seq<char>, (Option<Seq<char>>, i64)>::empty());
    }

    /// Sweeps out every cached URL that has expired by `now` (done when the tables are opened,
    /// so a backlog does not wait for the next write).
    pub fn sweep_streams(&mut self, now: i64)
        requires
            old(self).wf(),
        ensures
            final(self).wf(),
            final(self)@ == (DbV { streams: fresh_streams(old(self)@.streams, now), ..old(self)@ }),
    {
        proof {
            self.streams.lemma_entries();
        }
        let ghost start = self@;
        let ghost m0 = self.streams@;
        let n = self.streams.len();
        let ghost es = self.streams.entries();
        let mut stale: Vec<String> = Vec::new();
        let mut i: usize = 0;
        while i < n
            invariant
                i <= n,
                n == es.len(),
                es == self.streams.entries(),
                m0 == self.streams@,
                forall|j: int| 0 <= j < n ==> #[trigger] m0.contains_key(es[j].0) && m0[es[j].0] == es[j].1,
                forall|a: int| 0 <= a < stale.len() ==> m0.contains_key((#[trigger] stale@[a])@) && m0[stale@[a]@].expires_at <= now,
                forall|j: int| 0 <= j < i && (#[trigger] es[j]).1.expires_at <= now ==> exists|a: int| 0 <= a < stale.len() && stale@[a]@ == es[j].0,
            decreases n - i,
        {
            let c = self.streams.value_at(i);
            if c.expires_at <= now {
                let ghost sb = stale@;
                stale.push(self.streams.key_at(i).clone());
                proof {
                    assert forall|j: int| 0 <= j < i + 1 && (#[trigger] es[j]).1.expires_at <= now implies exists|a: int| 0 <= a < stale.len() && stale@[a]@ == es[j].0 by {
                        if j < i {
                            let a = choose|a: int| 0 <= a < sb.len() && sb[a]@ == es[j].0;
                            assert(stale@[a] == sb[a]);
                        } else {
                            assert(stale@[sb.len() as int]@ == es[j].0);
                        }
                    }
                }
            }
            i += 1;
        }
        let mut k: usize = 0;
        while k < stale.len()
            invariant
                k <= stale.len(),
                self.wf(),
                self@ == (DbV { streams: self@.streams, ..start }),
                forall|x: Seq<char>| #[trigger] self@.streams.contains_key(x) <==> (m0.contains_key(x) && forall|a: int| 0 <= a < k ==> stale@[a]@ != x),
                forall|x: Seq<char>| #[trigger] self@.streams.contains_key(x) ==> self@.streams[x] == m0[x]@,
            decreases stale.len() - k,
        {
            let ghost before = self.streams@;
            self.streams.remove(stale[k].as_str());
            proof {
                assert(streams_map(self.streams@) =~= streams_map(before).remove(stale@[k as int]@));
                assert forall|x: Seq<char>| #[trigger] self@.streams.contains_key(x) <==> (m0.contains_key(x) && forall|a: int| 0 <= a < k + 1 ==> stale@[a]@ != x) by {
                    if m0.contains_key(x) && forall|a: int| 0 <= a < k + 1 ==> stale@[a]@ != x {
                        assert(stale@[k as int]@ != x);
                    }
                }
            }
            k += 1;
        }
        proof {
            let want = fresh_streams(streams_map(m0), now);
            let ks = es.map_values(|e: (Seq<char>, CachedStream)| e.0);
            assert forall|x: Seq<char>| #[trigger] self@.streams.contains_key(x) <==> want.contains_key(x) by {
                if m0.contains_key(x) && m0[x].expires_at > now {
                    assert forall|a: int| 0 <= a < stale.len() implies stale@[a]@ != x by {
                        assert(m0[stale@[a]@].expires_at <= now);
                    }
                }
                if m0.contains_key(x) && m0[x].expires_at <= now {
                    assert(ks.to_set().contains(x));
                    let j = choose|j: int| 0 <= j < ks.len() && ks[j] == x;
                    assert(es[j].1.expires_at <= now);
                    let a = choose|a: int| 0 <= a < stale.len() && stale@[a]@ == es[j].0;
                }
            }
            assert(self@.streams =~= want);
        }
    }

    // --- lyrics cache --------------------------------------------------------------------------

    /// The cached lyrics for a song: `Some(None)` is a cached "no lyrics" verdict still within
    /// `miss_ttl` seconds; misses expire, found lyrics never do.
    pub fn get_lyrics(&self, video_id: &str, now: i64, miss_ttl: i64) -> (r: Option<Option<String>>)
        requires
            self.wf(),
        ensures
            match r {
                None => cached_lyrics_spec(self@, video_id@, now as int, miss_ttl as int) is None,
                Some(t) => cached_lyrics_spec(self@, video_id@, now as int, miss_ttl as int)
                    == Some(opt_string_view(t)),
            },
    {
        match self.lyrics.get(video_id) {
            None => None,
            Some(row) => {
                let stale = (now as i128) - (row.1 as i128) > (miss_ttl as i128);
                if row.0.is_none() && stale {
                    None
                } else {
                    match &row.0 {
                        Some(t) => Some(Some(t.clone())),
                        None => Some(None),
                    }
                }
            },
        }
    }

    /// Caches a song's lyrics (or, with `None`, a "no lyrics found" verdict) as fetched `now`.
    pub fn put_lyrics(&mut self, video_id: &str, lyrics: Option<&str>, now: i64)
        requires
            old(self).wf(),
        ensures
            final(self).wf(),
            final(self)@ == (DbV {
                lyrics: old(self)@.lyrics.insert(video_id@, (opt_str_view(lyrics), now)),
                ..old(self)@
            }),
    {
        let text = match lyrics {
            Some(t) => Some(string_of(&chars_of(t))),
            None => None,
        };
        let ghost before = self.lyrics@;
        self.lyrics.put(video_id, (text, now));
        assert(lyrics_map(self.lyrics@) =~= lyrics_map(before).insert(video_id@, (opt_str_view(lyrics), now)));
    }

    // --- lyric offsets -------------------------------------------------------------------------

    /// A song's lyric sync offset in ms (positive delays the lyrics); 0 when none is stored.
    pub fn get_lyric_offset(&self, video_id: &str) -> (r: i64)
        requires
            self.wf(),
        ensures
            r == stored_offset(self@, video_id@),
    {
        match self.offsets.get(video_id) {
            Some(o) => *o,
            None => 0,
        }
    }

    /// Stores a song's lyric offset; 0 removes the row.
    pub fn set_lyric_offset(&mut self, video_id: &str, offset_ms: i64)
        requires
            old(self).wf(),
        ensures
            final(self).wf(),
            final(self)@ == (DbV {
                offsets: set_offset_spec(old(self)@.offsets, video_id@, offset_ms),
                ..old(self)@
            }),
    {
        if offset_ms == 0 {
            self.offsets.remove(video_id);
        } else {
            self.offsets.put(video_id, offset_ms);
        }
    }

    // --- lyric votes ---------------------------------------------------------------------------

    /// The vote stored for a song's lyric source.
    pub fn get_lyric_vote(&self, video_id: &str, source: &str) -> (r: Option<i32>)
        requires
            self.wf(),
        ensures
            r == vote_spec(self@, video_id@, source@),
    {
        match self.votes.get(video_id) {
            Some(t) => match t.get(source) {
                Some(v) => Some(*v),
                None => None,
            },
            None => None,
        }
    }

    /// Stores a vote on a song's lyric source, replacing an earlier one.
    pub fn set_lyric_vote(&mut self, video_id: &str, source: &str, vote: i32)
        requires
            old(self).wf(),
        ensures
            final(self).wf(),
            final(self)@ == (DbV { votes: set_vote_spec(old(self)@.votes, video_id@, source@, vote), ..old(self)@ }),
    {
        let ghost before = self.votes@;
        let mut inner = match self.votes.take(video_id) {
            Some(t) => t,
            None => Table::new(),
        };
        inner.put(source, vote);
        let ghost iv = inner;
        self.votes.put(video_id, inner);
        proof {
            assert(self.votes@ == before.remove(video_id@).insert(video_id@, iv));
            assert forall|k: Seq<char>| #[trigger] self.votes@.contains_key(k) implies self.votes@[k].wf() by {
                if k != video_id@ {
                    assert(before.contains_key(k));
                }
            }
            assert(votes_map(self.votes@) =~= set_vote_spec(votes_map(before), video_id@, source@, vote));
        }
    }

    // --- waveforms -----------------------------------------------------------------------------

    /// The stored peaks for a song and the bar count they were computed at.
    pub fn get_waveform(&self, video_id: &str) -> (r: Option<(Vec<u8>, i64)>)
        requires
            self.wf(),
        ensures
            r is Some == self@.waveforms.contains_key(video_id@),
            r matches Some(w) ==> (w.0@, w.1) == self@.waveforms[video_id@],
    {
        match self.waveforms.get(video_id) {
            Some(w) => Some((w.0.clone(), w.1)),
            None => None,
        }
    }

    /// Stores computed peaks for a song (replacing earlier ones), stamped with the clock.
    pub fn put_waveform(&mut self, video_id: &str, bars: &[u8], count: i64)
        requires
            old(self).wf(),
        ensures
            final(self).wf(),
            final(self)@ == (DbV { waveforms: old(self)@.waveforms.insert(video_id@, (bars@, count)), ..old(self)@ }),
    {
        let mut v: Vec<u8> = Vec::new();
        let mut i: usize = 0;
        while i < bars.len()
            invariant
                i <= bars.len(),
                v@ == bars@.take(i as int),
            decreases bars.len() - i,
        {
            v.push(bars[i]);
            assert(bars@.take(i + 1) =~= bars@.take(i as int).push(bars@[i as int]));
            i += 1;
        }
        assert(bars@.take(bars@.len() as int) =~= bars@);
        let ghost before = self.waveforms@;
        let stamp = now_secs();
        self.waveforms.put(video_id, (v, count, stamp));
        assert(waveforms_map(self.waveforms@) =~= waveforms_map(before).insert(video_id@, (bars@, count)));
    }

    // --- local library -------------------------------------------------------------------------

    /// Adds or replaces one file's row.
    pub fn put_local_track(&mut self, t: &LocalTrack)
        requires
            old(self).wf(),
        ensures
            final(self).wf(),
            final(self)@ == (DbV { local: old(self)@.local.insert(t.path@, *t), ..old(self)@ }),
    {
        let c = copy_local_track(t);
        self.local.put(t.path.as_str(), c);
    }

    /// Adds or replaces a batch of rows, in order.
    pub fn put_local_tracks(&mut self, tracks: &[LocalTrack])
        requires
            old(self).wf(),
        ensures
            final(self).wf(),
            final(self)@ == (DbV { local: put_tracks_spec(old(self)@.local, tracks@), ..old(self)@ }),
    {
        let ghost start = self@;
        let mut i: usize = 0;
        while i < tracks.len()
            invariant
                i <= tracks.len(),
                self.wf(),
                self@ == (DbV { local: put_tracks_spec(start.local, tracks@.take(i as int)), ..start }),
            decreases tracks.len() - i,
        {
            self.put_local_track(&tracks[i]);
            assert(tracks@.take(i + 1).drop_last() =~= tracks@.take(i as int));
            i += 1;
        }
        assert(tracks@.take(tracks@.len() as int) =~= tracks@);
    }

    /// Forgets files that are no longer on disk.
    pub fn delete_local_tracks(&mut self, paths: &[String])
        requires
            old(self).wf(),
        ensures
            final(self).wf(),
            final(self)@ == (DbV { local: delete_paths_spec(old(self)@.local, paths@), ..old(self)@ }),
    {
        let ghost start = self@;
        let mut i: usize = 0;
        while i < paths.len()
            invariant
                i <= paths.len(),
                self.wf(),
                self@ == (DbV { local: delete_paths_spec(start.local, paths@.take(i as int)), ..start }),
            decreases paths.len() - i,
        {
            self.local.remove(paths[i].as_str());
            assert(paths@.take(i + 1).drop_last() =~= paths@.take(i as int));
            i += 1;
        }
        assert(paths@.take(paths@.len() as int) =~= paths@);
    }

    /// The album key of the file at `path`, if it is in the library.
    pub fn local_album_key(&self, path: &str) -> (r: Option<String>)
        requires
            self.wf(),
        ensures
            r is Some == self@.local.contains_key(path@),
            r matches Some(k) ==> k@ == self@.local[path@].album_key@,
    {
        match self.local.get(path) {
            Some(t) => Some(t.album_key.clone()),
            None => None,
        }
    }

    /// Every known file with its recorded mtime (in no particular order).
    pub fn local_mtimes(&self) -> (r: Vec<(String, i64)>)
        requires
            self.wf(),
        ensures
            r.len() == self@.local.dom().len(),
            forall|i: int| 0 <= i < r.len() ==> self@.local.contains_key((#[trigger] r@[i]).0@)
                && self@.local[r@[i].0@].mtime == r@[i].1,
            forall|i: int, j: int| 0 <= i < j < r.len() ==> (#[trigger] r@[i]).0@ != (#[trigger] r@[j]).0@,
            forall|k: Seq<char>| #[trigger] self@.local.contains_key(k) ==> exists|i: int| 0 <= i < r.len() && r@[i].0@ == k,
    {
        proof {
            self.local.lemma_entries();
        }
        let n = self.local.len();
        let ghost es = self.local.entries();
        let ghost ks = es.map_values(|e: (Seq<char>, LocalTrack)| e.0);
        let mut out: Vec<(String, i64)> = Vec::new();
        let mut i: usize = 0;
        while i < n
            invariant
                i <= n,
                n == es.len(),
                es == self.local.entries(),
                ks == es.map_values(|e: (Seq<char>, LocalTrack)| e.0),
                ks.no_duplicates(),
                forall|j: int| 0 <= j < n ==> #[trigger] self.local@.contains_key(es[j].0)
                    && self.local@[es[j].0] == es[j].1,
                out.len() == i,
                forall|a: int| 0 <= a < i ==> (#[trigger] out@[a]).0@ == es[a].0 && out@[a].1 == es[a].1.mtime,
            decreases n - i,
        {
            let k = self.local.key_at(i).clone();
            let m = self.local.value_at(i).mtime;
            out.push((k, m));
            i += 1;
        }
        proof {
            assert forall|a: int, b: int| 0 <= a < b < out.len() implies (#[trigger] out@[a]).0@ != (#[trigger] out@[b]).0@ by {
                assert(ks[a] != ks[b]);
            }
            assert forall|a: int| 0 <= a < out.len() implies self@.local.contains_key((#[trigger] out@[a]).0@)
                && self@.local[out@[a].0@].mtime == out@[a].1 by {
                assert(self.local@.contains_key(es[a].0));
            }
            assert forall|k: Seq<char>| #[trigger] self@.local.contains_key(k) implies exists|i: int| 0 <= i < out.len() && out@[i].0@ == k by {
                assert(ks.to_set().contains(k));
                let j = choose|j: int| 0 <= j < ks.len() && ks[j] == k;
                assert(out@[j].0@ == k);
            }
        }
        out
    }

    /// The library's tracks, or one album's, in album order (by album, then track number, then
    /// title; rows equal on all three in no particular order).
    pub fn local_tracks(&self, album_key: Option<&str>) -> (r: Vec<LocalTrack>)
        requires
            self.wf(),
        ensures
            is_listing(self@.local, crate::lyrics::opt_str_view(album_key), r@),
    {
        proof {
            self.local.lemma_entries();
        }
        let want: Option<String> = match album_key {
            Some(k) => Some(string_of(&chars_of(k))),
            None => None,
        };
        let ghost wk = crate::lyrics::opt_str_view(album_key);
        let n = self.local.len();
        let ghost es = self.local.entries();
        let ghost ks = es.map_values(|e: (Seq<char>, LocalTrack)| e.0);
        let mut out: Vec<LocalTrack> = Vec::new();
        let ghost mut idx: Seq<int> = Seq::empty();
        let mut i: usize = 0;
        while i < n
            invariant
                i <= n,
                n == es.len(),
                es == self.local.entries(),
                ks == es.map_values(|e: (Seq<char>, LocalTrack)| e.0),
                ks.no_duplicates(),
                self.wf(),
                crate::lyrics::opt_string_view(want) == wk,
                forall|j: int| 0 <= j < n ==> #[trigger] self.local@.contains_key(es[j].0)
                    && self.local@[es[j].0] == es[j].1,
                idx.len() == out.len(),
                forall|a: int| 0 <= a < out.len() ==> 0 <= #[trigger] idx[a] < i && out@[a] == es[idx[a]].1
                    && in_listing(out@[a], wk),
                forall|a: int, b: int| 0 <= a < b < out.len() ==> #[trigger] idx[a] != #[trigger] idx[b],
                forall|j: int| 0 <= j < i && in_listing(#[trigger] es[j].1, wk) ==> exists|a: int| 0 <= a < out.len() && idx[a] == j,
                forall|a: int, b: int| 0 <= a < b < out.len() ==> !track_before(#[trigger] out@[b], #[trigger] out@[a]),
            decreases n - i,
        {
            let t = self.local.value_at(i);
            let keep = match &want {
                Some(k) => t.album_key == *k,
                None => true,
            };
            if keep {
                let d = copy_local_track(t);
                let p = track_pos(&out, &d);
                let ghost before = out@;
                let ghost ib = idx;
                out.insert(p, d);
                proof {
                    idx = ib.insert(p as int, i as int);
                    assert forall|a: int, b: int| 0 <= a < b < out.len() implies !track_before(#[trigger] out@[b], #[trigger] out@[a]) by {
                        if b < p {
                            assert(out@[a] == before[a] && out@[b] == before[b]);
                        } else if b == p {
                            assert(out@[a] == before[a]);
                            if a < p - 1 {
                                assert(!track_before(before[p - 1], before[a]));
                                lemma_track_order(before[a], before[p - 1], d);
                            }
                        } else if a > p {
                            assert(out@[a] == before[a - 1] && out@[b] == before[b - 1]);
                        } else if a == p {
                            assert(out@[b] == before[b - 1]);
                            lemma_track_order(d, before[b - 1], d);
                        } else {
                            assert(out@[a] == before[a] && out@[b] == before[b - 1]);
                        }
                    }
                    assert forall|a: int| 0 <= a < out.len() implies 0 <= #[trigger] idx[a] < i + 1 && out@[a] == es[idx[a]].1
                        && in_listing(out@[a], wk) by {
                        if a < p {
                            assert(idx[a] == ib[a] && out@[a] == before[a]);
                        } else if a > p {
                            assert(idx[a] == ib[a - 1] && out@[a] == before[a - 1]);
                        }
                    }
                    assert forall|a: int, b: int| 0 <= a < b < out.len() implies #[trigger] idx[a] != #[trigger] idx[b] by {
                        if a != p && b != p {
                            let a2 = if a < p { a } else { a - 1 };
                            let b2 = if b < p { b } else { b - 1 };
                            assert(idx[a] == ib[a2] && idx[b] == ib[b2]);
                        } else if a == p {
                            assert(idx[b] == ib[b - 1]);
                        } else {
                            assert(idx[a] == ib[a]);
                        }
                    }
                    assert forall|j: int| 0 <= j < i + 1 && in_listing(#[trigger] es[j].1, wk) implies exists|a: int| 0 <= a < out.len() && idx[a] == j by {
                        if j == i {
                            assert(idx[p as int] == j);
                        } else {
                            let a0 = choose|a: int| 0 <= a < before.len() && ib[a] == j;
                            if a0 < p {
                                assert(idx[a0] == j);
                            } else {
                                assert(idx[a0 + 1] == j);
                            }
                        }
                    }
                }
            } else {
                proof {
                    assert forall|j: int| 0 <= j < i + 1 && in_listing(#[trigger] es[j].1, wk) implies exists|a: int| 0 <= a < out.len() && idx[a] == j by {
                        if j == i {
                            assert(!in_listing(es[j].1, wk));
                        }
                    }
                }
            }
            i += 1;
        }
        proof {
            assert forall|a: int| 0 <= a < out.len() implies self@.local.contains_key((#[trigger] out@[a]).path@)
                && self@.local[out@[a].path@] == out@[a] && in_listing(out@[a], wk) by {
                let j = idx[a];
                assert(self.local@.contains_key(es[j].0));
            }
            assert forall|a: int, b: int| 0 <= a < b < out.len() implies (#[trigger] out@[a]).path@ != (#[trigger] out@[b]).path@ by {
                let ja = idx[a];
                let jb = idx[b];
                assert(self.local@.contains_key(es[ja].0));
                assert(self.local@.contains_key(es[jb].0));
                assert(ks[ja] != ks[jb]);
            }
            assert forall|k: Seq<char>| #[trigger] self@.local.contains_key(k) && in_listing(self@.local[k], wk)
                implies exists|a: int| 0 <= a < out.len() && (#[trigger] out@[a]).path@ == k by {
                assert(ks.to_set().contains(k));
                let j = choose|j: int| 0 <= j < ks.len() && ks[j] == k;
                assert(in_listing(es[j].1, wk));
                let a = choose|a: int| 0 <= a < out.len() && idx[a] == j;
                assert(out@[a].path@ == k);
            }
        }
        out
    }

    // --- artist packs --------------------------------------------------------------------------

    /// Adds or replaces an installed pack's row.
    pub fn put_pack(&mut self, pack: crate::artist_packs::ArtistPack)
        requires
            old(self).wf(),
        ensures
            final(self).wf(),
            final(self)@ == (DbV { packs: old(self)@.packs.insert(pack.id@, pack@), ..old(self)@ }),
    {
        let ghost before = self.packs@;
        let id = pack.id.clone();
        let ghost pv = pack;
        self.packs.put(id.as_str(), pack);
        assert(packs_map(self.packs@) =~= packs_map(before).insert(pv.id@, pv@));
    }

    /// An installed pack's row.
    pub fn pack(&self, id: &str) -> (r: Option<crate::artist_packs::ArtistPack>)
        requires
            self.wf(),
        ensures
            r is Some == self@.packs.contains_key(id@),
            r matches Some(p) ==> p@ == self@.packs[id@],
    {
        match self.packs.get(id) {
            Some(p) => Some(crate::artist_packs::copy_pack(p)),
            None => None,
        }
    }

    /// Removes an installed pack's row.
    pub fn delete_pack(&mut self, id: &str)
        requires
            old(self).wf(),
        ensures
            final(self).wf(),
            final(self)@ == (DbV { packs: old(self)@.packs.remove(id@), ..old(self)@ }),
    {
        let ghost before = self.packs@;
        self.packs.remove(id);
        assert(packs_map(self.packs@) =~= packs_map(before).remove(id@));
    }

    /// Every installed pack, newest install first (packs installed at the same second in no
    /// particular order).
    pub fn all_packs(&self) -> (r: Vec<crate::artist_packs::ArtistPack>)
        requires
            self.wf(),
        ensures
            r.len() == self@.packs.dom().len(),
            forall|i: int| 0 <= i < r.len() ==> self@.packs.contains_key((#[trigger] r@[i]).id@)
                && self@.packs[r@[i].id@] == r@[i]@,
            forall|i: int, j: int| 0 <= i < j < r.len() ==> (#[trigger] r@[i]).id@ != (#[trigger] r@[j]).id@,
            forall|i: int, j: int| 0 <= i < j < r.len() ==> (#[trigger] r@[i]).installed_at >= (#[trigger] r@[j]).installed_at,
    {
        proof {
            self.packs.lemma_entries();
        }
        let n = self.packs.len();
        let ghost es = self.packs.entries();
        let mut out: Vec<crate::artist_packs::ArtistPack> = Vec::new();
        let ghost mut idx: Seq<int> = Seq::empty();
        let mut i: usize = 0;
        while i < n
            invariant
                i <= n,
                n == es.len(),
                es == self.packs.entries(),
                self.wf(),
                forall|j: int| 0 <= j < n ==> #[trigger] self.packs@.contains_key(es[j].0)
                    && self.packs@[es[j].0] == es[j].1,
                es.map_values(|e: (Seq<char>, crate::artist_packs::ArtistPack)| e.0).no_duplicates(),
                idx.len() == out.len() == i,
                forall|a: int| 0 <= a < i ==> 0 <= #[trigger] idx[a] < i && out@[a]@ == es[idx[a]].1@,
                forall|a: int, b: int| 0 <= a < b < i ==> #[trigger] idx[a] != #[trigger] idx[b],
                forall|a: int, b: int| 0 <= a < b < i ==> (#[trigger] out@[a]).installed_at >= (#[trigger] out@[b]).installed_at,
            decreases n - i,
        {
            let d = crate::artist_packs::copy_pack(self.packs.value_at(i));
            let p = newest_pack_pos(&out, d.installed_at);
            let ghost before = out@;
            let ghost ib = idx;
            out.insert(p, d);
            proof {
                idx = ib.insert(p as int, i as int);
                assert forall|a: int, b: int| 0 <= a < b < i + 1 implies (#[trigger] out@[a]).installed_at >= (#[trigger] out@[b]).installed_at by {
                    if b < p {
                        assert(out@[a] == before[a] && out@[b] == before[b]);
                    } else if b == p {
                        assert(out@[a] == before[a]);
                        if a < p - 1 {
                            assert(before[a].installed_at >= before[p - 1].installed_at);
                        }
                    } else if a > p {
                        assert(out@[a] == before[a - 1] && out@[b] == before[b - 1]);
                    } else if a == p {
                        assert(out@[b] == before[b - 1]);
                    } else {
                        assert(out@[a] == before[a] && out@[b] == before[b - 1]);
                    }
                }
                assert forall|a: int| 0 <= a < i + 1 implies 0 <= #[trigger] idx[a] < i + 1 && out@[a]@ == es[idx[a]].1@ by {
                    if a < p {
                        assert(idx[a] == ib[a] && out@[a] == before[a]);
                    } else if a > p {
                        assert(idx[a] == ib[a - 1] && out@[a] == before[a - 1]);
                    }
                }
                assert forall|a: int, b: int| 0 <= a < b < i + 1 implies #[trigger] idx[a] != #[trigger] idx[b] by {
                    if a != p && b != p {
                        let a2 = if a < p { a } else { a - 1 };
                        let b2 = if b < p { b } else { b - 1 };
                        assert(idx[a] == ib[a2] && idx[b] == ib[b2]);
                    } else if a == p {
                        assert(idx[b] == ib[b - 1]);
                    } else {
                        assert(idx[a] == ib[a]);
                    }
                }
            }
            i += 1;
        }
        proof {
            assert(packs_map(self.packs@).dom() =~= self.packs@.dom());
            let ks = es.map_values(|e: (Seq<char>, crate::artist_packs::ArtistPack)| e.0);
            assert forall|a: int| 0 <= a < out.len() implies self@.packs.contains_key((#[trigger] out@[a]).id@)
                && self@.packs[out@[a].id@] == out@[a]@ by {
                let j = idx[a];
                assert(self.packs@.contains_key(es[j].0));
                assert(self.packs@[es[j].0].id@ == es[j].0);
            }
            assert forall|a: int, b: int| 0 <= a < b < out.len() implies (#[trigger] out@[a]).id@ != (#[trigger] out@[b]).id@ by {
                let ja = idx[a];
                let jb = idx[b];
                assert(self.packs@.contains_key(es[ja].0));
                assert(self.packs@.contains_key(es[jb].0));
                assert(self.packs@[es[ja].0].id@ == es[ja].0);
                assert(self.packs@[es[jb].0].id@ == es[jb].0);
                assert(ks[ja] != ks[jb]);
            }
        }
        out
    }

    // --- play history ----------------------------------------------------------------------------

    /// Records one completed play, then drops every play older than `now - window`, so the
    /// diary stays bounded whether or not anything reads it.
    pub fn record_play(&mut self, video_id: &str, song_json: &str, now: i64, window: i64)
        requires
            old(self).wf(),
            i64::MIN <= now - window <= i64::MAX,
        ensures
            final(self).wf(),
            final(self)@ == (DbV {
                plays: record_spec(old(self)@.plays, video_id@, song_json@, now as int, window as int),
                ..old(self)@
            }),
    {
        let ghost before = plays_view(self.plays@);
        let row = PlayRow {
            video_id: string_of(&chars_of(video_id)),
            played_at: now,
            song_json: string_of(&chars_of(song_json)),
        };
        self.plays.push(row);
        assert(plays_view(self.plays@) =~= before.push((video_id@, now as int, song_json@)));
        let kept = prune_plays(&self.plays, now - window);
        self.plays = kept;
    }

    /// The most-played songs since `since`, at most `limit`, as `(song_json, plays)`: ranked by
    /// plays, then by the latest play; each carries the metadata of its latest play.
    pub fn top_plays(&self, since: i64, limit: usize) -> (r: Vec<(String, i64)>)
        ensures
            r@.map_values(|e: (String, i64)| (e.0@, e.1 as int)) == top_plays_spec(
                self@.plays,
                since as int,
                limit as int,
            ),
    {
        top_plays_of(&self.plays, since, limit)
    }

    /// The play diary newest first (the later row first among plays at the same time), as
    /// `(played_at, song_json)`, at most `limit` rows; a negative limit means all of them.
    pub fn recent_plays(&self, limit: i64) -> (r: Vec<(i64, String)>)
        ensures
            r@.map_values(|e: (i64, String)| (e.0 as int, e.1@)) == recent_plays_spec(
                self@.plays,
                limit as int,
            ),
    {
        recent_plays_of(&self.plays, limit)
    }

    /// Drops the plays of local files (ids starting `LOCAL:` in any case). Local files are not
    /// recorded as plays, but an earlier release recorded them for a while; this runs when the
    /// stored tables are opened.
    pub fn drop_local_plays(&mut self)
        requires
            old(self).wf(),
        ensures
            final(self).wf(),
            final(self)@ == (DbV { plays: without_local_spec(old(self)@.plays), ..old(self)@ }),
    {
        let kept = without_local_plays(&self.plays);
        self.plays = kept;
    }

    // --- offline catalogue ---------------------------------------------------------------------

    /// Where a downloaded song's audio lives, if it is downloaded.
    pub fn download_path(&self, video_id: &str) -> (r: Option<String>)
        requires
            self.wf(),
        ensures
            r is Some == self@.downloads.contains_key(video_id@),
            r matches Some(p) ==> p@ == self@.downloads[video_id@].file_path@,
    {
        match self.downloads.get(video_id) {
            Some(d) => Some(d.file_path.clone()),
            None => None,
        }
    }

    /// The song whose download is stored at `path`, if any (when several rows name the same
    /// file, one of them).
    pub fn video_id_for_path(&self, path: &str) -> (r: Option<String>)
        requires
            self.wf(),
        ensures
            r is None <==> forall|k: Seq<char>| #[trigger] self@.downloads.contains_key(k)
                ==> self@.downloads[k].file_path@ != path@,
            r matches Some(id) ==> self@.downloads.contains_key(id@)
                && self@.downloads[id@].file_path@ == path@,
    {
        proof {
            self.downloads.lemma_entries();
        }
        let p = string_of(&chars_of(path));
        let n = self.downloads.len();
        let mut i: usize = 0;
        while i < n
            invariant
                i <= n,
                n == self.downloads.entries().len(),
                p@ == path@,
                forall|j: int|
                    0 <= j < self.downloads.entries().len() ==> #[trigger] self.downloads@.contains_key(
                        self.downloads.entries()[j].0,
                    ) && self.downloads@[self.downloads.entries()[j].0]
                        == self.downloads.entries()[j].1,
                forall|j: int| 0 <= j < i ==> (#[trigger] self.downloads.entries()[j]).1.file_path@ != path@,
            decreases n - i,
        {
            let d = self.downloads.value_at(i);
            if d.file_path == p {
                let id = self.downloads.key_at(i).clone();
                assert(self.downloads@.contains_key(self.downloads.entries()[i as int].0));
                assert(self@.downloads.contains_key(id@) && self@.downloads[id@].file_path@ == path@);
                return Some(id);
            }
            i += 1;
        }
        proof {
            let es = self.downloads.entries();
            let ks = es.map_values(|e: (Seq<char>, DownloadTrack)| e.0);
            assert forall|k: Seq<char>| #[trigger] self.downloads@.contains_key(k) implies self.downloads@[k].file_path@ != path@ by {
                assert(ks.to_set().contains(k));
                let j = choose|j: int| 0 <= j < ks.len() && ks[j] == k;
                assert(self.downloads@.contains_key(es[j].0));
            }
        }
        None
    }

    /// Adds or replaces a song's catalogue row.
    pub fn put_download(&mut self, d: &DownloadTrack)
        requires
            old(self).wf(),
        ensures
            final(self).wf(),
            final(self)@ == (DbV {
                downloads: old(self)@.downloads.insert(d.video_id@, *d),
                ..old(self)@
            }),
    {
        let c = copy_download(d);
        self.downloads.put(d.video_id.as_str(), c);
    }

    /// Removes a song's catalogue row.
    pub fn delete_download(&mut self, video_id: &str)
        requires
            old(self).wf(),
        ensures
            final(self).wf(),
            final(self)@ == (DbV { downloads: old(self)@.downloads.remove(video_id@), ..old(self)@ }),
    {
        self.downloads.remove(video_id);
    }

    /// How much disk the offline library occupies: the sum of the rows' sizes, or 0 when that
    /// sum does not fit in an `i64`.
    pub fn downloads_total_bytes(&self) -> (r: i64)
        requires
            self.wf(),
        ensures
            r == (if i64::MIN <= sizes_total(self@.downloads) <= i64::MAX {
                sizes_total(self@.downloads)
            } else {
                0
            }),
    {
        proof {
            self.downloads.lemma_entries();
        }
        let n = self.downloads.len();
        let ghost m = self.downloads@;
        let ghost mut rest = m;
        let mut acc: i128 = 0;
        let mut i: usize = 0;
        while i < n
            invariant
                i <= n,
                n == self.downloads.entries().len(),
                m == self.downloads@,
                rest.dom().finite(),
                rest.dom().len() == n - i,
                forall|j: int| i <= j < n ==> #[trigger] rest.contains_key(self.downloads.entries()[j].0)
                    && rest[self.downloads.entries()[j].0] == self.downloads.entries()[j].1,
                acc + sizes_total(rest) == sizes_total(m),
                -(i as int) * 0x8000_0000_0000_0000 <= acc <= (i as int) * 0x8000_0000_0000_0000,
                self.downloads.entries().map_values(|e: (Seq<char>, DownloadTrack)| e.0).no_duplicates(),
            decreases n - i,
        {
            let d = self.downloads.value_at(i);
            let ghost k = self.downloads.entries()[i as int].0;
            proof {
                lemma_sizes_total_remove(rest, k);
                let ks = self.downloads.entries().map_values(|e: (Seq<char>, DownloadTrack)| e.0);
                assert forall|j: int| i + 1 <= j < n implies #[trigger] rest.remove(k).contains_key(
                    self.downloads.entries()[j].0,
                ) && rest.remove(k)[self.downloads.entries()[j].0] == self.downloads.entries()[j].1 by {
                    assert(ks[j] != ks[i as int]);
                    assert(rest.contains_key(self.downloads.entries()[j].0));
                }
                assert(-(i as int) * 0x8000_0000_0000_0000 - 0x8000_0000_0000_0000 == -((i + 1) as int) * 0x8000_0000_0000_0000) by (nonlinear_arith);
                assert((i as int) * 0x8000_0000_0000_0000 + 0x8000_0000_0000_0000 == ((i + 1) as int) * 0x8000_0000_0000_0000) by (nonlinear_arith);
                assert(((i + 1) as int) * 0x8000_0000_0000_0000 <= 0x1_0000_0000_0000_0000 * 0x8000_0000_0000_0000) by (nonlinear_arith)
                    requires i + 1 <= 0x1_0000_0000_0000_0000;
            }
            acc = acc + d.size_bytes as i128;
            proof {
                rest = rest.remove(k);
            }
            i += 1;
        }
        proof {
            assert(rest.dom() =~= Set::<Seq<char>>::empty());
        }
        if i64::MIN as i128 <= acc && acc <= i64::MAX as i128 {
            acc as i64
        } else {
            0
        }
    }

    /// Every catalogue row, newest first (by `added_at`; rows added at the same time in no
    /// particular order).
    pub fn list_downloads(&self) -> (r: Vec<DownloadTrack>)
        requires
            self.wf(),
        ensures
            r.len() == self@.downloads.dom().len(),
            forall|i: int| 0 <= i < r.len() ==> self@.downloads.contains_key((#[trigger] r@[i]).video_id@)
                && self@.downloads[r@[i].video_id@] == r@[i],
            forall|i: int, j: int| 0 <= i < j < r.len() ==> (#[trigger] r@[i]).video_id@ != (#[trigger] r@[j]).video_id@,
            forall|i: int, j: int| 0 <= i < j < r.len() ==> (#[trigger] r@[i]).added_at >= (#[trigger] r@[j]).added_at,
    {
        proof {
            self.downloads.lemma_entries();
        }
        let n = self.downloads.len();
        let ghost es = self.downloads.entries();
        let mut out: Vec<DownloadTrack> = Vec::new();
        let ghost mut idx: Seq<int> = Seq::empty();
        let mut i: usize = 0;
        while i < n
            invariant
                i <= n,
                n == es.len(),
                es == self.downloads.entries(),
                self.wf(),
                forall|j: int| 0 <= j < n ==> #[trigger] self.downloads@.contains_key(es[j].0)
                    && self.downloads@[es[j].0] == es[j].1,
                es.map_values(|e: (Seq<char>, DownloadTrack)| e.0).no_duplicates(),
                idx.len() == out.len() == i,
                forall|a: int| 0 <= a < i ==> 0 <= #[trigger] idx[a] < i && out@[a] == es[idx[a]].1,
                forall|a: int, b: int| 0 <= a < b < i ==> #[trigger] idx[a] != #[trigger] idx[b],
                forall|a: int, b: int| 0 <= a < b < i ==> (#[trigger] out@[a]).added_at >= (#[trigger] out@[b]).added_at,
            decreases n - i,
        {
            let d = copy_download(self.downloads.value_at(i));
            let p = newest_pos(&out, d.added_at);
            let ghost before = out@;
            let ghost ib = idx;
            out.insert(p, d);
            proof {
                idx = ib.insert(p as int, i as int);
                assert forall|a: int, b: int| 0 <= a < b < i + 1 implies (#[trigger] out@[a]).added_at >= (#[trigger] out@[b]).added_at by {
                    if b < p {
                        assert(out@[a] == before[a] && out@[b] == before[b]);
                    } else if b == p {
                        assert(out@[a] == before[a]);
                        if a < p - 1 {
                            assert(before[a].added_at >= before[p - 1].added_at);
                        }
                    } else if a > p {
                        assert(out@[a] == before[a - 1] && out@[b] == before[b - 1]);
                    } else if a == p {
                        assert(out@[b] == before[b - 1]);
                    } else {
                        assert(out@[a] == before[a] && out@[b] == before[b - 1]);
                    }
                }
                assert forall|a: int| 0 <= a < i + 1 implies 0 <= #[trigger] idx[a] < i + 1 && out@[a] == es[idx[a]].1 by {
                    if a < p {
                        assert(idx[a] == ib[a] && out@[a] == before[a]);
                    } else if a > p {
                        assert(idx[a] == ib[a - 1] && out@[a] == before[a - 1]);
                    }
                }
                assert forall|a: int, b: int| 0 <= a < b < i + 1 implies #[trigger] idx[a] != #[trigger] idx[b] by {
                    if a != p && b != p {
                        let a2 = if a < p { a } else { a - 1 };
                        let b2 = if b < p { b } else { b - 1 };
                        assert(idx[a] == ib[a2] && idx[b] == ib[b2]);
                    } else if a == p {
                        assert(idx[b] == ib[b - 1]);
                    } else {
                        assert(idx[a] == ib[a]);
                    }
                }
            }
            i += 1;
        }
        proof {
            let ks = es.map_values(|e: (Seq<char>, DownloadTrack)| e.0);
            assert forall|a: int| 0 <= a < out.len() implies self@.downloads.contains_key((#[trigger] out@[a]).video_id@)
                && self@.downloads[out@[a].video_id@] == out@[a] by {
                let j = idx[a];
                assert(self.downloads@.contains_key(es[j].0));
                assert(self.downloads@[es[j].0].video_id@ == es[j].0);
            }
            assert forall|a: int, b: int| 0 <= a < b < out.len() implies (#[trigger] out@[a]).video_id@ != (#[trigger] out@[b]).video_id@ by {
                let ja = idx[a];
                let jb = idx[b];
                assert(self.downloads@.contains_key(es[ja].0));
                assert(self.downloads@.contains_key(es[jb].0));
                assert(self.downloads@[es[ja].0].video_id@ == es[ja].0);
                assert(self.downloads@[es[jb].0].video_id@ == es[jb].0);
                assert(ks[ja] != ks[jb]);
            }
        }
        out
    }

    /// Wipes the play diary.
    pub fn clear_plays(&mut self)
        requires
            old(self).wf(),
        ensures
            final(self).wf(),
            final(self)@ == (DbV { plays: Seq::<PlayV>::empty(), ..old(self)@ }),
    {
        self.plays = Vec::new();
        assert(plays_view(self.plays@) =~= Seq::<PlayV>::empty());
    }

    /// Play count per song since `since`, in order of first play.
    pub fn play_counts(&self, since: i64) -> (r: Vec<(String, i64)>)
        ensures
            r@.map_values(|e: (String, i64)| (e.0@, e.1 as int)) == play_counts_spec(
                self@.plays,
                since as int,
            ),
    {
        play_counts_of(&self.plays, since)
    }
}

} // verus!
