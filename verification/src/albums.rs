//! The local library's album cards: one per album key, counting its tracks, showing the artwork
//! of a track that has some, ordered by title (case-insensitively).
use vstd::prelude::*;

use crate::db::LocalTrack;
use crate::local::{album_id_of, album_prefix, lowercase, to_lowercase};
use crate::lyrics::{clone_opt_string, clone_string, opt_string_view};
use crate::text::{append_chars, chars_eq, chars_of, dec_digits, dec_digits_exec, string_of};

verus! {

/// An album as the library shows it.
pub struct AlbumCard {
    /// The album's synthetic browseId.
    pub id: String,
    pub title: String,
    /// `"<artist> • <n> song(s)"`.
    pub subtitle: String,
    pub thumbnail: Option<String>,
}

pub struct CardV {
    pub id: Seq<char>,
    pub title: Seq<char>,
    pub subtitle: Seq<char>,
    pub thumbnail: Option<Seq<char>>,
}

impl View for AlbumCard {
    type V = CardV;

    open spec fn view(&self) -> CardV {
        CardV {
            id: self.id@,
            title: self.title@,
            subtitle: self.subtitle@,
            thumbnail: opt_string_view(self.thumbnail),
        }
    }
}

// ---------------------------------------------------------------------------------------------
// Grouping
// ---------------------------------------------------------------------------------------------

/// A group: the album key, how many tracks carry it, and the track that represents it.
pub type GroupV = (Seq<char>, nat, int);

/// Index of the group with key `k`, at or after `from`, or the number of groups.
pub open spec fn find_group(g: Seq<GroupV>, k: Seq<char>, from: int) -> int
    decreases g.len() - from,
{
    if from >= g.len() {
        g.len() as int
    } else if g[from].0 == k {
        from
    } else {
        find_group(g, k, from + 1)
    }
}

/// The groups of the first `n` tracks, in order of first appearance. A track joins its key's
/// group (a new one at the end when the key is new); it becomes the group's face when the
/// current face has no artwork and it does.
pub open spec fn groups(ts: Seq<LocalTrack>, n: int) -> Seq<GroupV>
    decreases n,
{
    if n <= 0 {
        seq![]
    } else {
        let g = groups(ts, n - 1);
        let t = ts[n - 1];
        let p = find_group(g, t.album_key@, 0);
        if p >= g.len() {
            g.push((t.album_key@, 1nat, n - 1))
        } else {
            let r = g[p].2;
            let r2 = if ts[r].cover is None && t.cover is Some {
                n - 1
            } else {
                r
            };
            g.update(p, (g[p].0, g[p].1 + 1, r2))
        }
    }
}

proof fn lemma_find_group(g: Seq<GroupV>, k: Seq<char>, from: int)
    requires
        0 <= from <= g.len(),
    ensures
        from <= find_group(g, k, from) <= g.len(),
        find_group(g, k, from) < g.len() ==> g[find_group(g, k, from)].0 == k,
    decreases g.len() - from,
{
    if from < g.len() && g[from].0 != k {
        lemma_find_group(g, k, from + 1);
    }
}

proof fn lemma_groups_shape(ts: Seq<LocalTrack>, n: int)
    requires
        0 <= n <= ts.len(),
    ensures
        groups(ts, n).len() <= n,
        forall|i: int| 0 <= i < groups(ts, n).len() ==> {
            let gi = #[trigger] groups(ts, n)[i];
            &&& 0 <= gi.2 < n
            &&& 1 <= gi.1 <= n
            &&& ts[gi.2].album_key@ == gi.0
        },
    decreases n,
{
    if n > 0 {
        lemma_groups_shape(ts, n - 1);
        let g = groups(ts, n - 1);
        lemma_find_group(g, ts[n - 1].album_key@, 0);
    }
}

pub open spec fn total_count(g: Seq<GroupV>) -> nat
    decreases g.len(),
{
    if g.len() == 0 {
        0
    } else {
        total_count(g.drop_last()) + g.last().1
    }
}

proof fn lemma_total_count_update(g: Seq<GroupV>, p: int, x: GroupV)
    requires
        0 <= p < g.len(),
    ensures
        total_count(g.update(p, x)) == total_count(g) - g[p].1 + x.1,
    decreases g.len(),
{
    if p == g.len() - 1 {
        assert(g.update(p, x).drop_last() =~= g.drop_last());
    } else {
        assert(g.update(p, x).drop_last() =~= g.drop_last().update(p, x));
        lemma_total_count_update(g.drop_last(), p, x);
    }
}

/// Every album gets exactly one card: the groups have distinct keys, every track's key has a
/// group, and the groups' counts add up to the number of tracks.
pub proof fn lemma_one_card_per_album(ts: Seq<LocalTrack>, n: int)
    requires
        0 <= n <= ts.len(),
    ensures
        forall|i: int, j: int| 0 <= i < j < groups(ts, n).len() ==> (#[trigger] groups(ts, n)[i]).0 != (#[trigger] groups(ts, n)[j]).0,
        forall|t: int| 0 <= t < n ==> exists|i: int| 0 <= i < groups(ts, n).len() && (#[trigger] groups(ts, n)[i]).0 == (#[trigger] ts[t]).album_key@,
        total_count(groups(ts, n)) == n,
    decreases n,
{
    if n > 0 {
        lemma_one_card_per_album(ts, n - 1);
        let g = groups(ts, n - 1);
        let k = ts[n - 1].album_key@;
        lemma_find_group(g, k, 0);
        let p = find_group(g, k, 0);
        let h = groups(ts, n);
        if p >= g.len() {
            assert forall|i: int| 0 <= i < g.len() implies g[i].0 != k by {
                if g[i].0 == k {
                    lemma_find_group_first(g, k, 0, i);
                }
            }
            assert(h == g.push((k, 1nat, n - 1)));
            assert(h.drop_last() =~= g);
            assert forall|t: int| 0 <= t < n implies exists|i: int| 0 <= i < h.len() && (#[trigger] h[i]).0 == (#[trigger] ts[t]).album_key@ by {
                if t < n - 1 {
                    let i = choose|i: int| 0 <= i < g.len() && (#[trigger] g[i]).0 == (#[trigger] ts[t]).album_key@;
                    assert(h[i] == g[i]);
                } else {
                    assert(h[g.len() as int].0 == k);
                }
            }
        } else {
            let r = g[p].2;
            let r2 = if ts[r].cover is None && ts[n - 1].cover is Some { n - 1 } else { r };
            assert(h == g.update(p, (g[p].0, g[p].1 + 1, r2)));
            lemma_total_count_update(g, p, (g[p].0, g[p].1 + 1, r2));
            assert forall|t: int| 0 <= t < n implies exists|i: int| 0 <= i < h.len() && (#[trigger] h[i]).0 == (#[trigger] ts[t]).album_key@ by {
                if t < n - 1 {
                    let i = choose|i: int| 0 <= i < g.len() && (#[trigger] g[i]).0 == (#[trigger] ts[t]).album_key@;
                    assert(h[i].0 == g[i].0);
                } else {
                    assert(h[p].0 == k);
                }
            }
            assert forall|i: int, j: int| 0 <= i < j < h.len() implies (#[trigger] h[i]).0 != (#[trigger] h[j]).0 by {
                assert(h[i].0 == g[i].0 && h[j].0 == g[j].0);
            }
        }
    }
}

proof fn lemma_find_group_first(g: Seq<GroupV>, k: Seq<char>, from: int, i: int)
    requires
        0 <= from <= i < g.len(),
        g[i].0 == k,
    ensures
        find_group(g, k, from) <= i,
    decreases i - from,
{
    if g[from].0 != k {
        lemma_find_group_first(g, k, from + 1, i);
    }
}

/// The subtitle of a card: `"<artist> • <n> song"`, plural unless `n` is 1.
pub open spec fn subtitle_spec(artist: Seq<char>, n: nat) -> Seq<char> {
    artist + seq![' ', '\u{2022}', ' '] + dec_digits(n) + seq![' ', 's', 'o', 'n', 'g'] + (if n == 1 {
        seq![]
    } else {
        seq!['s']
    })
}

/// The card of a group: its face track's album id, album and artwork.
pub open spec fn card_spec(ts: Seq<LocalTrack>, g: GroupV) -> CardV {
    let t = ts[g.2];
    CardV {
        id: album_prefix() + t.album_key@,
        title: t.album@,
        subtitle: subtitle_spec(t.artist@, g.1),
        thumbnail: opt_string_view(t.cover),
    }
}

// ---------------------------------------------------------------------------------------------
// Ordering
// ---------------------------------------------------------------------------------------------

/// `String`'s order: lexicographic by character (UTF-8 bytes compare the same way).
pub open spec fn text_lt(a: Seq<char>, b: Seq<char>) -> bool
    decreases a.len(),
{
    if a.len() == 0 {
        b.len() > 0
    } else if b.len() == 0 {
        false
    } else if a[0] != b[0] {
        a[0] < b[0]
    } else {
        text_lt(a.skip(1), b.skip(1))
    }
}

proof fn lemma_text_lt_asym(a: Seq<char>, b: Seq<char>)
    ensures
        !text_lt(a, a),
        text_lt(a, b) ==> !text_lt(b, a),
    decreases a.len(),
{
    if a.len() > 0 {
        lemma_text_lt_asym(a.skip(1), a.skip(1));
        if b.len() > 0 {
            lemma_text_lt_asym(a.skip(1), b.skip(1));
        }
    }
}

proof fn lemma_text_lt_trans(a: Seq<char>, b: Seq<char>, c: Seq<char>)
    ensures
        text_lt(a, b) && text_lt(b, c) ==> text_lt(a, c),
    decreases a.len(),
{
    if a.len() > 0 && b.len() > 0 && c.len() > 0 {
        lemma_text_lt_trans(a.skip(1), b.skip(1), c.skip(1));
    }
}

proof fn lemma_text_lt_total(a: Seq<char>, b: Seq<char>)
    ensures
        a != b ==> text_lt(a, b) || text_lt(b, a),
    decreases a.len(),
{
    if a.len() > 0 && b.len() > 0 {
        lemma_text_lt_total(a.skip(1), b.skip(1));
        if a != b && a[0] == b[0] {
            assert(a.skip(1) != b.skip(1)) by {
                if a.skip(1) == b.skip(1) {
                    assert(a =~= seq![a[0]] + a.skip(1));
                    assert(b =~= seq![b[0]] + b.skip(1));
                }
            }
        }
    }
    if a.len() == 0 && b.len() == 0 {
        assert(a =~= b);
    }
}

/// `text_lt` is a strict total order on texts.
pub proof fn lemma_text_lt_order(a: Seq<char>, b: Seq<char>, c: Seq<char>)
    ensures
        !text_lt(a, a),
        text_lt(a, b) ==> !text_lt(b, a),
        text_lt(a, b) && text_lt(b, c) ==> text_lt(a, c),
        a != b ==> text_lt(a, b) || text_lt(b, a),
{
    lemma_text_lt_asym(a, b);
    lemma_text_lt_trans(a, b, c);
    lemma_text_lt_total(a, b);
}

/// Where a card with sort key `k` goes: after every card whose key is not greater.
pub open spec fn card_pos(s: Seq<(Seq<char>, CardV)>, k: Seq<char>) -> int
    decreases s.len(),
{
    if s.len() == 0 {
        0
    } else if text_lt(k, s.last().0) {
        card_pos(s.drop_last(), k)
    } else {
        s.len() as int
    }
}

/// Stable sort by key, as insertion sort.
pub open spec fn sort_cards(s: Seq<(Seq<char>, CardV)>) -> Seq<(Seq<char>, CardV)>
    decreases s.len(),
{
    if s.len() == 0 {
        s
    } else {
        let sorted = sort_cards(s.drop_last());
        sorted.insert(card_pos(sorted, s.last().0), s.last())
    }
}

/// The album cards of a set of tracks: one per group, sorted by lowercased title.
pub open spec fn albums_spec(ts: Seq<LocalTrack>) -> Seq<CardV> {
    let cards = groups(ts, ts.len() as int).map_values(
        |g: GroupV| (lowercase(card_spec(ts, g).title), card_spec(ts, g)),
    );
    sort_cards(cards).map_values(|p: (Seq<char>, CardV)| p.1)
}

proof fn lemma_card_pos_bounds(s: Seq<(Seq<char>, CardV)>, k: Seq<char>)
    ensures
        0 <= card_pos(s, k) <= s.len(),
    decreases s.len(),
{
    if s.len() > 0 && text_lt(k, s.last().0) {
        lemma_card_pos_bounds(s.drop_last(), k);
    }
}

pub(crate) fn text_lt_exec(a: &Vec<char>, b: &Vec<char>) -> (r: bool)
    ensures
        r == text_lt(a@, b@),
{
    let mut i: usize = 0;
    assert(a@.skip(0) =~= a@ && b@.skip(0) =~= b@);
    while i < a.len() && i < b.len() && a[i] == b[i]
        invariant
            i <= a.len(),
            i <= b.len(),
            text_lt(a@, b@) == text_lt(a@.skip(i as int), b@.skip(i as int)),
        decreases a.len() - i,
    {
        assert(a@.skip(i as int).skip(1) =~= a@.skip(i + 1));
        assert(b@.skip(i as int).skip(1) =~= b@.skip(i + 1));
        i += 1;
    }
    if i == a.len() {
        i < b.len()
    } else if i == b.len() {
        false
    } else {
        a[i] < b[i]
    }
}

pub open spec fn keyed_view(v: Seq<(Vec<char>, AlbumCard)>) -> Seq<(Seq<char>, CardV)> {
    v.map_values(|p: (Vec<char>, AlbumCard)| (p.0@, p.1@))
}

fn card_pos_exec(v: &Vec<(Vec<char>, AlbumCard)>, k: &Vec<char>) -> (p: usize)
    ensures
        p == card_pos(keyed_view(v@), k@),
{
    let mut j = v.len();
    proof {
        lemma_card_pos_bounds(keyed_view(v@), k@);
        assert(v@.take(j as int) =~= v@);
    }
    while j > 0
        invariant
            j <= v.len(),
            card_pos(keyed_view(v@), k@) == card_pos(keyed_view(v@.take(j as int)), k@),
        decreases j,
    {
        let later = text_lt_exec(k, &v[j - 1].0);
        assert(keyed_view(v@.take(j as int)).last() == (v@[j - 1].0@, v@[j - 1].1@));
        if !later {
            return j;
        }
        assert(keyed_view(v@.take(j as int)).drop_last() =~= keyed_view(v@.take(j - 1)));
        j -= 1;
    }
    j
}

fn sort_cards_exec(v: Vec<(Vec<char>, AlbumCard)>) -> (r: Vec<(Vec<char>, AlbumCard)>)
    ensures
        keyed_view(r@) == sort_cards(keyed_view(v@)),
{
    let mut out: Vec<(Vec<char>, AlbumCard)> = Vec::new();
    let mut rest = v;
    let ghost orig = keyed_view(rest@);
    let ghost n = orig.len();
    assert(orig.take(0) =~= Seq::<(Seq<char>, CardV)>::empty());
    assert(orig.skip(0) =~= orig);
    while rest.len() > 0
        invariant
            n == orig.len(),
            rest.len() <= n,
            keyed_view(out@) == sort_cards(orig.take(n - rest.len())),
            keyed_view(rest@) == orig.skip(n - rest.len()),
        decreases rest.len(),
    {
        let ghost done = n - rest.len();
        let ghost rest_before = rest@;
        let x = rest.remove(0);
        proof {
            assert(keyed_view(rest_before)[0] == (x.0@, x.1@));
            assert(keyed_view(rest@) =~= keyed_view(rest_before).drop_first());
            assert(orig.skip(done).drop_first() =~= orig.skip(done + 1));
            assert(orig.take(done + 1).drop_last() =~= orig.take(done));
            assert(orig.take(done + 1).last() == orig[done]);
            assert(orig[done] == orig.skip(done)[0]);
            lemma_card_pos_bounds(keyed_view(out@), x.0@);
        }
        let p = card_pos_exec(&out, &x.0);
        let ghost before = out@;
        out.insert(p, x);
        proof {
            assert(keyed_view(out@) =~= keyed_view(before).insert(p as int, (x.0@, x.1@)));
        }
    }
    assert(orig.take(n as int) =~= orig);
    out
}

// ---------------------------------------------------------------------------------------------
// Cards
// ---------------------------------------------------------------------------------------------

pub open spec fn groups_view(v: Seq<(Vec<char>, usize, usize)>) -> Seq<GroupV> {
    v.map_values(|g: (Vec<char>, usize, usize)| (g.0@, g.1 as nat, g.2 as int))
}

fn groups_exec(ts: &Vec<LocalTrack>) -> (r: Vec<(Vec<char>, usize, usize)>)
    ensures
        groups_view(r@) == groups(ts@, ts@.len() as int),
{
    let mut g: Vec<(Vec<char>, usize, usize)> = Vec::new();
    let mut i: usize = 0;
    while i < ts.len()
        invariant
            i <= ts.len(),
            groups_view(g@) == groups(ts@, i as int),
        decreases ts.len() - i,
    {
        proof {
            lemma_groups_shape(ts@, i as int);
        }
        let key = chars_of(ts[i].album_key.as_str());
        let mut p: usize = 0;
        proof {
            lemma_find_group(groups_view(g@), key@, 0);
        }
        while p < g.len() && !chars_eq(&g[p].0, &key)
            invariant
                p <= g.len(),
                find_group(groups_view(g@), key@, p as int) == find_group(groups_view(g@), key@, 0),
            decreases g.len() - p,
        {
            assert(groups_view(g@)[p as int].0 == g@[p as int].0@);
            p += 1;
        }
        proof {
            if p < g.len() {
                assert(groups_view(g@)[p as int].0 == g@[p as int].0@);
            }
        }
        let ghost before = g@;
        if p >= g.len() {
            g.push((key, 1, i));
            assert(groups_view(g@) =~= groups_view(before).push((ts@[i as int].album_key@, 1nat, i as int)));
        } else {
            let r = g[p].2;
            let c = g[p].1;
            let r2 = if ts[r].cover.is_none() && ts[i].cover.is_some() {
                i
            } else {
                r
            };
            let k2 = clone_chars(&g[p].0);
            g.set(p, (k2, c + 1, r2));
            assert(groups_view(g@) =~= groups_view(before).update(
                p as int,
                (groups_view(before)[p as int].0, groups_view(before)[p as int].1 + 1, r2 as int),
            ));
        }
        i += 1;
    }
    g
}

fn clone_chars(v: &Vec<char>) -> (r: Vec<char>)
    ensures
        r@ == v@,
{
    let mut r: Vec<char> = Vec::new();
    let mut i: usize = 0;
    while i < v.len()
        invariant
            i <= v.len(),
            r@ == v@.take(i as int),
        decreases v.len() - i,
    {
        r.push(v[i]);
        assert(v@.take(i + 1) =~= v@.take(i as int).push(v@[i as int]));
        i += 1;
    }
    assert(v@.take(v.len() as int) =~= v@);
    r
}

fn card_of(t: &LocalTrack, n: usize) -> (c: AlbumCard)
    ensures
        c.id@ == album_prefix() + t.album_key@,
        c.title@ == t.album@,
        c.subtitle@ == subtitle_spec(t.artist@, n as nat),
        opt_string_view(c.thumbnail) == opt_string_view(t.cover),
{
    let mut s = chars_of(t.artist.as_str());
    let dot = vec![' ', '\u{2022}', ' '];
    append_chars(&mut s, &dot);
    append_chars(&mut s, &dec_digits_exec(n as u64));
    let song = vec![' ', 's', 'o', 'n', 'g'];
    append_chars(&mut s, &song);
    if n != 1 {
        s.push('s');
    }
    assert(s@ =~= subtitle_spec(t.artist@, n as nat));
    AlbumCard {
        id: album_id_of(t.album_key.as_str()),
        title: clone_string(&t.album),
        subtitle: string_of(&s),
        thumbnail: clone_opt_string(&t.cover),
    }
}

/// The album cards of the library's tracks (see `albums_spec`).
pub fn albums_of(ts: &Vec<LocalTrack>) -> (r: Vec<AlbumCard>)
    ensures
        r@.map_values(|c: AlbumCard| c@) == albums_spec(ts@),
{
    let g = groups_exec(ts);
    proof {
        lemma_groups_shape(ts@, ts@.len() as int);
    }
    let ghost gs = groups(ts@, ts@.len() as int);
    let mut keyed: Vec<(Vec<char>, AlbumCard)> = Vec::new();
    let mut i: usize = 0;
    while i < g.len()
        invariant
            i <= g.len(),
            gs == groups(ts@, ts@.len() as int),
            groups_view(g@) == gs,
            forall|j: int| 0 <= j < gs.len() ==> 0 <= (#[trigger] gs[j]).2 < ts@.len(),
            keyed_view(keyed@) == gs.take(i as int).map_values(
                |gv: GroupV| (lowercase(card_spec(ts@, gv).title), card_spec(ts@, gv)),
            ),
        decreases g.len() - i,
    {
        assert(groups_view(g@)[i as int] == (g@[i as int].0@, g@[i as int].1 as nat, g@[i as int].2 as int));
        let r = g[i].2;
        let card = card_of(&ts[r], g[i].1);
        let key = chars_of(to_lowercase(card.title.as_str()).as_str());
        let ghost before = keyed@;
        keyed.push((key, card));
        proof {
            let gv = gs[i as int];
            assert(card@ == card_spec(ts@, gv));
            assert(keyed_view(keyed@) =~= keyed_view(before).push((key@, card@)));
            assert(gs.take(i + 1).map_values(
                |gv: GroupV| (lowercase(card_spec(ts@, gv).title), card_spec(ts@, gv)),
            ) =~= gs.take(i as int).map_values(
                |gv: GroupV| (lowercase(card_spec(ts@, gv).title), card_spec(ts@, gv)),
            ).push((lowercase(card_spec(ts@, gv).title), card_spec(ts@, gv))));
        }
        i += 1;
    }
    assert(gs.take(g.len() as int) =~= gs);
    let sorted = sort_cards_exec(keyed);
    let mut out: Vec<AlbumCard> = Vec::new();
    let ghost sv = keyed_view(sorted@);
    let mut rest = sorted;
    let ghost n = sv.len();
    assert(sv.skip(0) =~= sv);
    while rest.len() > 0
        invariant
            n == sv.len(),
            rest.len() <= n,
            out@.map_values(|c: AlbumCard| c@) == sv.take(n - rest.len()).map_values(
                |p: (Seq<char>, CardV)| p.1,
            ),
            keyed_view(rest@) == sv.skip(n - rest.len()),
        decreases rest.len(),
    {
        let ghost done = n - rest.len();
        let ghost rb = rest@;
        let x = rest.remove(0);
        proof {
            assert(keyed_view(rb)[0] == (x.0@, x.1@));
            assert(keyed_view(rest@) =~= keyed_view(rb).drop_first());
            assert(sv.skip(done).drop_first() =~= sv.skip(done + 1));
            assert(sv[done] == sv.skip(done)[0]);
        }
        let ghost ob = out@;
        out.push(x.1);
        proof {
            assert(out@.map_values(|c: AlbumCard| c@) =~= ob.map_values(|c: AlbumCard| c@).push(
                x.1@,
            ));
            assert(sv.take(done + 1).map_values(|p: (Seq<char>, CardV)| p.1) =~= sv.take(
                done,
            ).map_values(|p: (Seq<char>, CardV)| p.1).push(sv[done].1));
        }
    }
    assert(sv.take(n as int) =~= sv);
    out
}

} // verus!
