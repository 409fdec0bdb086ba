//! The play diary behind On Repeat and History: one row per completed play, pruned to a trailing
//! window, grouped per song and ranked by how often and how recently it was played.
use vstd::prelude::*;

use crate::text::{ascii_lower, char_ascii_lower};

verus! {

/// One completed play. `song_json` is the serialized song, kept per row so a playlist can be
/// rebuilt from the diary alone.
pub struct PlayRow {
    pub video_id: String,
    pub played_at: i64,
    pub song_json: String,
}

/// A play as values: the song's id, when, and its metadata.
pub type PlayV = (Seq<char>, int, Seq<char>);

impl View for PlayRow {
    type V = PlayV;

    open spec fn view(&self) -> PlayV {
        (self.video_id@, self.played_at as int, self.song_json@)
    }
}

pub open spec fn plays_view(v: Seq<PlayRow>) -> Seq<PlayV> {
    v.map_values(|r: PlayRow| r@)
}

pub fn copy_play(r: &PlayRow) -> (c: PlayRow)
    ensures
        c@ == r@,
{
    PlayRow { video_id: r.video_id.clone(), played_at: r.played_at, song_json: r.song_json.clone() }
}

// ---------------------------------------------------------------------------------------------
// Grouping per song
// ---------------------------------------------------------------------------------------------

/// A song's plays: its id, how many plays, the latest play time, and the row that carries its
/// latest metadata.
pub type PlayGroup = (Seq<char>, nat, int, int);

/// Index of the group for song `k`, at or after `from`, or the number of groups.
pub open spec fn find_play_group(g: Seq<PlayGroup>, k: Seq<char>, from: int) -> int
    decreases g.len() - from,
{
    if from >= g.len() {
        g.len() as int
    } else if g[from].0 == k {
        from
    } else {
        find_play_group(g, k, from + 1)
    }
}

/// The songs played at or after `since` among the first `n` rows, in order of first play. Each
/// row in the window adds one to its song's count; the song's metadata comes from its latest
/// play (the later row when two plays share a time).
pub open spec fn play_groups(rows: Seq<PlayV>, since: int, n: int) -> Seq<PlayGroup>
    decreases n,
{
    if n <= 0 {
        seq![]
    } else {
        let g = play_groups(rows, since, n - 1);
        let r = rows[n - 1];
        if r.1 < since {
            g
        } else {
            let p = find_play_group(g, r.0, 0);
            if p >= g.len() {
                g.push((r.0, 1nat, r.1, n - 1))
            } else if r.1 >= g[p].2 {
                g.update(p, (g[p].0, g[p].1 + 1, r.1, n - 1))
            } else {
                g.update(p, (g[p].0, g[p].1 + 1, g[p].2, g[p].3))
            }
        }
    }
}

proof fn lemma_find_play_group(g: Seq<PlayGroup>, k: Seq<char>, from: int)
    requires
        0 <= from <= g.len(),
    ensures
        from <= find_play_group(g, k, from) <= g.len(),
        find_play_group(g, k, from) < g.len() ==> g[find_play_group(g, k, from)].0 == k,
        forall|j: int| from <= j < find_play_group(g, k, from) ==> g[j].0 != k,
    decreases g.len() - from,
{
    if from < g.len() && g[from].0 != k {
        lemma_find_play_group(g, k, from + 1);
    }
}

/// Every group points at a row of its own song inside the window, counts at most the rows
/// seen, and no song has two groups.
pub proof fn lemma_play_groups_shape(rows: Seq<PlayV>, since: int, n: int)
    requires
        0 <= n <= rows.len(),
    ensures
        play_groups(rows, since, n).len() <= n,
        forall|i: int| 0 <= i < play_groups(rows, since, n).len() ==> {
            let gi = #[trigger] play_groups(rows, since, n)[i];
            &&& 0 <= gi.3 < n
            &&& 1 <= gi.1 <= n
            &&& rows[gi.3].0 == gi.0
            &&& rows[gi.3].1 == gi.2
            &&& gi.2 >= since
        },
        forall|i: int, j: int|
            0 <= i < j < play_groups(rows, since, n).len() ==> #[trigger] play_groups(
                rows,
                since,
                n,
            )[i].0 != #[trigger] play_groups(rows, since, n)[j].0,
    decreases n,
{
    if n > 0 {
        lemma_play_groups_shape(rows, since, n - 1);
        let g = play_groups(rows, since, n - 1);
        lemma_find_play_group(g, rows[n - 1].0, 0);
        let g2 = play_groups(rows, since, n);
        assert forall|i: int, j: int| 0 <= i < j < g2.len() implies #[trigger] g2[i].0
            != #[trigger] g2[j].0 by {
            if j == g.len() {
                assert(g2[i].0 == g[i].0);
            } else {
                assert(g2[i].0 == g[i].0 && g2[j].0 == g[j].0);
            }
        }
    }
}

// ---------------------------------------------------------------------------------------------
// Ranking
// ---------------------------------------------------------------------------------------------

/// `a` ranks strictly ahead of `b`: more plays, or as many and played more recently.
pub open spec fn ranks_ahead(a: PlayGroup, b: PlayGroup) -> bool {
    a.1 > b.1 || (a.1 == b.1 && a.2 > b.2)
}

/// Where a group goes in a ranked list: after every group it does not rank ahead of.
pub open spec fn rank_pos(s: Seq<PlayGroup>, x: PlayGroup) -> int
    decreases s.len(),
{
    if s.len() == 0 {
        0
    } else if ranks_ahead(x, s.last()) {
        rank_pos(s.drop_last(), x)
    } else {
        s.len() as int
    }
}

/// The groups ranked, ties kept in order of first play (insertion sort).
pub open spec fn rank_groups(s: Seq<PlayGroup>) -> Seq<PlayGroup>
    decreases s.len(),
{
    if s.len() == 0 {
        s
    } else {
        let sorted = rank_groups(s.drop_last());
        sorted.insert(rank_pos(sorted, s.last()), s.last())
    }
}

proof fn lemma_rank_pos(s: Seq<PlayGroup>, x: PlayGroup)
    ensures
        0 <= rank_pos(s, x) <= s.len(),
        forall|j: int| rank_pos(s, x) <= j < s.len() ==> ranks_ahead(x, #[trigger] s[j]),
        rank_pos(s, x) > 0 ==> !ranks_ahead(x, s[rank_pos(s, x) - 1]),
    decreases s.len(),
{
    if s.len() > 0 && ranks_ahead(x, s.last()) {
        lemma_rank_pos(s.drop_last(), x);
        let p = rank_pos(s, x);
        assert forall|j: int| p <= j < s.len() implies ranks_ahead(x, #[trigger] s[j]) by {
            if j < s.len() - 1 {
                assert(s.drop_last()[j] == s[j]);
            }
        }
        if p > 0 {
            assert(s.drop_last()[p - 1] == s[p - 1]);
        }
    }
}

/// A list in rank order: no group ranks ahead of one listed before it.
pub open spec fn is_ranked(s: Seq<PlayGroup>) -> bool {
    forall|i: int, j: int| 0 <= i < j < s.len() ==> !ranks_ahead(#[trigger] s[j], #[trigger] s[i])
}

/// Ranking orders the groups and keeps each one exactly once.
pub proof fn lemma_rank_groups(s: Seq<PlayGroup>)
    ensures
        is_ranked(rank_groups(s)),
        rank_groups(s).to_multiset() =~= s.to_multiset(),
        rank_groups(s).len() == s.len(),
    decreases s.len(),
{
    broadcast use vstd::seq_lib::group_to_multiset_ensures;

    if s.len() > 0 {
        let t = rank_groups(s.drop_last());
        let x = s.last();
        lemma_rank_groups(s.drop_last());
        lemma_rank_pos(t, x);
        let p = rank_pos(t, x);
        let u = t.insert(p, x);
        assert forall|i: int, j: int| 0 <= i < j < u.len() implies !ranks_ahead(
            #[trigger] u[j],
            #[trigger] u[i],
        ) by {
            if j < p {
                assert(u[i] == t[i] && u[j] == t[j]);
            } else if j == p {
                assert(u[i] == t[i]);
                assert(!ranks_ahead(x, t[p - 1]));
                if i < p - 1 {
                    assert(!ranks_ahead(t[p - 1], t[i]));
                }
            } else if i > p {
                assert(u[i] == t[i - 1] && u[j] == t[j - 1]);
            } else if i == p {
                assert(u[j] == t[j - 1]);
                assert(ranks_ahead(x, t[j - 1]));
            } else {
                assert(u[i] == t[i] && u[j] == t[j - 1]);
            }
        }
        assert(s =~= s.drop_last().push(x));
        vstd::seq_lib::to_multiset_insert(t, p, x);
    }
}

// ---------------------------------------------------------------------------------------------
// Queries
// ---------------------------------------------------------------------------------------------

/// The most-played songs since `since`, at most `limit` of them, as `(song_json, play count)`:
/// ranked by plays, then by the latest play, each carrying its latest metadata.
pub open spec fn top_plays_spec(rows: Seq<PlayV>, since: int, limit: int) -> Seq<
    (Seq<char>, int),
> {
    let ranked = rank_groups(play_groups(rows, since, rows.len() as int));
    let n = if limit < ranked.len() {
        limit
    } else {
        ranked.len() as int
    };
    ranked.take(n).map_values(|g: PlayGroup| (rows[g.3].2, g.1 as i64 as int))
}

/// The diary newest first: by play time, the later row first when two share a time.
pub open spec fn recent_pos(s: Seq<PlayV>, x: PlayV) -> int
    decreases s.len(),
{
    if s.len() == 0 {
        0
    } else if x.1 > s.last().1 {
        recent_pos(s.drop_last(), x)
    } else {
        s.len() as int
    }
}

/// Insertion sort, newest first; the rows go in from the last one back, so among plays at the
/// same time the later row comes first.
pub open spec fn recent_sort(s: Seq<PlayV>) -> Seq<PlayV>
    decreases s.len(),
{
    if s.len() == 0 {
        s
    } else {
        let sorted = recent_sort(s.drop_first());
        sorted.insert(recent_pos(sorted, s[0]), s[0])
    }
}

/// The `limit` most recent plays as `(played_at, song_json)`; a negative limit means all of
/// them.
pub open spec fn recent_plays_spec(rows: Seq<PlayV>, limit: int) -> Seq<(int, Seq<char>)> {
    let sorted = recent_sort(rows);
    let n = if 0 <= limit < sorted.len() {
        limit
    } else {
        sorted.len() as int
    };
    sorted.take(n).map_values(|r: PlayV| (r.1, r.2))
}

/// Play count per song since `since`, in order of first play.
pub open spec fn play_counts_spec(rows: Seq<PlayV>, since: int) -> Seq<(Seq<char>, int)> {
    play_groups(rows, since, rows.len() as int).map_values(
        |g: PlayGroup| (g.0, g.1 as i64 as int),
    )
}

/// The diary pruned to the window: the rows played at or after `cutoff`, in order.
pub open spec fn prune_spec(rows: Seq<PlayV>, cutoff: int) -> Seq<PlayV> {
    rows.filter(|r: PlayV| r.1 >= cutoff)
}

/// Recording a play: the row goes in, then everything before `now - window` goes out.
pub open spec fn record_spec(
    rows: Seq<PlayV>,
    video_id: Seq<char>,
    song_json: Seq<char>,
    now: int,
    window: int,
) -> Seq<PlayV> {
    prune_spec(rows.push((video_id, now, song_json)), now - window)
}

proof fn lemma_recent_pos(s: Seq<PlayV>, x: PlayV)
    ensures
        0 <= recent_pos(s, x) <= s.len(),
    decreases s.len(),
{
    if s.len() > 0 && x.1 > s.last().1 {
        lemma_recent_pos(s.drop_last(), x);
    }
}

proof fn lemma_recent_sort_len(s: Seq<PlayV>)
    ensures
        recent_sort(s).len() == s.len(),
    decreases s.len(),
{
    if s.len() > 0 {
        lemma_recent_sort_len(s.drop_first());
        lemma_recent_pos(recent_sort(s.drop_first()), s[0]);
    }
}

/// Recording a play keeps exactly the earlier plays inside the window, in order, followed by
/// the new play itself unless the window is negative; so no play older than `now - window`
/// survives.
pub proof fn lemma_record_play_window(
    rows: Seq<PlayV>,
    video_id: Seq<char>,
    song_json: Seq<char>,
    now: int,
    window: int,
)
    ensures
        record_spec(rows, video_id, song_json, now, window) == prune_spec(rows, now - window) + (
        if window >= 0 {
            seq![(video_id, now, song_json)]
        } else {
            Seq::<PlayV>::empty()
        }),
        forall|i: int|
            0 <= i < record_spec(rows, video_id, song_json, now, window).len() ==> (
            #[trigger] record_spec(rows, video_id, song_json, now, window)[i]).1 >= now - window,
{
    reveal(Seq::filter);
    let p = |r: PlayV| r.1 >= now - window;
    let pushed = rows.push((video_id, now, song_json));
    assert(pushed.drop_last() =~= rows);
    let out = record_spec(rows, video_id, song_json, now, window);
    assert(out =~= prune_spec(rows, now - window) + (if window >= 0 {
        seq![(video_id, now, song_json)]
    } else {
        Seq::<PlayV>::empty()
    }));
    assert forall|i: int| 0 <= i < out.len() implies (#[trigger] out[i]).1 >= now - window by {
        pushed.lemma_filter_pred(p, i);
    }
}

/// On Repeat's order: the songs come most-played first, each with at least one play, and never
/// more than `limit` of them.
pub proof fn lemma_top_plays_ranked(rows: Seq<PlayV>, since: int, limit: int)
    requires
        rows.len() <= i64::MAX,
        0 <= limit,
    ensures
        top_plays_spec(rows, since, limit).len() <= limit,
        forall|i: int|
            0 <= i < top_plays_spec(rows, since, limit).len() ==> (#[trigger] top_plays_spec(
                rows,
                since,
                limit,
            )[i]).1 >= 1,
        forall|i: int, j: int|
            0 <= i < j < top_plays_spec(rows, since, limit).len() ==> (#[trigger] top_plays_spec(
                rows,
                since,
                limit,
            )[i]).1 >= (#[trigger] top_plays_spec(rows, since, limit)[j]).1,
{
    broadcast use vstd::seq_lib::group_to_multiset_ensures;

    let gs = play_groups(rows, since, rows.len() as int);
    lemma_play_groups_shape(rows, since, rows.len() as int);
    lemma_rank_groups(gs);
    let ranked = rank_groups(gs);
    let out = top_plays_spec(rows, since, limit);
    assert forall|i: int| 0 <= i < ranked.len() implies 1 <= (#[trigger] ranked[i]).1 <= rows.len() by {
        assert(ranked.contains(ranked[i]));
        assert(ranked.to_multiset().count(ranked[i]) > 0);
        assert(gs.contains(ranked[i]));
    }
    let n = if limit < ranked.len() {
        limit
    } else {
        ranked.len() as int
    };
    assert(out.len() == n);
    assert forall|i: int| 0 <= i < out.len() implies (#[trigger] out[i]) == (
    rows[ranked[i].3].2, ranked[i].1 as i64 as int) by {
        assert(ranked.take(n)[i] == ranked[i]);
    }
    assert forall|i: int| 0 <= i < out.len() implies (#[trigger] out[i]).1 >= 1 by {
        assert(out[i].1 == ranked[i].1 as i64 as int);
    }
    assert forall|i: int, j: int| 0 <= i < j < out.len() implies (#[trigger] out[i]).1 >= (
    #[trigger] out[j]).1 by {
        assert(out[i].1 == ranked[i].1 as i64 as int);
        assert(out[j].1 == ranked[j].1 as i64 as int);
        assert(!ranks_ahead(ranked[j], ranked[i]));
    }
}

/// Dropping local plays leaves no local play behind and keeps every other play, in order.
pub proof fn lemma_local_plays_dropped(rows: Seq<PlayV>)
    ensures
        forall|i: int|
            0 <= i < without_local_spec(rows).len() ==> !is_local_play(
                (#[trigger] without_local_spec(rows)[i]).0,
            ),
        forall|i: int|
            0 <= i < rows.len() && !is_local_play(rows[i].0) ==> without_local_spec(rows).contains(
                #[trigger] rows[i],
            ),
{
    let p = |r: PlayV| !is_local_play(r.0);
    assert forall|i: int| 0 <= i < without_local_spec(rows).len() implies !is_local_play(
        (#[trigger] without_local_spec(rows)[i]).0,
    ) by {
        rows.lemma_filter_pred(p, i);
    }
    assert forall|i: int| 0 <= i < rows.len() && !is_local_play(rows[i].0) implies without_local_spec(
        rows,
    ).contains(#[trigger] rows[i]) by {
        rows.lemma_filter_contains(p, i);
    }
}

// ---------------------------------------------------------------------------------------------
// Executable queries over the rows
// ---------------------------------------------------------------------------------------------

pub open spec fn groups_view(v: Seq<(String, usize, i64, usize)>) -> Seq<PlayGroup> {
    v.map_values(|g: (String, usize, i64, usize)| (g.0@, g.1 as nat, g.2 as int, g.3 as int))
}

fn group_plays(rows: &Vec<PlayRow>, since: i64) -> (r: Vec<(String, usize, i64, usize)>)
    ensures
        groups_view(r@) == play_groups(plays_view(rows@), since as int, rows@.len() as int),
{
    let ghost pv = plays_view(rows@);
    let mut g: Vec<(String, usize, i64, usize)> = Vec::new();
    let mut i: usize = 0;
    while i < rows.len()
        invariant
            i <= rows.len(),
            pv == plays_view(rows@),
            groups_view(g@) == play_groups(pv, since as int, i as int),
        decreases rows.len() - i,
    {
        proof {
            lemma_play_groups_shape(pv, since as int, i as int);
        }
        let ghost gv = groups_view(g@);
        assert(pv[i as int] == rows@[i as int]@);
        if rows[i].played_at >= since {
            let mut p: usize = 0;
            proof {
                lemma_find_play_group(gv, pv[i as int].0, 0);
            }
            while p < g.len() && g[p].0 != rows[i].video_id
                invariant
                    p <= g.len(),
                    i < rows.len(),
                    gv == groups_view(g@),
                    find_play_group(gv, pv[i as int].0, p as int) == find_play_group(
                        gv,
                        pv[i as int].0,
                        0,
                    ),
                    pv[i as int] == rows@[i as int]@,
                decreases g.len() - p,
            {
                assert(gv[p as int].0 == g@[p as int].0@);
                p += 1;
            }
            proof {
                if p < g.len() {
                    assert(gv[p as int].0 == g@[p as int].0@);
                }
            }
            let ghost before = g@;
            if p >= g.len() {
                g.push((rows[i].video_id.clone(), 1, rows[i].played_at, i));
                assert(groups_view(g@) =~= gv.push((pv[i as int].0, 1nat, pv[i as int].1, i as int)));
            } else {
                let c = g[p].1;
                let last = g[p].2;
                let ix = g[p].3;
                let k = g[p].0.clone();
                if rows[i].played_at >= last {
                    g.set(p, (k, c + 1, rows[i].played_at, i));
                    assert(groups_view(g@) =~= gv.update(
                        p as int,
                        (gv[p as int].0, gv[p as int].1 + 1, pv[i as int].1, i as int),
                    ));
                } else {
                    g.set(p, (k, c + 1, last, ix));
                    assert(groups_view(g@) =~= gv.update(
                        p as int,
                        (gv[p as int].0, gv[p as int].1 + 1, gv[p as int].2, gv[p as int].3),
                    ));
                }
            }
        }
        i += 1;
    }
    g
}

fn rank_pos_exec(v: &Vec<(String, usize, i64, usize)>, x: &(String, usize, i64, usize)) -> (p: usize)
    ensures
        p == rank_pos(groups_view(v@), (x.0@, x.1 as nat, x.2 as int, x.3 as int)),
{
    let ghost xv = (x.0@, x.1 as nat, x.2 as int, x.3 as int);
    let mut j = v.len();
    proof {
        lemma_rank_pos(groups_view(v@), xv);
        assert(v@.take(j as int) =~= v@);
    }
    while j > 0
        invariant
            j <= v.len(),
            xv == (x.0@, x.1 as nat, x.2 as int, x.3 as int),
            rank_pos(groups_view(v@), xv) == rank_pos(groups_view(v@.take(j as int)), xv),
        decreases j,
    {
        let y = &v[j - 1];
        let ahead = x.1 > y.1 || (x.1 == y.1 && x.2 > y.2);
        assert(groups_view(v@.take(j as int)).last() == groups_view(v@)[j - 1]);
        assert(groups_view(v@)[j - 1] == (y.0@, y.1 as nat, y.2 as int, y.3 as int));
        assert(ahead == ranks_ahead(xv, groups_view(v@.take(j as int)).last()));
        if !ahead {
            return j;
        }
        assert(groups_view(v@.take(j as int)).drop_last() =~= groups_view(v@.take(j - 1)));
        j -= 1;
    }
    j
}

fn rank_exec(v: Vec<(String, usize, i64, usize)>) -> (r: Vec<(String, usize, i64, usize)>)
    ensures
        groups_view(r@) == rank_groups(groups_view(v@)),
{
    let mut out: Vec<(String, usize, i64, usize)> = Vec::new();
    let mut rest = v;
    let ghost orig = groups_view(rest@);
    let ghost n = orig.len();
    assert(orig.take(0) =~= Seq::<PlayGroup>::empty());
    assert(orig.skip(0) =~= orig);
    while rest.len() > 0
        invariant
            n == orig.len(),
            rest.len() <= n,
            groups_view(out@) == rank_groups(orig.take(n - rest.len())),
            groups_view(rest@) == orig.skip(n - rest.len()),
        decreases rest.len(),
    {
        let ghost done = n - rest.len();
        let ghost rest_before = rest@;
        let x = rest.remove(0);
        let ghost xv = (x.0@, x.1 as nat, x.2 as int, x.3 as int);
        proof {
            assert(groups_view(rest_before)[0] == xv);
            assert(groups_view(rest@) =~= groups_view(rest_before).drop_first());
            assert(orig.skip(done).drop_first() =~= orig.skip(done + 1));
            assert(orig.take(done + 1).drop_last() =~= orig.take(done));
            assert(orig.take(done + 1).last() == orig[done]);
            assert(orig[done] == orig.skip(done)[0]);
            lemma_rank_pos(groups_view(out@), xv);
        }
        let p = rank_pos_exec(&out, &x);
        let ghost before = out@;
        out.insert(p, x);
        proof {
            assert(groups_view(out@) =~= groups_view(before).insert(p as int, xv));
        }
    }
    assert(orig.take(n as int) =~= orig);
    out
}

/// The most-played songs since `since`, at most `limit`, as `(song_json, play count)`.
pub fn top_plays_of(rows: &Vec<PlayRow>, since: i64, limit: usize) -> (r: Vec<(String, i64)>)
    ensures
        r@.map_values(|e: (String, i64)| (e.0@, e.1 as int)) == top_plays_spec(
            plays_view(rows@),
            since as int,
            limit as int,
        ),
{
    let ghost pv = plays_view(rows@);
    let groups = group_plays(rows, since);
    proof {
        lemma_play_groups_shape(pv, since as int, rows@.len() as int);
        lemma_rank_groups(groups_view(groups@));
    }
    let ranked = rank_exec(groups);
    let ghost rv = groups_view(ranked@);
    proof {
        broadcast use vstd::seq_lib::group_to_multiset_ensures;

        assert forall|i: int| 0 <= i < rv.len() implies 0 <= (#[trigger] rv[i]).3 < rows@.len() by {
            let gs = play_groups(pv, since as int, rows@.len() as int);
            assert(rv.contains(rv[i]));
            assert(rv.to_multiset().count(rv[i]) > 0);
            assert(gs.contains(rv[i]));
            let k = choose|k: int| 0 <= k < gs.len() && gs[k] == rv[i];
            assert(gs[k].3 < rows@.len());
        }
    }
    let n = if limit < ranked.len() {
        limit
    } else {
        ranked.len()
    };
    let mut out: Vec<(String, i64)> = Vec::new();
    let mut i: usize = 0;
    while i < n
        invariant
            i <= n,
            n <= ranked.len(),
            rv == groups_view(ranked@),
            pv == plays_view(rows@),
            forall|k: int| 0 <= k < rv.len() ==> 0 <= (#[trigger] rv[k]).3 < rows@.len(),
            out@.map_values(|e: (String, i64)| (e.0@, e.1 as int)) == rv.take(i as int).map_values(
                |g: PlayGroup| (pv[g.3].2, g.1 as i64 as int),
            ),
        decreases n - i,
    {
        let g = &ranked[i];
        assert(rv[i as int] == (g.0@, g.1 as nat, g.2 as int, g.3 as int));
        assert(0 <= rv[i as int].3 < rows@.len());
        let json = rows[g.3].song_json.clone();
        assert(pv[g.3 as int] == rows@[g.3 as int]@);
        let ghost before = out@;
        out.push((json, g.1 as i64));
        proof {
            assert(rv.take(i + 1) =~= rv.take(i as int).push(rv[i as int]));
            assert(out@.map_values(|e: (String, i64)| (e.0@, e.1 as int)) =~= before.map_values(
                |e: (String, i64)| (e.0@, e.1 as int),
            ).push((json@, g.1 as i64 as int)));
        }
        i += 1;
    }
    out
}

/// Play count per song since `since`, in order of first play.
pub fn play_counts_of(rows: &Vec<PlayRow>, since: i64) -> (r: Vec<(String, i64)>)
    ensures
        r@.map_values(|e: (String, i64)| (e.0@, e.1 as int)) == play_counts_spec(
            plays_view(rows@),
            since as int,
        ),
{
    let groups = group_plays(rows, since);
    let ghost gv = groups_view(groups@);
    let mut out: Vec<(String, i64)> = Vec::new();
    let mut i: usize = 0;
    while i < groups.len()
        invariant
            i <= groups.len(),
            gv == groups_view(groups@),
            out@.map_values(|e: (String, i64)| (e.0@, e.1 as int)) == gv.take(i as int).map_values(
                |g: PlayGroup| (g.0, g.1 as i64 as int),
            ),
        decreases groups.len() - i,
    {
        let g = &groups[i];
        assert(gv[i as int] == (g.0@, g.1 as nat, g.2 as int, g.3 as int));
        let ghost before = out@;
        out.push((g.0.clone(), g.1 as i64));
        proof {
            assert(gv.take(i + 1) =~= gv.take(i as int).push(gv[i as int]));
            assert(out@.map_values(|e: (String, i64)| (e.0@, e.1 as int)) =~= before.map_values(
                |e: (String, i64)| (e.0@, e.1 as int),
            ).push((g.0@, g.1 as i64 as int)));
        }
        i += 1;
    }
    assert(gv.take(gv.len() as int) =~= gv);
    out
}

/// The rows played at or after `cutoff`, in order.
pub fn prune_plays(rows: &Vec<PlayRow>, cutoff: i64) -> (r: Vec<PlayRow>)
    ensures
        plays_view(r@) == prune_spec(plays_view(rows@), cutoff as int),
{
    let ghost pv = plays_view(rows@);
    let mut out: Vec<PlayRow> = Vec::new();
    let mut i: usize = 0;
    assert(pv.take(0) =~= Seq::<PlayV>::empty());
    proof {
        reveal(Seq::filter);
    }
    while i < rows.len()
        invariant
            i <= rows.len(),
            pv == plays_view(rows@),
            plays_view(out@) == prune_spec(pv.take(i as int), cutoff as int),
        decreases rows.len() - i,
    {
        proof {
            reveal(Seq::filter);
            assert(pv.take(i + 1).drop_last() =~= pv.take(i as int));
            assert(pv.take(i + 1).last() == rows@[i as int]@);
        }
        let ghost before = out@;
        if rows[i].played_at >= cutoff {
            out.push(copy_play(&rows[i]));
            assert(plays_view(out@) =~= plays_view(before).push(rows@[i as int]@));
        }
        i += 1;
    }
    assert(pv.take(rows@.len() as int) =~= pv);
    out
}

fn recent_pos_exec(v: &Vec<PlayRow>, x: &PlayRow) -> (p: usize)
    ensures
        p == recent_pos(plays_view(v@), x@),
{
    let mut j = v.len();
    proof {
        lemma_recent_pos(plays_view(v@), x@);
        assert(v@.take(j as int) =~= v@);
    }
    while j > 0
        invariant
            j <= v.len(),
            recent_pos(plays_view(v@), x@) == recent_pos(plays_view(v@.take(j as int)), x@),
        decreases j,
    {
        assert(plays_view(v@.take(j as int)).last() == v@[j - 1]@);
        if x.played_at <= v[j - 1].played_at {
            return j;
        }
        assert(plays_view(v@.take(j as int)).drop_last() =~= plays_view(v@.take(j - 1)));
        j -= 1;
    }
    j
}

/// The `limit` most recent plays as `(played_at, song_json)`, newest first; a negative limit
/// means all of them.
pub fn recent_plays_of(rows: &Vec<PlayRow>, limit: i64) -> (r: Vec<(i64, String)>)
    ensures
        r@.map_values(|e: (i64, String)| (e.0 as int, e.1@)) == recent_plays_spec(
            plays_view(rows@),
            limit as int,
        ),
{
    let ghost pv = plays_view(rows@);
    let mut sorted: Vec<PlayRow> = Vec::new();
    let mut i: usize = rows.len();
    assert(pv.skip(pv.len() as int) =~= Seq::<PlayV>::empty());
    while i > 0
        invariant
            i <= rows.len(),
            pv == plays_view(rows@),
            plays_view(sorted@) == recent_sort(pv.skip(i as int)),
        decreases i,
    {
        let x = copy_play(&rows[i - 1]);
        proof {
            assert(pv.skip(i - 1).drop_first() =~= pv.skip(i as int));
            assert(pv.skip(i - 1)[0] == x@);
            lemma_recent_pos(plays_view(sorted@), x@);
        }
        let j = recent_pos_exec(&sorted, &x);
        let ghost before = sorted@;
        sorted.insert(j, x);
        proof {
            assert(plays_view(sorted@) =~= plays_view(before).insert(j as int, x@));
        }
        i -= 1;
    }
    assert(pv.skip(0) =~= pv);
    proof {
        lemma_recent_sort_len(pv);
    }
    let n: usize = if 0 <= limit && (limit as u64 as u128) < (sorted.len() as u128) {
        limit as u64 as usize
    } else {
        sorted.len()
    };
    let ghost sv = plays_view(sorted@);
    let mut out: Vec<(i64, String)> = Vec::new();
    let mut k: usize = 0;
    while k < n
        invariant
            k <= n,
            n <= sorted.len(),
            sv == plays_view(sorted@),
            out@.map_values(|e: (i64, String)| (e.0 as int, e.1@)) == sv.take(k as int).map_values(
                |r: PlayV| (r.1, r.2),
            ),
        decreases n - k,
    {
        let ghost before = out@;
        out.push((sorted[k].played_at, sorted[k].song_json.clone()));
        proof {
            assert(sv[k as int] == sorted@[k as int]@);
            assert(sv.take(k + 1) =~= sv.take(k as int).push(sv[k as int]));
            assert(out@.map_values(|e: (i64, String)| (e.0 as int, e.1@)) =~= before.map_values(
                |e: (i64, String)| (e.0 as int, e.1@),
            ).push((sv[k as int].1, sv[k as int].2)));
        }
        k += 1;
    }
    out
}

/// `local:` in lower case.
pub open spec fn local_tag() -> Seq<char> {
    seq!['l', 'o', 'c', 'a', 'l', ':']
}

/// A local file's song id, as SQL's `LIKE 'LOCAL:%'` matches it: the prefix in any ASCII case.
pub open spec fn is_local_play(id: Seq<char>) -> bool {
    id.len() >= 6 && id.take(6).map_values(|c: char| ascii_lower(c)) == local_tag()
}

/// The diary without plays of local files.
pub open spec fn without_local_spec(rows: Seq<PlayV>) -> Seq<PlayV> {
    rows.filter(|r: PlayV| !is_local_play(r.0))
}

fn is_local_play_exec(id: &String) -> (b: bool)
    ensures
        b == is_local_play(id@),
{
    let v = crate::text::chars_of(id.as_str());
    if v.len() < 6 {
        return false;
    }
    let tag = ['l', 'o', 'c', 'a', 'l', ':'];
    let mut i: usize = 0;
    while i < 6
        invariant
            i <= 6,
            v@ == id@,
            v@.len() >= 6,
            tag@ == local_tag(),
            forall|j: int| 0 <= j < i ==> ascii_lower(#[trigger] v@[j]) == local_tag()[j],
        decreases 6 - i,
    {
        if char_ascii_lower(v[i]) != tag[i] {
            assert(v@.take(6).map_values(|c: char| ascii_lower(c))[i as int] != local_tag()[i as int]);
            return false;
        }
        i += 1;
    }
    assert(v@.take(6).map_values(|c: char| ascii_lower(c)) =~= local_tag());
    true
}

/// The rows that are not plays of local files, in order.
pub fn without_local_plays(rows: &Vec<PlayRow>) -> (r: Vec<PlayRow>)
    ensures
        plays_view(r@) == without_local_spec(plays_view(rows@)),
{
    let ghost pv = plays_view(rows@);
    let mut out: Vec<PlayRow> = Vec::new();
    let mut i: usize = 0;
    assert(pv.take(0) =~= Seq::<PlayV>::empty());
    proof {
        reveal(Seq::filter);
    }
    while i < rows.len()
        invariant
            i <= rows.len(),
            pv == plays_view(rows@),
            plays_view(out@) == without_local_spec(pv.take(i as int)),
        decreases rows.len() - i,
    {
        proof {
            reveal(Seq::filter);
            assert(pv.take(i + 1).drop_last() =~= pv.take(i as int));
            assert(pv.take(i + 1).last() == rows@[i as int]@);
        }
        let ghost before = out@;
        if !is_local_play_exec(&rows[i].video_id) {
            out.push(copy_play(&rows[i]));
            assert(plays_view(out@) =~= plays_view(before).push(rows@[i as int]@));
        }
        i += 1;
    }
    assert(pv.take(rows@.len() as int) =~= pv);
    out
}

} // verus!
