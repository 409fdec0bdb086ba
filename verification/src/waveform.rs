//! The seek bar's waveform: stored bars stretched or squeezed to the width the UI asks for.
use vstd::prelude::*;

verus! {

/// Nearest-neighbour resampling: bar `i` of the result is stored bar `i * len / count`; an
/// empty store, or one already of the right width, is returned as it is.
pub open spec fn resample_spec(stored: Seq<u8>, count: nat) -> Seq<u8> {
    if stored.len() == count || stored.len() == 0 {
        stored
    } else {
        Seq::new(count, |i: int| stored[(i * stored.len()) / (count as int)])
    }
}

/// Resamples stored bars to `count` bars (see `resample_spec`).
pub fn resample(stored: &[u8], count: usize) -> (r: Vec<u8>)
    requires
        count * stored@.len() <= usize::MAX,
    ensures
        r@ == resample_spec(stored@, count as nat),
{
    let n = stored.len();
    if n == count || n == 0 {
        let mut v: Vec<u8> = Vec::new();
        let mut k: usize = 0;
        while k < n
            invariant
                k <= n,
                n == stored@.len(),
                v@ == stored@.take(k as int),
            decreases n - k,
        {
            v.push(stored[k]);
            assert(stored@.take(k + 1) =~= stored@.take(k as int).push(stored@[k as int]));
            k += 1;
        }
        assert(stored@.take(n as int) =~= stored@);
        return v;
    }
    let mut out: Vec<u8> = Vec::new();
    let mut i: usize = 0;
    while i < count
        invariant
            i <= count,
            n == stored@.len(),
            n > 0,
            count * n <= usize::MAX,
            out@.len() == i,
            forall|j: int| 0 <= j < i ==> #[trigger] out@[j] == stored@[(j * n) / (count as int)],
        decreases count - i,
    {
        assert(i * n <= count * n) by (nonlinear_arith)
            requires
                i < count,
        ;
        let idx = (i * n) / count;
        assert(idx < n) by (nonlinear_arith)
            requires
                i < count,
                idx == (i * n) / (count as int),
                n > 0,
        ;
        out.push(stored[idx]);
        i += 1;
    }
    assert(out@ =~= resample_spec(stored@, count as nat));
    out
}

/// Bars stored per track; the UI resamples to whatever width it needs.
pub const WAVEFORM_BARS: usize = 120;

/// The width asked for: `count`, or [`WAVEFORM_BARS`] when none is given, kept within 24..=240.
pub open spec fn bar_count_spec(count: Option<u32>) -> nat {
    let c = match count {
        Some(c) => c as int,
        None => WAVEFORM_BARS as int,
    };
    if c < 24 {
        24
    } else if c > 240 {
        240
    } else {
        c as nat
    }
}

pub fn bar_count(count: Option<u32>) -> (n: usize)
    ensures
        n == bar_count_spec(count),
        24 <= n <= 240,
{
    let c: u32 = match count {
        Some(c) => c,
        None => 120,
    };
    if c < 24 {
        24
    } else if c > 240 {
        240
    } else {
        c as usize
    }
}

/// Peaks from the stored waveform, resampled to the asked width, when a non-empty one is
/// stored (and small enough to resample without overflow); `None` means compute them.
pub fn cached_peaks(db: &crate::db::Db, video_id: &str, count: Option<u32>) -> (r: Option<Vec<u8>>)
    requires
        db.wf(),
    ensures
        r matches Some(p) ==> db@.waveforms.contains_key(video_id@) && db@.waveforms[video_id@].0.len() > 0
            && p@ == resample_spec(db@.waveforms[video_id@].0, bar_count_spec(count)),
        r is None ==> !db@.waveforms.contains_key(video_id@) || db@.waveforms[video_id@].0.len() == 0
            || db@.waveforms[video_id@].0.len() * bar_count_spec(count) > usize::MAX,
{
    let n = bar_count(count);
    match db.get_waveform(video_id) {
        Some((stored, _)) => {
            if stored.len() == 0 {
                return None;
            }
            if stored.len() > usize::MAX / n {
                assert(stored@.len() * n > usize::MAX) by (nonlinear_arith)
                    requires
                        stored@.len() > usize::MAX / n,
                        n > 0,
                ;
                return None;
            }
            assert(n * stored@.len() <= usize::MAX) by (nonlinear_arith)
                requires
                    stored@.len() <= usize::MAX / n,
                    n > 0,
            ;
            Some(resample(&stored, n))
        },
        None => None,
    }
}

/// Stores freshly computed peaks for a song and returns them at the asked width.
pub fn store_peaks(db: &mut crate::db::Db, video_id: &str, peaks: &[u8], count: Option<u32>) -> (r: Vec<u8>)
    requires
        old(db).wf(),
        peaks@.len() * 240 <= usize::MAX,
    ensures
        final(db).wf(),
        final(db)@ == (crate::db::DbV {
            waveforms: old(db)@.waveforms.insert(video_id@, (peaks@, WAVEFORM_BARS as i64)),
            ..old(db)@
        }),
        r@ == resample_spec(peaks@, bar_count_spec(count)),
{
    db.put_waveform(video_id, peaks, 120);
    let n = bar_count(count);
    assert(n * peaks@.len() <= usize::MAX) by (nonlinear_arith)
        requires
            n <= 240,
            peaks@.len() * 240 <= usize::MAX,
    ;
    resample(peaks, n)
}

} // verus!
