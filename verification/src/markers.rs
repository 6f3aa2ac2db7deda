//! Fit markers: where the estimates of a peak guess came from, whether any
//! marker is being dragged, and the stable ids that peak guesses keep.
use vstd::prelude::*;

verus! {

/// Where a peak guess parameter came from.
#[derive(Debug, Clone, Copy, PartialEq, Eq, Structural)]
pub enum GuessSource {
    Estimated,
    Manual,
    Fitted,
}

/// The label of a guess source.
pub open spec fn guess_source_label(source: GuessSource) -> Seq<char> {
    match source {
        GuessSource::Estimated => "Estimated"@,
        GuessSource::Manual => "Manual"@,
        GuessSource::Fitted => "Fitted"@,
    }
}

impl GuessSource {
    /// The label shown for this source in the user interface.
    pub fn label(self) -> (label: &'static str)
        ensures
            label@ == guess_source_label(self),
    {
        match self {
            GuessSource::Estimated => "Estimated",
            GuessSource::Manual => "Manual",
            GuessSource::Fitted => "Fitted",
        }
    }
}

/// The part of a vertical plot marker that the marker logic reads.
#[derive(Debug, Clone, Copy, PartialEq, Eq, Structural)]
pub struct VerticalMarker {
    pub is_dragging: bool,
}

/// A pair of markers that bound one background window.
#[derive(Debug, Clone, Copy, PartialEq, Eq, Structural)]
pub struct BackgroundPair {
    pub start: VerticalMarker,
    pub end: VerticalMarker,
}

impl BackgroundPair {
    /// Whether either marker of the pair is being dragged.
    pub fn is_dragging(&self) -> (r: bool)
        ensures
            r == (self.start.is_dragging || self.end.is_dragging),
    {
        self.start.is_dragging || self.end.is_dragging
    }
}

/// The drag flags of a peak guess: its center line and each of its handles.
#[derive(Debug, Clone, Copy, PartialEq, Eq, Structural)]
pub struct PeakDragState {
    pub center_dragging: bool,
    pub left_dragging: bool,
    pub right_dragging: bool,
    pub apex_dragging: bool,
    pub fwhm_min_dragging: bool,
    pub fwhm_max_dragging: bool,
    pub net_height_min_dragging: bool,
    pub net_height_max_dragging: bool,
}

impl PeakDragState {
    pub open spec fn any(self) -> bool {
        self.center_dragging || self.left_dragging || self.right_dragging || self.apex_dragging
            || self.fwhm_min_dragging || self.fwhm_max_dragging || self.net_height_min_dragging
            || self.net_height_max_dragging
    }

    /// Whether any part of the peak guess is being dragged.
    pub fn is_dragging(&self) -> (r: bool)
        ensures
            r == self.any(),
    {
        self.center_dragging || self.left_dragging || self.right_dragging || self.apex_dragging
            || self.fwhm_min_dragging || self.fwhm_max_dragging || self.net_height_min_dragging
            || self.net_height_max_dragging
    }
}

/// Where the width, amplitude and bounds of a peak guess came from, and
/// whether its estimate is valid.
#[derive(Debug, Clone, Copy, PartialEq, Eq, Structural)]
pub struct GuessSources {
    pub width_source: GuessSource,
    pub amplitude_source: GuessSource,
    pub bounds_source: GuessSource,
    pub valid: bool,
}

impl GuessSources {
    /// Marks every parameter for a fresh estimate.
    pub fn reset_estimates(&mut self)
        ensures
            *final(self) == (GuessSources {
                width_source: GuessSource::Estimated,
                amplitude_source: GuessSource::Estimated,
                bounds_source: GuessSource::Estimated,
                valid: false,
            }),
    {
        self.width_source = GuessSource::Estimated;
        self.amplitude_source = GuessSource::Estimated;
        self.bounds_source = GuessSource::Estimated;
        self.valid = false;
    }

    /// Holds the current seed: every parameter becomes manual.
    pub fn hold_current_seed(&mut self)
        ensures
            *final(self) == (GuessSources {
                width_source: GuessSource::Manual,
                amplitude_source: GuessSource::Manual,
                bounds_source: GuessSource::Manual,
                valid: old(self).valid,
            }),
    {
        self.width_source = GuessSource::Manual;
        self.amplitude_source = GuessSource::Manual;
        self.bounds_source = GuessSource::Manual;
    }

    /// Holds the bounds: they become manual.
    pub fn hold_bounds(&mut self)
        ensures
            *final(self) == (GuessSources { bounds_source: GuessSource::Manual, ..*old(self) }),
    {
        self.bounds_source = GuessSource::Manual;
    }
}

/// Marks every peak guess for a fresh estimate and forgets the signatures of
/// the last estimate and of the last invalid one.
pub fn reset_all_estimates(
    guesses: &mut Vec<GuessSources>,
    estimate_signature: &mut u64,
    invalid_estimate_signature: &mut u64,
)
    ensures
        final(guesses)@.len() == old(guesses)@.len(),
        forall|i: int|
            0 <= i < old(guesses)@.len() ==> #[trigger] final(guesses)@[i] == (GuessSources {
                width_source: GuessSource::Estimated,
                amplitude_source: GuessSource::Estimated,
                bounds_source: GuessSource::Estimated,
                valid: false,
            }),
        *final(estimate_signature) == 0,
        *final(invalid_estimate_signature) == 0,
{
    let n = guesses.len();
    let mut i: usize = 0;
    while i < n
        invariant
            i <= n == guesses.len(),
            forall|k: int|
                0 <= k < i ==> #[trigger] guesses@[k] == (GuessSources {
                    width_source: GuessSource::Estimated,
                    amplitude_source: GuessSource::Estimated,
                    bounds_source: GuessSource::Estimated,
                    valid: false,
                }),
        decreases n - i,
    {
        let mut g = guesses[i];
        g.reset_estimates();
        guesses.set(i, g);
        i += 1;
    }
    *estimate_signature = 0;
    *invalid_estimate_signature = 0;
}

/// Whether any marker is being dragged: a region marker, a peak guess or a
/// background pair.
pub fn markers_dragging(
    region_markers: &Vec<VerticalMarker>,
    peak_markers: &Vec<PeakDragState>,
    background_markers: &Vec<BackgroundPair>,
) -> (r: bool)
    ensures
        r == ((exists|i: int| 0 <= i < region_markers.len() && (#[trigger] region_markers@[i]).is_dragging)
            || (exists|i: int| 0 <= i < peak_markers.len() && (#[trigger] peak_markers@[i]).any())
            || (exists|i: int|
            0 <= i < background_markers.len() && ((#[trigger] background_markers@[i]).start.is_dragging
                || background_markers@[i].end.is_dragging))),
{
    let mut i: usize = 0;
    while i < region_markers.len()
        invariant
            i <= region_markers.len(),
            forall|k: int| 0 <= k < i ==> !(#[trigger] region_markers@[k]).is_dragging,
        decreases region_markers.len() - i,
    {
        if region_markers[i].is_dragging {
            return true;
        }
        i += 1;
    }
    let mut j: usize = 0;
    while j < peak_markers.len()
        invariant
            j <= peak_markers.len(),
            forall|k: int| 0 <= k < region_markers.len() ==> !(#[trigger] region_markers@[k]).is_dragging,
            forall|k: int| 0 <= k < j ==> !(#[trigger] peak_markers@[k]).any(),
        decreases peak_markers.len() - j,
    {
        if peak_markers[j].is_dragging() {
            return true;
        }
        j += 1;
    }
    let mut k: usize = 0;
    while k < background_markers.len()
        invariant
            k <= background_markers.len(),
            forall|m: int| 0 <= m < region_markers.len() ==> !(#[trigger] region_markers@[m]).is_dragging,
            forall|m: int| 0 <= m < peak_markers.len() ==> !(#[trigger] peak_markers@[m]).any(),
            forall|m: int|
                0 <= m < k ==> !((#[trigger] background_markers@[m]).start.is_dragging
                    || background_markers@[m].end.is_dragging),
        decreases background_markers.len() - k,
    {
        if background_markers[k].is_dragging() {
            return true;
        }
        k += 1;
    }
    false
}

/// The largest id in `ids` (0 for none).
pub open spec fn max_id(ids: Seq<u64>) -> u64
    decreases ids.len(),
{
    if ids.len() == 0 {
        0
    } else if max_id(ids.drop_last()) >= ids.last() {
        max_id(ids.drop_last())
    } else {
        ids.last()
    }
}

/// `x + 1`, staying at `u64::MAX`.
pub open spec fn sat_inc(x: u64) -> u64 {
    if x < u64::MAX {
        (x + 1) as u64
    } else {
        x
    }
}

/// The first id handed out to a peak without a usable id: past every id in use
/// and not below the stored next id or 1.
pub open spec fn first_free_id(ids: Seq<u64>, next_peak_id: u64) -> u64 {
    let a = sat_inc(max_id(ids));
    let b = if a >= next_peak_id {
        a
    } else {
        next_peak_id
    };
    if b >= 1 {
        b
    } else {
        1
    }
}

/// Reading `ids` in order: the ids after repair, the ids seen so far, and the
/// next id to hand out. An id of 0, or one already seen, is replaced by the
/// next free id.
pub open spec fn id_repair(ids: Seq<u64>, start: u64) -> (Seq<u64>, Seq<u64>, u64)
    decreases ids.len(),
{
    if ids.len() == 0 {
        (Seq::empty(), Seq::empty(), start)
    } else {
        let prev = id_repair(ids.drop_last(), start);
        let id = ids.last();
        if id == 0 || prev.1.contains(id) {
            (prev.0.push(prev.2), prev.1.push(prev.2), sat_inc(prev.2))
        } else {
            (prev.0.push(id), prev.1.push(id), prev.2)
        }
    }
}

fn contains_id(v: &Vec<u64>, id: u64) -> (r: bool)
    ensures
        r == v@.contains(id),
{
    let mut i: usize = 0;
    while i < v.len()
        invariant
            i <= v.len(),
            forall|k: int| 0 <= k < i ==> v@[k] != id,
        decreases v.len() - i,
    {
        if v[i] == id {
            return true;
        }
        i += 1;
    }
    false
}

/// Gives every peak a usable id: an id of 0, or one that an earlier peak
/// already has, is replaced by a fresh one. Returns the next id to hand out.
pub fn ensure_peak_ids(ids: &mut Vec<u64>, next_peak_id: u64) -> (next: u64)
    ensures
        final(ids)@ == id_repair(old(ids)@, first_free_id(old(ids)@, next_peak_id)).0,
        next == id_repair(old(ids)@, first_free_id(old(ids)@, next_peak_id)).2,
{
    let ghost orig = ids@;
    let mut max: u64 = 0;
    let mut i: usize = 0;
    assert(orig.take(0) =~= Seq::<u64>::empty());
    while i < ids.len()
        invariant
            i <= ids.len(),
            ids@ == orig,
            max == max_id(orig.take(i as int)),
        decreases ids.len() - i,
    {
        assert(orig.take(i + 1).drop_last() =~= orig.take(i as int));
        if ids[i] > max {
            max = ids[i];
        }
        i += 1;
    }
    assert(orig.take(ids.len() as int) =~= orig);
    let mut next: u64 = if max < u64::MAX { max + 1 } else { max };
    if next < next_peak_id {
        next = next_peak_id;
    }
    if next < 1 {
        next = 1;
    }
    let ghost start = next;
    assert(start == first_free_id(orig, next_peak_id));
    let mut seen: Vec<u64> = Vec::new();
    let mut k: usize = 0;
    let n = ids.len();
    assert(orig.take(0) =~= Seq::<u64>::empty());
    while k < n
        invariant
            k <= n == ids.len() == orig.len(),
            ids@.subrange(0, k as int) == id_repair(orig.take(k as int), start).0,
            forall|j: int| k <= j < n ==> ids@[j] == orig[j],
            seen@ == id_repair(orig.take(k as int), start).1,
            next == id_repair(orig.take(k as int), start).2,
        decreases n - k,
    {
        assert(orig.take(k + 1).drop_last() =~= orig.take(k as int));
        assert(ids@[k as int] == orig[k as int]);
        let id = ids[k];
        let ghost before = ids@;
        if id == 0 || contains_id(&seen, id) {
            ids.set(k, next);
            seen.push(next);
            next = if next < u64::MAX { next + 1 } else { next };
        } else {
            seen.push(id);
        }
        assert(ids@.subrange(0, k + 1) =~= before.subrange(0, k as int).push(ids@[k as int]));
        k += 1;
    }
    assert(ids@.subrange(0, n as int) =~= ids@);
    assert(orig.take(n as int) =~= orig);
    next
}

proof fn lemma_max_id_bound(ids: Seq<u64>)
    ensures
        forall|i: int| 0 <= i < ids.len() ==> #[trigger] ids[i] <= max_id(ids),
    decreases ids.len(),
{
    if ids.len() > 0 {
        lemma_max_id_bound(ids.drop_last());
        assert forall|i: int| 0 <= i < ids.len() implies #[trigger] ids[i] <= max_id(ids) by {
            if i < ids.len() - 1 {
                assert(ids[i] == ids.drop_last()[i]);
            }
        }
    }
}

proof fn lemma_id_repair_shape(ids: Seq<u64>, start: u64)
    requires
        start >= 1,
        forall|i: int| 0 <= i < ids.len() ==> #[trigger] ids[i] < start,
        start + ids.len() <= u64::MAX,
    ensures
        id_repair(ids, start).0 == id_repair(ids, start).1,
        id_repair(ids, start).0.len() == ids.len(),
        start <= id_repair(ids, start).2 <= start + ids.len(),
        forall|i: int|
            0 <= i < ids.len() ==> 0 < #[trigger] id_repair(ids, start).0[i] < id_repair(ids, start).2,
        forall|i: int, j: int|
            0 <= i < j < ids.len() ==> #[trigger] id_repair(ids, start).0[i] != #[trigger] id_repair(
                ids,
                start,
            ).0[j],
    decreases ids.len(),
{
    if ids.len() > 0 {
        let init = ids.drop_last();
        assert forall|i: int| 0 <= i < init.len() implies #[trigger] init[i] < start by {
            assert(init[i] == ids[i]);
        }
        lemma_id_repair_shape(init, start);
        let prev = id_repair(init, start);
        let st = id_repair(ids, start);
        let id = ids.last();
        assert(ids[ids.len() - 1] == id);
        if id == 0 || prev.1.contains(id) {
            assert(prev.2 < u64::MAX);
            assert(!prev.1.contains(prev.2)) by {
                if prev.1.contains(prev.2) {
                    let w = choose|w: int| 0 <= w < prev.1.len() && prev.1[w] == prev.2;
                    assert(prev.0[w] < prev.2);
                }
            }
            assert forall|i: int, j: int| 0 <= i < j < ids.len() implies #[trigger] st.0[i] != #[trigger] st.0[j] by {
                if j == ids.len() - 1 {
                    assert(st.0[j] == prev.2);
                    assert(st.0[i] == prev.0[i]);
                    assert(prev.1[i] == prev.0[i]);
                } else {
                    assert(st.0[i] == prev.0[i] && st.0[j] == prev.0[j]);
                }
            }
            assert forall|i: int| 0 <= i < ids.len() implies 0 < #[trigger] st.0[i] < st.2 by {
                if i < ids.len() - 1 {
                    assert(st.0[i] == prev.0[i]);
                }
            }
        } else {
            assert forall|i: int, j: int| 0 <= i < j < ids.len() implies #[trigger] st.0[i] != #[trigger] st.0[j] by {
                if j == ids.len() - 1 {
                    assert(st.0[j] == id);
                    assert(st.0[i] == prev.0[i]);
                    assert(prev.1[i] == prev.0[i]);
                    assert(prev.1.contains(prev.1[i]));
                } else {
                    assert(st.0[i] == prev.0[i] && st.0[j] == prev.0[j]);
                }
            }
            assert forall|i: int| 0 <= i < ids.len() implies 0 < #[trigger] st.0[i] < st.2 by {
                if i < ids.len() - 1 {
                    assert(st.0[i] == prev.0[i]);
                } else {
                    assert(st.0[i] == id);
                }
            }
        }
    }
}

/// After `ensure_peak_ids`, every peak has a nonzero id, no two peaks share an
/// id, and the returned next id is above all of them (as long as handing out
/// ids does not reach `u64::MAX`).
pub proof fn lemma_ensure_peak_ids_unique(ids: Seq<u64>, next_peak_id: u64)
    requires
        first_free_id(ids, next_peak_id) + ids.len() <= u64::MAX,
    ensures
        ({
            let st = id_repair(ids, first_free_id(ids, next_peak_id));
            &&& st.0.len() == ids.len()
            &&& st.2 <= first_free_id(ids, next_peak_id) + ids.len()
            &&& forall|i: int| 0 <= i < ids.len() ==> 0 < #[trigger] st.0[i] < st.2
            &&& forall|i: int, j: int|
                0 <= i < j < ids.len() ==> #[trigger] st.0[i] != #[trigger] st.0[j]
        }),
{
    let start = first_free_id(ids, next_peak_id);
    lemma_max_id_bound(ids);
    if ids.len() > 0 {
        assert(max_id(ids) < u64::MAX);
    }
    assert forall|i: int| 0 <= i < ids.len() implies #[trigger] ids[i] < start by {
        assert(ids[i] <= max_id(ids));
    }
    lemma_id_repair_shape(ids, start);
}

/// Peaks whose ids are already nonzero and distinct keep them.
pub proof fn lemma_ensure_peak_ids_keeps_good_ids(ids: Seq<u64>, start: u64)
    requires
        forall|i: int| 0 <= i < ids.len() ==> #[trigger] ids[i] != 0,
        forall|i: int, j: int| 0 <= i < j < ids.len() ==> #[trigger] ids[i] != #[trigger] ids[j],
    ensures
        id_repair(ids, start).0 == ids,
        id_repair(ids, start).1 == ids,
        id_repair(ids, start).2 == start,
    decreases ids.len(),
{
    if ids.len() > 0 {
        let init = ids.drop_last();
        assert forall|i: int, j: int| 0 <= i < j < init.len() implies #[trigger] init[i] != #[trigger] init[j] by {
            assert(init[i] == ids[i] && init[j] == ids[j]);
        }
        assert forall|i: int| 0 <= i < init.len() implies #[trigger] init[i] != 0 by {
            assert(init[i] == ids[i]);
        }
        lemma_ensure_peak_ids_keeps_good_ids(init, start);
        assert(!init.contains(ids.last())) by {
            if init.contains(ids.last()) {
                let w = choose|w: int| 0 <= w < init.len() && init[w] == ids.last();
                assert(ids[w] == ids[ids.len() - 1]);
            }
        }
        assert(init.push(ids.last()) =~= ids);
    }
}

/// The ids after a new peak is added, the new peak's id and the next id:
/// the ids are repaired first, the new peak takes the next id (at least 1) and
/// the next id moves past it.
pub open spec fn new_peak_spec(ids: Seq<u64>, next_peak_id: u64) -> (Seq<u64>, u64, u64) {
    let st = id_repair(ids, first_free_id(ids, next_peak_id));
    let id = if st.2 >= 1 {
        st.2
    } else {
        1
    };
    (st.0.push(id), id, sat_inc(id))
}

/// The name of the center marker of the peak with id `id`: `Peak Marker `
/// followed by the id in decimal.
pub open spec fn peak_marker_name_spec(id: u64) -> Seq<char> {
    "Peak Marker "@ + crate::decimal::decimal(id as nat)
}

/// The name of the center marker of the peak with id `id`.
pub fn peak_marker_name(id: u64) -> (r: String)
    ensures
        r@ == peak_marker_name_spec(id),
{
    let mut v = crate::text::chars_of("Peak Marker ");
    let d = crate::decimal::to_decimal_u64(id);
    let ghost head = v@;
    let mut k: usize = 0;
    while k < d.len()
        invariant
            k <= d@.len(),
            v@ == head + d@.take(k as int),
        decreases d.len() - k,
    {
        v.push(d[k]);
        k += 1;
        assert(v@ =~= head + d@.take(k as int));
    }
    assert(d@.take(d@.len() as int) =~= d@);
    crate::text::string_of(&v)
}

/// The names of the center markers of peaks with ids `ids`, in order, as the
/// ids are given them once they are repaired (see `ensure_peak_ids`).
pub fn peak_marker_names(ids: &Vec<u64>) -> (r: Vec<String>)
    ensures
        r@.len() == ids@.len(),
        forall|i: int| 0 <= i < ids@.len() ==> (#[trigger] r@[i])@ == peak_marker_name_spec(ids@[i]),
{
    let mut r: Vec<String> = Vec::new();
    let mut i: usize = 0;
    while i < ids.len()
        invariant
            i <= ids.len(),
            r@.len() == i,
            forall|k: int| 0 <= k < i ==> (#[trigger] r@[k])@ == peak_marker_name_spec(ids@[k]),
        decreases ids.len() - i,
    {
        r.push(peak_marker_name(ids[i]));
        i += 1;
    }
    r
}

/// Adds a peak: repairs the ids of the peaks there (see `ensure_peak_ids`),
/// gives the new peak the next id (at least 1) and appends it; returns the new
/// peak's id and the next id to hand out.
pub fn add_peak_id(ids: &mut Vec<u64>, next_peak_id: u64) -> (r: (u64, u64))
    ensures
        final(ids)@ == new_peak_spec(old(ids)@, next_peak_id).0,
        r.0 == new_peak_spec(old(ids)@, next_peak_id).1,
        r.1 == new_peak_spec(old(ids)@, next_peak_id).2,
{
    let next = ensure_peak_ids(ids, next_peak_id);
    let id = if next >= 1 {
        next
    } else {
        1
    };
    ids.push(id);
    let after = if id < u64::MAX {
        id + 1
    } else {
        id
    };
    (id, after)
}

/// A new peak's id differs from the id of every peak already there, as long
/// as the ids do not run up to `u64::MAX`.
pub proof fn lemma_new_peak_id_is_fresh(ids: Seq<u64>, next_peak_id: u64)
    requires
        first_free_id(ids, next_peak_id) + ids.len() < u64::MAX,
    ensures
        ({
            let (all, id, next) = new_peak_spec(ids, next_peak_id);
            &&& all.len() == ids.len() + 1
            &&& forall|i: int, j: int| 0 <= i < j < all.len() ==> #[trigger] all[i] != #[trigger] all[j]
            &&& id > 0
            &&& next > id
        }),
{
    lemma_ensure_peak_ids_unique(ids, next_peak_id);
    let st = id_repair(ids, first_free_id(ids, next_peak_id));
    let (all, id, next) = new_peak_spec(ids, next_peak_id);
    assert forall|i: int, j: int| 0 <= i < j < all.len() implies #[trigger] all[i] != #[trigger] all[j] by {
        if j == ids.len() {
            assert(all[i] == st.0[i]);
            assert(st.0[i] < st.2);
        } else {
            assert(all[i] == st.0[i] && all[j] == st.0[j]);
        }
    }
    assert(st.2 < u64::MAX);
}

} // verus!
