//! The decisions around estimating the peak guesses of a 1D histogram between
//! two region markers: when an estimate is due, when it is refused and why,
//! which guesses are reset before it, and what its outcome leaves behind.
//! The estimate itself, and the widths and heights it gives, are computed
//! elsewhere in floating point.
use vstd::prelude::*;
use crate::fitting::BackgroundModel;
use crate::markers::{GuessSource, GuessSources};

verus! {

/// Why peak guesses were not estimated.
#[derive(Clone, Copy, Debug, PartialEq, Eq, Structural)]
pub enum EstimateError {
    /// The number of region markers is not two.
    RegionMarkers,
    /// The background model needs a background window and there is none.
    BackgroundMarkers,
}

/// The message shown for an estimate that was refused.
pub open spec fn estimate_error_message(e: EstimateError) -> Seq<char> {
    match e {
        EstimateError::RegionMarkers => "Place exactly two region markers to estimate peak guesses."@,
        EstimateError::BackgroundMarkers => "Place at least one background marker window for the selected background model."@,
    }
}

impl EstimateError {
    /// The message shown for this refusal.
    pub fn message(&self) -> (r: String)
        ensures
            r@ == estimate_error_message(*self),
    {
        match self {
            EstimateError::RegionMarkers => "Place exactly two region markers to estimate peak guesses.".to_string(),
            EstimateError::BackgroundMarkers => "Place at least one background marker window for the selected background model.".to_string(),
        }
    }
}

/// What to do about the peak guesses.
#[derive(Debug)]
pub enum EstimateAction {
    /// A background update is being computed: change nothing.
    Pending,
    /// The estimate is up to date: change nothing more.
    UpToDate,
    /// There are no peaks: clear the background preview and the error, and
    /// set the invalid-estimate signature to 0.
    NoPeaks,
    /// Refused: clear the background preview, record the error, and set both
    /// the estimate signature and the invalid-estimate signature to the
    /// current signature.
    Refused(EstimateError),
    /// Estimate, after resetting the estimates of the peaks with these ids.
    Estimate(Vec<u64>),
}

/// What an action holds.
pub enum ActionView {
    Pending,
    UpToDate,
    NoPeaks,
    Refused(EstimateError),
    Estimate(Seq<u64>),
}

/// The view of an action.
pub open spec fn action_view(a: EstimateAction) -> ActionView {
    match a {
        EstimateAction::Pending => ActionView::Pending,
        EstimateAction::UpToDate => ActionView::UpToDate,
        EstimateAction::NoPeaks => ActionView::NoPeaks,
        EstimateAction::Refused(e) => ActionView::Refused(e),
        EstimateAction::Estimate(ids) => ActionView::Estimate(ids@),
    }
}

/// The background model to keep, and what to do.
#[derive(Debug)]
pub struct EstimateStep {
    pub model: BackgroundModel,
    pub action: EstimateAction,
}

/// The ids of the peaks whose estimate is not valid, in order.
pub open spec fn invalid_ids(ids: Seq<u64>, valid: Seq<bool>) -> Seq<u64>
    decreases ids.len(),
{
    if ids.len() == 0 {
        Seq::empty()
    } else {
        let rest = invalid_ids(ids.drop_last(), valid.take(ids.len() - 1));
        if valid.last() {
            rest
        } else {
            rest.push(ids.last())
        }
    }
}

/// The step taken with the peak guesses, given whether a background update
/// is pending, the background model, the ids of the peaks (as
/// `ensure_peak_ids` leaves them once no update is pending) and
/// whether each estimate is valid, the signature of the current inputs, the
/// signatures recorded at the last estimate and the last invalid one, and the
/// numbers of region markers and background windows.
///
/// While a background update is pending nothing changes. Otherwise the
/// automatic model of older settings becomes no background, and: with no
/// peaks the state is cleared; when the last estimate was made for the same
/// inputs and no invalid estimate is due for a retry (one is due when some
/// estimate is invalid and the last invalid signature differs), nothing more
/// happens; without exactly two region markers, or without a background
/// window when the model has a background, the estimate is refused; else the
/// estimate runs, after the invalid peaks are reset when they are retried.
pub open spec fn estimate_step_spec(
    pending: bool,
    model: BackgroundModel,
    ids: Seq<u64>,
    valid: Seq<bool>,
    signature: u64,
    estimate_signature: u64,
    invalid_estimate_signature: u64,
    region_marker_count: nat,
    background_marker_count: nat,
) -> (BackgroundModel, ActionView) {
    if pending {
        (model, ActionView::Pending)
    } else {
        let m = if model == BackgroundModel::LegacyAuto {
            BackgroundModel::NoBackground
        } else {
            model
        };
        let invalid = invalid_ids(ids, valid);
        let retry = invalid.len() > 0 && invalid_estimate_signature != signature;
        if ids.len() == 0 {
            (m, ActionView::NoPeaks)
        } else if estimate_signature == signature && !retry {
            (m, ActionView::UpToDate)
        } else if region_marker_count != 2 {
            (m, ActionView::Refused(EstimateError::RegionMarkers))
        } else if m != BackgroundModel::NoBackground && background_marker_count == 0 {
            (m, ActionView::Refused(EstimateError::BackgroundMarkers))
        } else {
            (m, ActionView::Estimate(if retry { invalid } else { Seq::empty() }))
        }
    }
}

fn invalid_peak_ids(ids: &Vec<u64>, valid: &Vec<bool>) -> (r: Vec<u64>)
    requires
        ids.len() == valid.len(),
    ensures
        r@ == invalid_ids(ids@, valid@),
{
    let mut r: Vec<u64> = Vec::new();
    let mut i: usize = 0;
    assert(ids@.take(0) =~= Seq::<u64>::empty());
    while i < ids.len()
        invariant
            i <= ids.len() == valid.len(),
            r@ == invalid_ids(ids@.take(i as int), valid@.take(i as int)),
        decreases ids.len() - i,
    {
        assert(ids@.take(i + 1).drop_last() =~= ids@.take(i as int));
        assert(valid@.take(i + 1).take(i as int) =~= valid@.take(i as int));
        if !valid[i] {
            r.push(ids[i]);
        }
        i += 1;
    }
    assert(ids@.take(ids.len() as int) =~= ids@);
    assert(valid@.take(valid.len() as int) =~= valid@);
    r
}

/// Decides what to do about the peak guesses; see `estimate_step_spec`.
/// `peak_valid` tells, for each peak of `peak_ids`, whether its estimate is
/// valid.
pub fn manual_estimate_step(
    pending: bool,
    model: BackgroundModel,
    peak_ids: &Vec<u64>,
    peak_valid: &Vec<bool>,
    signature: u64,
    estimate_signature: u64,
    invalid_estimate_signature: u64,
    region_marker_count: usize,
    background_marker_count: usize,
) -> (r: EstimateStep)
    requires
        peak_ids.len() == peak_valid.len(),
    ensures
        (r.model, action_view(r.action)) == estimate_step_spec(
            pending,
            model,
            peak_ids@,
            peak_valid@,
            signature,
            estimate_signature,
            invalid_estimate_signature,
            region_marker_count as nat,
            background_marker_count as nat,
        ),
{
    if pending {
        return EstimateStep { model, action: EstimateAction::Pending };
    }
    let m = if model == BackgroundModel::LegacyAuto {
        BackgroundModel::NoBackground
    } else {
        model
    };
    if peak_ids.len() == 0 {
        return EstimateStep { model: m, action: EstimateAction::NoPeaks };
    }
    let invalid = invalid_peak_ids(peak_ids, peak_valid);
    let retry = invalid.len() > 0 && invalid_estimate_signature != signature;
    if estimate_signature == signature && !retry {
        return EstimateStep { model: m, action: EstimateAction::UpToDate };
    }
    if region_marker_count != 2 {
        return EstimateStep { model: m, action: EstimateAction::Refused(EstimateError::RegionMarkers) };
    }
    if m != BackgroundModel::NoBackground && background_marker_count == 0 {
        return EstimateStep { model: m, action: EstimateAction::Refused(EstimateError::BackgroundMarkers) };
    }
    if retry {
        EstimateStep { model: m, action: EstimateAction::Estimate(invalid) }
    } else {
        let none: Vec<u64> = Vec::new();
        assert(none@ =~= Seq::<u64>::empty());
        EstimateStep { model: m, action: EstimateAction::Estimate(none) }
    }
}

/// What an estimate leaves behind: the invalid-estimate signature (the
/// current signature after a failure, or after a success that left some
/// estimate invalid; else 0), and whether an error is recorded (exactly when
/// the estimate failed).
pub open spec fn outcome_spec(ok: bool, valid_after: Seq<bool>, signature: u64) -> (u64, bool) {
    if ok {
        (if valid_after.contains(false) { signature } else { 0 }, false)
    } else {
        (signature, true)
    }
}

/// The invalid-estimate signature and whether an error is recorded after an
/// estimate that succeeded (`ok`) or failed, given whether each peak's
/// estimate is valid afterwards; see `outcome_spec`. Either way the estimate
/// signature becomes the current signature.
pub fn estimate_outcome(ok: bool, valid_after: &Vec<bool>, signature: u64) -> (r: (u64, bool))
    ensures
        r == outcome_spec(ok, valid_after@, signature),
{
    if !ok {
        return (signature, true);
    }
    let mut i: usize = 0;
    while i < valid_after.len()
        invariant
            ok,
            i <= valid_after.len(),
            forall|k: int| 0 <= k < i ==> valid_after@[k],
        decreases valid_after.len() - i,
    {
        if !valid_after[i] {
            assert(valid_after@[i as int] == false);
            assert(valid_after@.contains(false));
            return (signature, false);
        }
        i += 1;
    }
    assert(!valid_after@.contains(false));
    (0, false)
}

/// What the estimate of the peak guesses records: the signature of the
/// inputs of the last estimate, the signature of the last one that left an
/// estimate invalid (0 for none), and the error shown, if any.
pub struct EstimateRecord {
    pub estimate_signature: u64,
    pub invalid_estimate_signature: u64,
    pub estimate_error: Option<String>,
}

/// What an estimate record holds.
pub type RecordView = (u64, u64, Option<Seq<char>>);

/// The view of an estimate record.
pub open spec fn record_view(r: EstimateRecord) -> RecordView {
    (
        r.estimate_signature,
        r.invalid_estimate_signature,
        match r.estimate_error {
            Some(e) => Some(e@),
            None => None,
        },
    )
}

/// The record after a step (see `estimate_step_spec`) with the current
/// signature, and whether the background preview is cleared: with no peaks
/// the error is cleared and the invalid signature becomes 0; a refusal
/// records its message and sets both signatures to the current one; the
/// other steps change nothing (an estimate that runs is recorded by
/// `outcome_record`).
pub open spec fn step_record(m: RecordView, action: ActionView, signature: u64) -> (RecordView, bool) {
    match action {
        ActionView::NoPeaks => ((m.0, 0, None), true),
        ActionView::Refused(e) => ((signature, signature, Some(estimate_error_message(e))), true),
        _ => (m, false),
    }
}

/// The record after an estimate that ran with the current signature: on
/// success the error is cleared and the invalid signature is the current
/// one when some estimate is left invalid (else 0); on failure the error is
/// the estimator's message and the invalid signature is the current one.
/// Either way the estimate signature becomes the current one; the preview
/// is cleared after a failure only.
pub open spec fn outcome_record(
    m: RecordView,
    ok: bool,
    error: Seq<char>,
    valid_after: Seq<bool>,
    signature: u64,
) -> (RecordView, bool) {
    let (invalid, _) = outcome_spec(ok, valid_after, signature);
    if ok {
        ((signature, invalid, None), false)
    } else {
        ((signature, invalid, Some(error)), true)
    }
}

/// Applies a step to the record; returns whether the background preview is
/// to be cleared. See `step_record`.
pub fn apply_estimate_step(record: &mut EstimateRecord, action: &EstimateAction, signature: u64) -> (clear_preview: bool)
    ensures
        (record_view(*final(record)), clear_preview) == step_record(
            record_view(*old(record)),
            action_view(*action),
            signature,
        ),
{
    match action {
        EstimateAction::NoPeaks => {
            record.estimate_error = None;
            record.invalid_estimate_signature = 0;
            true
        },
        EstimateAction::Refused(e) => {
            record.estimate_error = Some(e.message());
            record.estimate_signature = signature;
            record.invalid_estimate_signature = signature;
            true
        },
        _ => false,
    }
}

/// Records an estimate that ran: `error` is the estimator's message when it
/// failed, `valid_after` tells whether each peak's estimate is valid
/// afterwards; returns whether the background preview is to be cleared. See
/// `outcome_record`.
pub fn record_estimate_outcome(
    record: &mut EstimateRecord,
    error: Option<String>,
    valid_after: &Vec<bool>,
    signature: u64,
) -> (clear_preview: bool)
    ensures
        (record_view(*final(record)), clear_preview) == outcome_record(
            record_view(*old(record)),
            error is None,
            match error {
                Some(e) => e@,
                None => Seq::empty(),
            },
            valid_after@,
            signature,
        ),
{
    let ok = error.is_none();
    let (invalid, _) = estimate_outcome(ok, valid_after, signature);
    record.estimate_signature = signature;
    record.invalid_estimate_signature = invalid;
    record.estimate_error = error;
    !ok
}

/// Whether every estimated width is replaced by the estimate: widths are
/// shared, and either they were not shared at the last estimate or the widths
/// shown disagree.
pub fn force_shared_width(equal_sigma: bool, last_equal_sigma: Option<bool>, widths_disagree: bool) -> (r: bool)
    ensures
        r == (equal_sigma && (last_equal_sigma == Some(false) || widths_disagree)),
{
    equal_sigma && (last_equal_sigma == Some(false) || widths_disagree)
}

/// Whether a peak's estimate stays valid after a failed estimate: one whose
/// width or amplitude was to be estimated becomes invalid.
pub open spec fn valid_after_failure(s: GuessSources) -> bool {
    s.valid && s.width_source != GuessSource::Estimated && s.amplitude_source != GuessSource::Estimated
}

/// Marks invalid every peak whose width or amplitude was to be estimated,
/// after a failed estimate; the rest is left as it is.
pub fn mark_failed_estimates(guesses: &mut Vec<GuessSources>)
    ensures
        final(guesses)@.len() == old(guesses)@.len(),
        forall|i: int|
            0 <= i < old(guesses)@.len() ==> #[trigger] final(guesses)@[i] == (GuessSources {
                valid: valid_after_failure(old(guesses)@[i]),
                ..old(guesses)@[i]
            }),
{
    let ghost start = guesses@;
    let mut i: usize = 0;
    while i < guesses.len()
        invariant
            i <= guesses.len() == start.len(),
            forall|k: int|
                0 <= k < i ==> #[trigger] guesses@[k] == (GuessSources { valid: valid_after_failure(start[k]), ..start[k] }),
            forall|k: int| i <= k < start.len() ==> #[trigger] guesses@[k] == start[k],
        decreases guesses.len() - i,
    {
        let g = guesses[i];
        if g.width_source == GuessSource::Estimated || g.amplitude_source == GuessSource::Estimated {
            guesses.set(i, GuessSources { valid: false, ..g });
        }
        i += 1;
    }
}

/// What an estimate may change of one peak: its width (when widths are
/// forced to be shared or the width is estimated), keeping its height (when
/// its amplitude is not estimated), its amplitude and its bounds (when they
/// are estimated).
#[derive(Clone, Copy, Debug, PartialEq, Eq, Structural)]
pub struct GuessUpdate {
    pub width: bool,
    pub keep_height: bool,
    pub amplitude: bool,
    pub bounds: bool,
}

/// The update of one peak's guess by a successful estimate.
pub open spec fn guess_update_spec(s: GuessSources, force_shared: bool) -> GuessUpdate {
    let width = force_shared || s.width_source == GuessSource::Estimated;
    GuessUpdate {
        width,
        keep_height: width && s.amplitude_source != GuessSource::Estimated,
        amplitude: s.amplitude_source == GuessSource::Estimated,
        bounds: s.bounds_source == GuessSource::Estimated,
    }
}

/// Which parts of one peak's guess a successful estimate changes; see
/// `guess_update_spec`. A changed width becomes an estimated one.
pub fn guess_update(s: &GuessSources, force_shared: bool) -> (r: GuessUpdate)
    ensures
        r == guess_update_spec(*s, force_shared),
{
    let width = force_shared || s.width_source == GuessSource::Estimated;
    GuessUpdate {
        width,
        keep_height: width && s.amplitude_source != GuessSource::Estimated,
        amplitude: s.amplitude_source == GuessSource::Estimated,
        bounds: s.bounds_source == GuessSource::Estimated,
    }
}

proof fn lemma_invalid_ids_mean_invalid(ids: Seq<u64>, valid: Seq<bool>)
    requires
        ids.len() == valid.len(),
        invalid_ids(ids, valid).len() > 0,
    ensures
        valid.contains(false),
    decreases ids.len(),
{
    let rest = invalid_ids(ids.drop_last(), valid.take(ids.len() - 1));
    if valid.last() {
        lemma_invalid_ids_mean_invalid(ids.drop_last(), valid.take(ids.len() - 1));
        let front = valid.take(ids.len() - 1);
        let k = choose|k: int| 0 <= k < front.len() && #[trigger] front[k] == false;
        assert(valid[k] == false);
    } else {
        assert(valid[valid.len() - 1] == false);
    }
}

/// Once an estimate has run, whether it succeeded or failed, the next step
/// with the same inputs does nothing: the estimate is up to date, and an
/// invalid estimate is not retried until the inputs change.
pub proof fn lemma_estimate_settles(
    model: BackgroundModel,
    ids: Seq<u64>,
    valid: Seq<bool>,
    signature: u64,
    ok: bool,
    region_marker_count: nat,
    background_marker_count: nat,
)
    requires
        ids.len() == valid.len(),
        ids.len() > 0,
    ensures
        estimate_step_spec(
            false,
            model,
            ids,
            valid,
            signature,
            signature,
            outcome_spec(ok, valid, signature).0,
            region_marker_count,
            background_marker_count,
        ).1 is UpToDate,
{
    if invalid_ids(ids, valid).len() > 0 {
        lemma_invalid_ids_mean_invalid(ids, valid);
    }
}

/// A step that refuses the estimate, or finds no peaks or nothing to do,
/// settles: with the same inputs, the next step changes the record no
/// further and clears nothing more (a refused estimate is not retried until
/// its inputs change).
pub proof fn lemma_step_settles(
    model: BackgroundModel,
    ids: Seq<u64>,
    valid: Seq<bool>,
    signature: u64,
    m: RecordView,
    region_marker_count: nat,
    background_marker_count: nat,
)
    requires
        ids.len() == valid.len(),
        !(estimate_step_spec(
            false,
            model,
            ids,
            valid,
            signature,
            m.0,
            m.1,
            region_marker_count,
            background_marker_count,
        ).1 is Estimate),
    ensures
        ({
            let first = estimate_step_spec(
                false,
                model,
                ids,
                valid,
                signature,
                m.0,
                m.1,
                region_marker_count,
                background_marker_count,
            );
            let m1 = step_record(m, first.1, signature).0;
            let second = estimate_step_spec(
                false,
                first.0,
                ids,
                valid,
                signature,
                m1.0,
                m1.1,
                region_marker_count,
                background_marker_count,
            );
            step_record(m1, second.1, signature).0 == m1 && (second.1 is UpToDate || second.1 is NoPeaks)
        }),
{
    if invalid_ids(ids, valid).len() > 0 {
        lemma_invalid_ids_mean_invalid(ids, valid);
    }
}

/// Once an estimate has run and its outcome is recorded, the next step with
/// the same inputs does nothing: the estimate is up to date, and an invalid
/// estimate is not retried until the inputs change.
pub proof fn lemma_recorded_estimate_settles(
    model: BackgroundModel,
    ids: Seq<u64>,
    valid_after: Seq<bool>,
    signature: u64,
    m: RecordView,
    ok: bool,
    error: Seq<char>,
    region_marker_count: nat,
    background_marker_count: nat,
)
    requires
        ids.len() == valid_after.len(),
        ids.len() > 0,
    ensures
        ({
            let m1 = outcome_record(m, ok, error, valid_after, signature).0;
            let next = estimate_step_spec(
                false,
                model,
                ids,
                valid_after,
                signature,
                m1.0,
                m1.1,
                region_marker_count,
                background_marker_count,
            );
            next.1 is UpToDate && step_record(m1, next.1, signature).0 == m1
        }),
{
    lemma_estimate_settles(model, ids, valid_after, signature, ok, region_marker_count, background_marker_count);
}

} // verus!
