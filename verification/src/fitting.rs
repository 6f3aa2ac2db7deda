//! The decisions around a Gaussian fit: whether the markers are ready, which
//! background fit may be reused, how the background is coupled to the peaks,
//! and which background result is the active one.
use vstd::prelude::*;

verus! {

/// The background model chosen for a fit. `LegacyAuto` is the automatic
/// choice of older settings, read as no background when peak guesses are
/// estimated.
#[derive(Clone, Copy, Debug, PartialEq, Eq, Structural)]
pub enum BackgroundModel {
    NoBackground,
    Linear,
    Quadratic,
    PowerLaw,
    Exponential,
    LegacyAuto,
}

/// How the background parameters take part in the peak fit: held at their
/// pre-fit values, or refined together with the peaks.
#[derive(Clone, Copy, Debug, PartialEq, Eq, Structural)]
pub enum BackgroundCoupling {
    PrefitFrozen,
    PrefitJoint,
}

/// The result of a background fit, by model; `P` holds its parameters.
#[derive(Clone, Debug)]
pub enum BackgroundResult<P> {
    Linear(P),
    Quadratic(P),
    PowerLaw(P),
    Exponential(P),
}

/// The part of a fit that the background decisions read.
#[derive(Clone, Debug)]
pub struct Fitter<P> {
    pub background_model: BackgroundModel,
    pub background_was_fit_manually: bool,
    pub background_result: Option<BackgroundResult<P>>,
}

impl<P> Default for Fitter<P> {
    fn default() -> (r: Self)
        ensures
            r.background_model == BackgroundModel::NoBackground,
            !r.background_was_fit_manually,
            r.background_result is None,
    {
        Fitter { background_model: BackgroundModel::NoBackground, background_was_fit_manually: false, background_result: None }
    }
}

/// The background is frozen at its pre-fit values only when a manual
/// background fit is locked and the model is not `None`; otherwise it is
/// refined together with the peaks.
pub fn background_coupling_for_fit(background_model: &BackgroundModel, lock_manual_background: bool) -> (r:
    BackgroundCoupling)
    ensures
        r == (if lock_manual_background && *background_model != BackgroundModel::NoBackground {
            BackgroundCoupling::PrefitFrozen
        } else {
            BackgroundCoupling::PrefitJoint
        }),
{
    if lock_manual_background && !matches!(background_model, BackgroundModel::NoBackground) {
        BackgroundCoupling::PrefitFrozen
    } else {
        BackgroundCoupling::PrefitJoint
    }
}

/// A temporary fit whose background may be reused: one whose background was
/// fit explicitly and has a result.
pub open spec fn reusable_spec<P>(fit: Fitter<P>) -> bool {
    fit.background_was_fit_manually && fit.background_result is Some
}

/// The temporary fit, when its background was fit explicitly and has a result.
pub fn reusable_manual_background<P>(temp_fit: Option<&Fitter<P>>) -> (r: Option<&Fitter<P>>)
    ensures
        r is Some <==> (temp_fit is Some && reusable_spec(*temp_fit.unwrap())),
        r is Some ==> r.unwrap() == temp_fit.unwrap(),
{
    match temp_fit {
        Some(fit) => {
            if fit.background_was_fit_manually && fit.background_result.is_some() {
                Some(fit)
            } else {
                None
            }
        },
        None => None,
    }
}

/// The index of the last stored fit up to `n` that has a background result,
/// or -1.
pub open spec fn last_with_background<P>(stored: Seq<Fitter<P>>, n: int) -> int
    decreases n,
{
    if n <= 0 {
        -1
    } else if stored[n - 1].background_result is Some {
        n - 1
    } else {
        last_with_background(stored, n - 1)
    }
}

proof fn lemma_last_with_background_range<P>(stored: Seq<Fitter<P>>, n: int)
    requires
        0 <= n <= stored.len(),
    ensures
        -1 <= last_with_background(stored, n) < n,
        last_with_background(stored, n) >= 0 ==> stored[last_with_background(stored, n)].background_result is Some,
    decreases n,
{
    if n > 0 && stored[n - 1].background_result is None {
        lemma_last_with_background_range(stored, n - 1);
    }
}

/// The background result in use: that of the temporary fit when it has one,
/// else that of the last stored fit that has one.
pub fn active_background_result<'a, P>(temp_fit: Option<&'a Fitter<P>>, stored_fits: &'a Vec<Fitter<P>>) -> (r:
    Option<&'a BackgroundResult<P>>)
    ensures
        temp_fit is Some && temp_fit.unwrap().background_result is Some ==> r is Some && *r.unwrap()
            == temp_fit.unwrap().background_result.unwrap(),
        !(temp_fit is Some && temp_fit.unwrap().background_result is Some) ==> {
            let k = last_with_background(stored_fits@, stored_fits.len() as int);
            &&& (r is Some <==> k >= 0)
            &&& (k >= 0 ==> *r.unwrap() == stored_fits@[k].background_result.unwrap())
        },
{
    if let Some(fit) = temp_fit {
        if let Some(b) = &fit.background_result {
            return Some(b);
        }
    }
    let mut i = stored_fits.len();
    while i > 0
        invariant
            i <= stored_fits.len(),
            !(temp_fit is Some && temp_fit.unwrap().background_result is Some),
            last_with_background(stored_fits@, stored_fits.len() as int) == last_with_background(
                stored_fits@,
                i as int,
            ),
        decreases i,
    {
        if let Some(b) = &stored_fits[i - 1].background_result {
            proof {
                lemma_last_with_background_range(stored_fits@, i as int);
            }
            return Some(b);
        }
        i -= 1;
    }
    None
}

/// Why a manual Gaussian fit cannot start yet.
#[derive(Clone, Debug)]
pub enum FitReadinessError {
    RegionMarkers,
    PeakMarkers,
    BackgroundMarkers,
    Estimate(String),
    InvalidPeak,
}

impl FitReadinessError {
    /// The message shown for this reason: the estimate's own message for a
    /// failed estimate, a fixed instruction otherwise.
    pub fn message(&self) -> (r: String)
        ensures
            r@ == match self {
                FitReadinessError::RegionMarkers => "Place exactly two region markers before fitting."@,
                FitReadinessError::PeakMarkers => "Place at least one peak marker before fitting."@,
                FitReadinessError::BackgroundMarkers => "Place at least one background marker window for this background model."@,
                FitReadinessError::Estimate(m) => m@,
                FitReadinessError::InvalidPeak => "Every peak needs a positive width and amplitude; move it or re-estimate it."@,
            },
    {
        match self {
            FitReadinessError::RegionMarkers => "Place exactly two region markers before fitting.".to_owned(),
            FitReadinessError::PeakMarkers => "Place at least one peak marker before fitting.".to_owned(),
            FitReadinessError::BackgroundMarkers => "Place at least one background marker window for this background model.".to_owned(),
            FitReadinessError::Estimate(m) => m.clone(),
            FitReadinessError::InvalidPeak => "Every peak needs a positive width and amplitude; move it or re-estimate it.".to_owned(),
        }
    }
}

/// Checks that a manual Gaussian fit can start, in this order: exactly two
/// region markers, at least one peak marker, a background window when the
/// model needs one, no failed estimate, and every peak guess valid.
/// `peak_valid` holds, per peak marker, whether its guess is valid.
pub fn manual_fit_readiness(
    region_marker_count: usize,
    peak_valid: &Vec<bool>,
    background_model: BackgroundModel,
    background_marker_count: usize,
    estimate_error: &Option<String>,
) -> (r: Result<(), FitReadinessError>)
    ensures
        region_marker_count != 2 ==> r == Err::<(), FitReadinessError>(FitReadinessError::RegionMarkers),
        region_marker_count == 2 && peak_valid.len() == 0 ==> r == Err::<(), FitReadinessError>(
            FitReadinessError::PeakMarkers,
        ),
        region_marker_count == 2 && peak_valid.len() > 0 && background_model != BackgroundModel::NoBackground
            && background_marker_count == 0 ==> r == Err::<(), FitReadinessError>(
            FitReadinessError::BackgroundMarkers,
        ),
        region_marker_count == 2 && peak_valid.len() > 0 && (background_model == BackgroundModel::NoBackground
            || background_marker_count > 0) && estimate_error is Some ==> (r matches Err(
            FitReadinessError::Estimate(m),
        ) && m@ == estimate_error.unwrap()@),
        region_marker_count == 2 && peak_valid.len() > 0 && (background_model == BackgroundModel::NoBackground
            || background_marker_count > 0) && estimate_error is None ==> (if exists|i: int|
            0 <= i < peak_valid.len() && !peak_valid@[i] {
            r == Err::<(), FitReadinessError>(FitReadinessError::InvalidPeak)
        } else {
            r == Ok::<(), FitReadinessError>(())
        }),
{
    if region_marker_count != 2 {
        return Err(FitReadinessError::RegionMarkers);
    }
    if peak_valid.len() == 0 {
        return Err(FitReadinessError::PeakMarkers);
    }
    if !matches!(background_model, BackgroundModel::NoBackground) && background_marker_count == 0 {
        return Err(FitReadinessError::BackgroundMarkers);
    }
    if let Some(error) = estimate_error {
        return Err(FitReadinessError::Estimate(error.clone()));
    }
    let mut i: usize = 0;
    while i < peak_valid.len()
        invariant
            i <= peak_valid.len(),
            region_marker_count == 2,
            peak_valid.len() > 0,
            background_model == BackgroundModel::NoBackground || background_marker_count > 0,
            estimate_error is None,
            forall|j: int| 0 <= j < i ==> peak_valid@[j],
        decreases peak_valid.len() - i,
    {
        if !peak_valid[i] {
            return Err(FitReadinessError::InvalidPeak);
        }
        i += 1;
    }
    Ok(())
}

} // verus!
