use spectrix_histoer::estimate::{
    apply_estimate_step, estimate_outcome, force_shared_width, guess_update, manual_estimate_step,
    mark_failed_estimates, record_estimate_outcome, EstimateAction, EstimateError, EstimateRecord, GuessUpdate,
};
use spectrix_histoer::markers::{GuessSource, GuessSources};
use spectrix_histoer::fitting::{
    active_background_result, background_coupling_for_fit, manual_fit_readiness,
    reusable_manual_background, BackgroundCoupling, BackgroundModel, BackgroundResult,
    FitReadinessError, Fitter,
};

/// The parameters of a linear background: slope and intercept with their
/// uncertainties, and the fitted range.
type LinearParameters = ((f64, f64), (f64, f64), f64, f64);

#[test]
fn every_unlocked_background_is_refined_with_the_peak_model() {
    for model in [
        BackgroundModel::Linear,
        BackgroundModel::Quadratic,
        BackgroundModel::PowerLaw,
        BackgroundModel::Exponential,
    ] {
        assert_eq!(
            background_coupling_for_fit(&model, false),
            BackgroundCoupling::PrefitJoint
        );
    }
    assert_eq!(
        background_coupling_for_fit(&BackgroundModel::Quadratic, true),
        BackgroundCoupling::PrefitFrozen
    );
}

#[test]
fn only_explicit_background_fits_are_reused() {
    let parameters: LinearParameters = ((0.2, 0.01), (3.0, 0.1), 0.0, 10.0);
    let mut fitter = Fitter {
        background_result: Some(BackgroundResult::Linear(parameters)),
        ..Fitter::default()
    };

    assert!(reusable_manual_background(Some(&fitter)).is_none());
    fitter.background_was_fit_manually = true;
    assert!(reusable_manual_background(Some(&fitter)).is_some());
}

#[test]
fn a_locked_fit_without_background_model_stays_joint() {
    assert_eq!(
        background_coupling_for_fit(&BackgroundModel::NoBackground, true),
        BackgroundCoupling::PrefitJoint
    );
}

#[test]
fn a_manual_fit_without_result_is_not_reused() {
    let fitter: Fitter<u8> = Fitter {
        background_was_fit_manually: true,
        ..Fitter::default()
    };
    assert!(reusable_manual_background(Some(&fitter)).is_none());
    assert!(reusable_manual_background::<u8>(None).is_none());
}

#[test]
fn the_temporary_background_wins_over_stored_ones() {
    let temp = Fitter {
        background_result: Some(BackgroundResult::Quadratic(1u8)),
        ..Fitter::default()
    };
    let stored = vec![Fitter {
        background_result: Some(BackgroundResult::Linear(2u8)),
        ..Fitter::default()
    }];
    assert!(matches!(
        active_background_result(Some(&temp), &stored),
        Some(BackgroundResult::Quadratic(1))
    ));
}

#[test]
fn the_last_stored_background_is_used_when_the_temporary_fit_has_none() {
    let temp: Fitter<u8> = Fitter::default();
    let stored = vec![
        Fitter {
            background_result: Some(BackgroundResult::Linear(2u8)),
            ..Fitter::default()
        },
        Fitter {
            background_result: Some(BackgroundResult::Exponential(3u8)),
            ..Fitter::default()
        },
        Fitter::default(),
    ];
    assert!(matches!(
        active_background_result(Some(&temp), &stored),
        Some(BackgroundResult::Exponential(3))
    ));
    let none: Vec<Fitter<u8>> = vec![Fitter::default()];
    assert!(active_background_result(None, &none).is_none());
}

#[test]
fn fit_readiness_reports_the_first_missing_input() {
    let valid = vec![true, true];
    assert!(matches!(
        manual_fit_readiness(1, &valid, BackgroundModel::Linear, 1, &None),
        Err(FitReadinessError::RegionMarkers)
    ));
    assert!(matches!(
        manual_fit_readiness(2, &vec![], BackgroundModel::Linear, 1, &None),
        Err(FitReadinessError::PeakMarkers)
    ));
    assert!(matches!(
        manual_fit_readiness(2, &valid, BackgroundModel::Linear, 0, &None),
        Err(FitReadinessError::BackgroundMarkers)
    ));
    assert!(manual_fit_readiness(2, &valid, BackgroundModel::NoBackground, 0, &None).is_ok());
    let error = manual_fit_readiness(
        2,
        &valid,
        BackgroundModel::NoBackground,
        0,
        &Some("estimate failed".to_owned()),
    )
    .unwrap_err();
    assert_eq!(error.message(), "estimate failed");
    let invalid = manual_fit_readiness(2, &vec![true, false], BackgroundModel::Linear, 1, &None)
        .unwrap_err();
    assert_eq!(
        invalid.message(),
        "Every peak needs a positive width and amplitude; move it or re-estimate it."
    );
    assert_eq!(
        FitReadinessError::RegionMarkers.message(),
        "Place exactly two region markers before fitting."
    );
}

#[test]
fn peak_guesses_are_estimated_only_when_due_and_possible() {
    let ids = vec![1, 2];
    let valid = vec![true, false];
    let all_valid = vec![true, true];

    let step = manual_estimate_step(true, BackgroundModel::LegacyAuto, &ids, &valid, 9, 0, 0, 2, 0);
    assert_eq!(step.model, BackgroundModel::LegacyAuto);
    assert!(matches!(step.action, EstimateAction::Pending));

    let step = manual_estimate_step(false, BackgroundModel::LegacyAuto, &vec![], &vec![], 9, 0, 0, 2, 0);
    assert_eq!(step.model, BackgroundModel::NoBackground);
    assert!(matches!(step.action, EstimateAction::NoPeaks));

    let step = manual_estimate_step(false, BackgroundModel::Linear, &ids, &all_valid, 9, 9, 0, 2, 0);
    assert!(matches!(step.action, EstimateAction::UpToDate));

    // An invalid estimate is retried when the inputs changed since it failed.
    let step = manual_estimate_step(false, BackgroundModel::NoBackground, &ids, &valid, 9, 9, 3, 2, 0);
    assert!(matches!(step.action, EstimateAction::Estimate(ref reset) if *reset == vec![2]));
    let step = manual_estimate_step(false, BackgroundModel::NoBackground, &ids, &valid, 9, 9, 9, 2, 0);
    assert!(matches!(step.action, EstimateAction::UpToDate));

    let step = manual_estimate_step(false, BackgroundModel::Linear, &ids, &all_valid, 9, 1, 0, 1, 1);
    assert!(matches!(step.action, EstimateAction::Refused(EstimateError::RegionMarkers)));
    let step = manual_estimate_step(false, BackgroundModel::Linear, &ids, &all_valid, 9, 1, 0, 2, 0);
    assert!(matches!(step.action, EstimateAction::Refused(EstimateError::BackgroundMarkers)));
    let step = manual_estimate_step(false, BackgroundModel::LegacyAuto, &ids, &all_valid, 9, 1, 0, 2, 0);
    assert!(matches!(step.action, EstimateAction::Estimate(ref reset) if reset.is_empty()));
    assert_eq!(
        EstimateError::RegionMarkers.message(),
        "Place exactly two region markers to estimate peak guesses."
    );
}

#[test]
fn estimate_outcomes_record_the_signature() {
    assert_eq!(estimate_outcome(true, &vec![true, true], 7), (0, false));
    assert_eq!(estimate_outcome(true, &vec![true, false], 7), (7, false));
    assert_eq!(estimate_outcome(false, &vec![true], 7), (7, true));
    assert!(force_shared_width(true, Some(false), false));
    assert!(!force_shared_width(true, Some(true), false));
    assert!(!force_shared_width(false, Some(false), true));
    let manual = GuessSources {
        width_source: GuessSource::Manual,
        amplitude_source: GuessSource::Manual,
        bounds_source: GuessSource::Estimated,
        valid: true,
    };
    let estimated = GuessSources {
        width_source: GuessSource::Estimated,
        amplitude_source: GuessSource::Estimated,
        bounds_source: GuessSource::Manual,
        valid: true,
    };
    assert_eq!(
        guess_update(&manual, true),
        GuessUpdate { width: true, keep_height: true, amplitude: false, bounds: true }
    );
    assert_eq!(
        guess_update(&estimated, false),
        GuessUpdate { width: true, keep_height: false, amplitude: true, bounds: false }
    );
    let mut guesses = vec![manual, estimated];
    mark_failed_estimates(&mut guesses);
    assert!(guesses[0].valid);
    assert!(!guesses[1].valid);
}

#[test]
fn resetting_all_estimates_forgets_the_signatures() {
    let mut guesses = vec![GuessSources {
        width_source: GuessSource::Manual,
        amplitude_source: GuessSource::Fitted,
        bounds_source: GuessSource::Manual,
        valid: true,
    }];
    let mut estimate = 5;
    let mut invalid = 6;
    spectrix_histoer::markers::reset_all_estimates(&mut guesses, &mut estimate, &mut invalid);
    assert_eq!(guesses[0].width_source, GuessSource::Estimated);
    assert_eq!(guesses[0].amplitude_source, GuessSource::Estimated);
    assert_eq!(guesses[0].bounds_source, GuessSource::Estimated);
    assert!(!guesses[0].valid);
    assert_eq!((estimate, invalid), (0, 0));
}

#[test]
fn a_refused_estimate_records_its_error_and_is_not_retried() {
    // One region marker and one peak whose estimate is not valid yet.
    let ids = vec![1];
    let valid = vec![false];
    let mut record = EstimateRecord { estimate_signature: 0, invalid_estimate_signature: 0, estimate_error: None };
    let step = manual_estimate_step(false, BackgroundModel::NoBackground, &ids, &valid, 42, 0, 0, 1, 0);
    assert!(matches!(step.action, EstimateAction::Refused(EstimateError::RegionMarkers)));
    let clear = apply_estimate_step(&mut record, &step.action, 42);
    assert!(clear);
    assert_eq!(
        record.estimate_error,
        Some("Place exactly two region markers to estimate peak guesses.".to_owned())
    );
    assert_eq!((record.estimate_signature, record.invalid_estimate_signature), (42, 42));
    let again = manual_estimate_step(
        false,
        step.model,
        &ids,
        &valid,
        42,
        record.estimate_signature,
        record.invalid_estimate_signature,
        1,
        0,
    );
    assert!(matches!(again.action, EstimateAction::UpToDate));
    assert!(!apply_estimate_step(&mut record, &again.action, 42));
    assert_eq!((record.estimate_signature, record.invalid_estimate_signature), (42, 42));

    let no_peaks = manual_estimate_step(false, BackgroundModel::NoBackground, &vec![], &vec![], 43, 42, 42, 2, 0);
    assert!(apply_estimate_step(&mut record, &no_peaks.action, 43));
    assert_eq!(record.estimate_error, None);
    assert_eq!((record.estimate_signature, record.invalid_estimate_signature), (42, 0));
}

#[test]
fn estimate_outcomes_are_recorded() {
    let mut record = EstimateRecord { estimate_signature: 1, invalid_estimate_signature: 1, estimate_error: None };
    assert!(!record_estimate_outcome(&mut record, None, &vec![true, false], 9));
    assert_eq!((record.estimate_signature, record.invalid_estimate_signature), (9, 9));
    assert_eq!(record.estimate_error, None);
    assert!(record_estimate_outcome(&mut record, Some("no convergence".to_owned()), &vec![true], 10));
    assert_eq!((record.estimate_signature, record.invalid_estimate_signature), (10, 10));
    assert_eq!(record.estimate_error, Some("no convergence".to_owned()));
    assert!(!record_estimate_outcome(&mut record, None, &vec![true], 11));
    assert_eq!((record.estimate_signature, record.invalid_estimate_signature), (11, 0));
}
