use csm_rs::icp::RestartShell;
use csm_rs::{
    CovarianceStatus, DistanceMetric, IcpLoop, IterationEvent, LoopEnd, MatchStatus,
    TerminationReason,
};

fn solved(hash: u32, small_step: bool) -> IterationEvent {
    IterationEvent::Solved { hash, small_step }
}

#[test]
fn converged_termination_is_the_only_acceptance() {
    assert!(TerminationReason::Converged.accepts(true));
    assert!(!TerminationReason::Converged.accepts(false));
    assert!(!TerminationReason::IterationLimit.accepts(true));
    assert!(!TerminationReason::CycleDetected.accepts(true));
    assert_eq!(
        TerminationReason::Converged.status(true),
        MatchStatus::Converged
    );
    assert_eq!(
        TerminationReason::IterationLimit.status(true),
        MatchStatus::Failed
    );
}

#[test]
fn defaults_are_failed_and_disabled() {
    assert_eq!(MatchStatus::default(), MatchStatus::Failed);
    assert_eq!(CovarianceStatus::default(), CovarianceStatus::Disabled);
    assert_eq!(TerminationReason::default(), TerminationReason::Failed);
    assert_eq!(MatchStatus::of_valid(true), MatchStatus::Converged);
    assert_eq!(MatchStatus::of_valid(false), MatchStatus::Failed);
}

#[test]
fn uncertainty_status_ignores_the_pose() {
    assert_eq!(
        CovarianceStatus::of_request(false, true),
        CovarianceStatus::Disabled
    );
    assert_eq!(
        CovarianceStatus::of_request(true, true),
        CovarianceStatus::Computed
    );
    assert_eq!(
        CovarianceStatus::of_request(true, false),
        CovarianceStatus::Failed
    );
}

#[test]
fn too_few_correspondences_name_the_reason() {
    assert_eq!(
        TerminationReason::for_too_few(0),
        TerminationReason::NoCorrespondences
    );
    assert_eq!(
        TerminationReason::for_too_few(4),
        TerminationReason::InsufficientGeometry
    );
}

/// One full iteration with enough correspondences (100 rays, 50 found, 40 kept).
fn iterate(l: &mut IcpLoop, hash: u32, small_step: bool) -> Option<LoopEnd> {
    assert_eq!(l.step(IterationEvent::Searched { found: 50 }), None);
    assert_eq!(l.step(IterationEvent::Trimmed { kept: 40 }), None);
    l.step(solved(hash, small_step))
}

#[test]
fn loop_converges_on_a_small_step() {
    let mut l = IcpLoop::new(1000, DistanceMetric::PointToLine, 100);
    assert!(l.has_next());
    assert_eq!(iterate(&mut l, 11, false), None);
    assert_eq!(iterate(&mut l, 12, false), None);
    let end = iterate(&mut l, 13, true).expect("converged");
    assert_eq!(
        end,
        LoopEnd {
            success: true,
            termination: TerminationReason::Converged,
            iterations: 3,
            report_best: false,
        }
    );
    assert!(!l.has_next());
    assert!(end.termination.accepts(end.success));
}

#[test]
fn an_iteration_in_progress_is_not_a_new_iteration() {
    let mut l = IcpLoop::new(10, DistanceMetric::PointToLine, 100);
    assert_eq!(l.step(IterationEvent::Searched { found: 50 }), None);
    assert!(!l.has_next());
    assert_eq!(l.step(IterationEvent::Trimmed { kept: 50 }), None);
    assert!(!l.has_next());
    assert_eq!(l.step(solved(1, false)), None);
    assert!(l.has_next());
}

#[test]
fn iteration_exhaustion_reports_limit_plus_one() {
    let mut l = IcpLoop::new(3, DistanceMetric::PointToLine, 100);
    for hash in 1..=3 {
        assert!(l.has_next());
        assert_eq!(iterate(&mut l, hash, false), None);
    }
    assert!(!l.has_next());
    let end = l.exhausted();
    assert_eq!(end.termination, TerminationReason::IterationLimit);
    assert_eq!(end.iterations, 4);
    assert!(end.success);
    assert!(!end.termination.accepts(end.success));
}

#[test]
fn zero_iterations_is_an_unsuccessful_exhaustion() {
    let l = IcpLoop::new(0, DistanceMetric::PointToLine, 100);
    assert!(!l.has_next());
    let end = l.exhausted();
    assert!(!end.success);
    assert_eq!(end.iterations, 1);
    let l = IcpLoop::new(-5, DistanceMetric::PointToLine, 100);
    assert!(!l.has_next());
}

#[test]
fn repeated_correspondences_stop_on_a_cycle_with_the_best_estimate() {
    let mut l = IcpLoop::new(100, DistanceMetric::PointToLine, 100);
    assert_eq!(iterate(&mut l, 7, false), None);
    assert_eq!(iterate(&mut l, 8, false), None);
    let end = iterate(&mut l, 7, true).expect("cycle");
    assert_eq!(
        end,
        LoopEnd {
            success: true,
            termination: TerminationReason::CycleDetected,
            iterations: 3,
            report_best: true,
        }
    );
}

#[test]
fn point_to_point_does_not_detect_cycles() {
    let mut l = IcpLoop::new(100, DistanceMetric::PointToPoint, 100);
    assert_eq!(iterate(&mut l, 7, false), None);
    assert_eq!(iterate(&mut l, 7, false), None);
    let end = iterate(&mut l, 7, true).expect("converged");
    assert_eq!(end.termination, TerminationReason::Converged);
}

#[test]
fn too_few_correspondences_stop_below_five_percent() {
    // 5 of 100 rays is enough; 4 is not.
    let mut l = IcpLoop::new(10, DistanceMetric::PointToLine, 100);
    assert_eq!(l.step(IterationEvent::Searched { found: 5 }), None);
    let end = l
        .step(IterationEvent::Trimmed { kept: 4 })
        .expect("too few kept");
    assert_eq!(
        end,
        LoopEnd {
            success: false,
            termination: TerminationReason::InsufficientGeometry,
            iterations: 1,
            report_best: false,
        }
    );
    assert!(!l.has_next());

    let mut l = IcpLoop::new(10, DistanceMetric::PointToLine, 100);
    assert_eq!(iterate(&mut l, 1, false), None);
    let end = l
        .step(IterationEvent::Searched { found: 0 })
        .expect("none found");
    assert_eq!(end.termination, TerminationReason::NoCorrespondences);
    assert_eq!(end.iterations, 2);
}

#[test]
fn four_of_a_hundred_is_insufficient_geometry() {
    // Four of a hundred rays find a correspondence.
    let mut l = IcpLoop::new(1000, DistanceMetric::PointToLine, 100);
    let end = l
        .step(IterationEvent::Searched { found: 4 })
        .expect("stop");
    assert_eq!(end.termination, TerminationReason::InsufficientGeometry);
    assert!(!end.success);
}

#[test]
fn a_failed_solve_is_a_numerical_failure() {
    let mut l = IcpLoop::new(10, DistanceMetric::PointToLine, 100);
    assert_eq!(l.step(IterationEvent::Searched { found: 50 }), None);
    assert_eq!(l.step(IterationEvent::Trimmed { kept: 50 }), None);
    let end = l.step(IterationEvent::SolveFailed).expect("stop");
    assert_eq!(end.termination, TerminationReason::NumericalFailure);
    assert!(!end.success);
    assert_eq!(end.iterations, 1);
}

#[test]
fn a_nan_guess_fails_before_any_iteration() {
    let end = IcpLoop::rejected_guess();
    assert_eq!(end.termination, TerminationReason::NumericalFailure);
    assert_eq!(end.iterations, 0);
    assert!(!end.success);
}

fn end(success: bool, termination: TerminationReason, iterations: i32) -> LoopEnd {
    LoopEnd {
        success,
        termination,
        iterations,
        report_best: false,
    }
}

#[test]
fn restarts_add_iterations_until_the_first_failure() {
    let first = end(true, TerminationReason::Converged, 12);
    let mut shell = RestartShell::new(first, 77, 20, true);
    assert!(shell.is_open());
    assert!(shell.record(end(true, TerminationReason::Converged, 5)));
    assert!(shell.record(end(true, TerminationReason::CycleDetected, 3)));
    assert_eq!(
        shell.finish(),
        (end(true, TerminationReason::Converged, 20), 77)
    );
    assert!(!shell.record(end(false, TerminationReason::NumericalFailure, 7)));
    assert!(!shell.is_open());
    assert_eq!(
        shell.finish(),
        (end(true, TerminationReason::Converged, 20), 77)
    );
}

#[test]
fn at_most_six_restarts_are_tried() {
    let first = end(true, TerminationReason::Converged, 4);
    let mut shell = RestartShell::new(first, 30, 10, true);
    for _ in 0..6 {
        assert!(shell.is_open());
        assert!(shell.record(end(true, TerminationReason::IterationLimit, 11)));
    }
    assert!(!shell.is_open());
    // The total is the first loop's iterations plus six full loops.
    assert_eq!(
        shell.finish(),
        (end(true, TerminationReason::Converged, 4 + 6 * 11), 30)
    );
}

#[test]
fn a_failed_or_unwanted_first_loop_is_returned_as_it_is() {
    let failed = end(false, TerminationReason::NoCorrespondences, 1);
    let shell = RestartShell::new(failed, 0, 10, true);
    assert!(!shell.is_open());
    assert_eq!(shell.finish(), (failed, 0));
    let converged = end(true, TerminationReason::Converged, 9);
    let shell = RestartShell::new(converged, 55, 10, false);
    assert!(!shell.is_open());
    assert_eq!(shell.finish(), (converged, 55));
}

#[test]
fn a_run_ends_by_three_events_per_iteration() {
    // Each iteration takes a search, a rejection and a solve; a loop limited
    // to 4 iterations that never converges ends after 12 events with 5
    // iterations reported.
    let mut l = IcpLoop::new(4, DistanceMetric::PointToPoint, 100);
    let mut events = 0;
    while l.has_next() {
        assert_eq!(l.step(IterationEvent::Searched { found: 50 }), None);
        assert_eq!(l.step(IterationEvent::Trimmed { kept: 40 }), None);
        // The same correspondences each time: no cycle for point-to-point.
        assert_eq!(l.step(solved(7, false)), None);
        events += 3;
    }
    assert_eq!(events, 12);
    assert_eq!(
        l.exhausted(),
        end(true, TerminationReason::IterationLimit, 5)
    );
}

#[test]
fn correspondence_share_matches_the_floating_point_threshold() {
    for nrays in 10..=300usize {
        for found in 0..=nrays {
            let mut l = IcpLoop::new(10, DistanceMetric::PointToLine, nrays);
            let stopped = l.step(IterationEvent::Searched { found }).is_some();
            assert_eq!(stopped, (found as f64) < nrays as f64 * 0.05);
        }
    }
}
