//! The decisions of the ICP loop: iteration counting, correspondence-cycle
//! detection, and the reason and success of each way the loop can stop.

use vstd::prelude::*;
use crate::matching::TerminationReason;
use crate::params::DistanceMetric;

verus! {

/// The stage an ICP iteration is in.
#[derive(Clone, Copy, Debug, PartialEq, Eq, Structural)]
pub enum Stage {
    /// About to search correspondences (the start of an iteration).
    Search,
    /// Correspondences found; about to reject outliers.
    Trim,
    /// Outliers rejected; about to solve for the next pose.
    Solve,
}

/// What the engine learned at the current stage of an iteration.
#[derive(Clone, Copy, Debug, PartialEq, Eq, Structural)]
pub enum IterationEvent {
    /// The correspondence search found `found` valid correspondences.
    Searched { found: usize },
    /// Outlier rejection kept `kept` correspondences.
    Trimmed { kept: usize },
    /// The linear solve for the next pose failed.
    SolveFailed,
    /// A next pose was solved. `hash` is the hash of the surviving
    /// correspondence set; `small_step` tells whether the pose change is
    /// below both stopping thresholds.
    Solved { hash: u32, small_step: bool },
}

/// The stage at which an event can be reported.
pub open spec fn stage_of(event: IterationEvent) -> Stage {
    match event {
        IterationEvent::Searched { .. } => Stage::Search,
        IterationEvent::Trimmed { .. } => Stage::Trim,
        _ => Stage::Solve,
    }
}

/// How the loop stopped.
#[derive(Clone, Copy, Debug, PartialEq, Eq, Structural)]
pub struct LoopEnd {
    /// Whether the loop produced a usable estimate.
    pub success: bool,
    /// Why it stopped.
    pub termination: TerminationReason,
    /// Iterations to report.
    pub iterations: i32,
    /// Report the best estimate seen so far rather than the latest one.
    pub report_best: bool,
}

/// The loop's state as seen by its contracts.
pub struct LoopState {
    /// Iteration limit.
    pub max_iterations: nat,
    /// Rays of the sensor scan.
    pub nrays: nat,
    /// Completed iterations.
    pub iteration: nat,
    /// The stage of the current iteration.
    pub stage: Stage,
    /// Whether cycles are detected (point-to-line metric).
    pub detects_cycles: bool,
    /// Correspondence hashes of the completed iterations, in order.
    pub history: Seq<u32>,
    /// Whether the loop has stopped.
    pub stopped: bool,
}

/// One run of the ICP loop.
pub struct IcpLoop {
    max_iterations: usize,
    nrays: usize,
    iteration: usize,
    stage: Stage,
    detects_cycles: bool,
    history: Vec<u32>,
    stopped: bool,
}

impl View for IcpLoop {
    type V = LoopState;

    closed spec fn view(&self) -> LoopState {
        LoopState {
            max_iterations: self.max_iterations as nat,
            nrays: self.nrays as nat,
            iteration: self.iteration as nat,
            stage: self.stage,
            detects_cycles: self.detects_cycles,
            history: self.history@,
            stopped: self.stopped,
        }
    }
}

/// Too few correspondences to go on: fewer than 5% of the sensor rays.
pub open spec fn too_few(count: nat, nrays: nat) -> bool {
    20 * count < nrays
}

/// The reason for stopping on too few correspondences: none at all, or some
/// but too few for a usable geometry.
pub open spec fn too_few_reason(count: nat) -> TerminationReason {
    if count == 0 {
        TerminationReason::NoCorrespondences
    } else {
        TerminationReason::InsufficientGeometry
    }
}

/// The end reported when the loop stops during iteration `iteration`
/// (counting from zero) for a reason other than a cycle.
pub open spec fn ended(success: bool, termination: TerminationReason, iteration: nat) -> LoopEnd {
    LoopEnd { success, termination, iterations: (iteration + 1) as i32, report_best: false }
}

/// The stop an event causes in state `s`, if any.
pub open spec fn stop_of(s: LoopState, event: IterationEvent) -> Option<LoopEnd> {
    match event {
        IterationEvent::Searched { found } => if too_few(found as nat, s.nrays) {
            Some(ended(false, too_few_reason(found as nat), s.iteration))
        } else {
            None
        },
        IterationEvent::Trimmed { kept } => if too_few(kept as nat, s.nrays) {
            Some(ended(false, too_few_reason(kept as nat), s.iteration))
        } else {
            None
        },
        IterationEvent::SolveFailed => Some(
            ended(false, TerminationReason::NumericalFailure, s.iteration),
        ),
        IterationEvent::Solved { hash, small_step } => if s.detects_cycles && s.history.contains(
            hash,
        ) {
            Some(
                LoopEnd {
                    success: true,
                    termination: TerminationReason::CycleDetected,
                    iterations: (s.iteration + 1) as i32,
                    report_best: true,
                },
            )
        } else if small_step {
            Some(ended(true, TerminationReason::Converged, s.iteration))
        } else {
            None
        },
    }
}

/// The stage that follows an event that does not stop the loop.
pub open spec fn next_stage(event: IterationEvent) -> Stage {
    match event {
        IterationEvent::Searched { .. } => Stage::Trim,
        IterationEvent::Trimmed { .. } => Stage::Solve,
        _ => Stage::Search,
    }
}

/// The iteration limit of a loop configured with `max_iterations`: a
/// negative setting allows none.
pub open spec fn limit_of(max_iterations: i32) -> nat {
    if max_iterations < 0 {
        0
    } else {
        max_iterations as nat
    }
}

/// The state of a loop before its first iteration.
pub open spec fn fresh(max_iterations: i32, metric: DistanceMetric, nrays: nat) -> LoopState {
    LoopState {
        max_iterations: limit_of(max_iterations),
        nrays,
        iteration: 0,
        stage: Stage::Search,
        detects_cycles: metric == DistanceMetric::PointToLine,
        history: Seq::<u32>::empty(),
        stopped: false,
    }
}

/// The state after an event that does not stop the loop: the next stage of
/// the iteration, or, after a solve, the next iteration with the
/// correspondence hash recorded.
pub open spec fn after(s: LoopState, event: IterationEvent) -> LoopState {
    match event {
        IterationEvent::Solved { hash, .. } => LoopState {
            iteration: s.iteration + 1,
            stage: Stage::Search,
            history: s.history.push(hash),
            ..s
        },
        _ => LoopState { stage: next_stage(event), ..s },
    }
}

/// The end of a loop that ran all `max_iterations` iterations: it succeeds
/// when at least one iteration ran, and reports one more iteration than the
/// limit.
pub open spec fn limit_end(max_iterations: nat) -> LoopEnd {
    LoopEnd {
        success: max_iterations > 0,
        termination: TerminationReason::IterationLimit,
        iterations: (max_iterations + 1) as i32,
        report_best: false,
    }
}

/// How a run that reports `events` in order from state `s` ends, with the
/// number of events it took; `None` while it has not ended. The run stops at
/// the first event that ends it, or runs out of iterations at the start of
/// an iteration beyond the limit; an event reported at the wrong stage
/// is not taken.
pub open spec fn run_end(s: LoopState, events: Seq<IterationEvent>) -> Option<(LoopEnd, nat)>
    decreases events.len(),
{
    if s.stage == Stage::Search && s.iteration >= s.max_iterations {
        Some((limit_end(s.max_iterations), 0nat))
    } else if events.len() == 0 || stage_of(events[0]) != s.stage {
        None
    } else {
        match stop_of(s, events[0]) {
            Some(end) => Some((end, 1nat)),
            None => match run_end(after(s, events[0]), events.drop_first()) {
                Some((end, k)) => Some((end, k + 1)),
                None => None,
            },
        }
    }
}

/// The number of correspondences an event reports, for the search and the
/// outlier rejection.
pub open spec fn reported_count(event: IterationEvent) -> Option<nat> {
    match event {
        IterationEvent::Searched { found } => Some(found as nat),
        IterationEvent::Trimmed { kept } => Some(kept as nat),
        _ => None,
    }
}

impl IcpLoop {
    /// The loop's well-formedness: it has not run past its limit, and every
    /// completed iteration recorded its correspondence hash.
    pub closed spec fn wf(&self) -> bool {
        &&& self.iteration <= self.max_iterations
        &&& self.max_iterations <= i32::MAX
        &&& self.history@.len() == self.iteration
        &&& (self.stage != Stage::Search ==> self.iteration < self.max_iterations)
    }

    /// Start a loop of at most `max_iterations` iterations (none when the limit
    /// is negative) over a sensor scan of `nrays` rays. Correspondence cycles
    /// end the loop only for the point-to-line metric.
    pub fn new(max_iterations: i32, metric: DistanceMetric, nrays: usize) -> (l: IcpLoop)
        ensures
            l.wf(),
            l@ == fresh(max_iterations, metric, nrays as nat),
    {
        let max: usize = if max_iterations < 0 {
            0
        } else {
            max_iterations as usize
        };
        IcpLoop {
            max_iterations: max,
            nrays,
            iteration: 0,
            stage: Stage::Search,
            detects_cycles: matches!(metric, DistanceMetric::PointToLine),
            history: Vec::new(),
            stopped: false,
        }
    }

    /// The end of a loop whose initial guess has a NaN component: a numerical
    /// failure before any iteration.
    pub fn rejected_guess() -> (end: LoopEnd)
        ensures
            end == (LoopEnd {
                success: false,
                termination: TerminationReason::NumericalFailure,
                iterations: 0,
                report_best: false,
            }),
    {
        LoopEnd {
            success: false,
            termination: TerminationReason::NumericalFailure,
            iterations: 0,
            report_best: false,
        }
    }

    /// Whether another iteration may start: the loop has not stopped, the
    /// previous iteration is complete, and the limit is not reached.
    pub fn has_next(&self) -> (r: bool)
        requires
            self.wf(),
        ensures
            r == (!self@.stopped && self@.stage == Stage::Search && self@.iteration
                < self@.max_iterations),
    {
        !self.stopped && matches!(self.stage, Stage::Search) && self.iteration < self.max_iterations
    }

    /// Whether `hash` was recorded by an earlier iteration.
    fn seen(&self, hash: u32) -> (r: bool)
        ensures
            r == self@.history.contains(hash),
    {
        let mut k: usize = 0;
        while k < self.history.len()
            invariant
                k <= self.history@.len(),
                forall|m: int| 0 <= m < k ==> self.history@[m] != hash,
            decreases self.history@.len() - k,
        {
            if self.history[k] == hash {
                assert(self.history@[k as int] == hash);
                return true;
            }
            k += 1;
        }
        false
    }

    /// Account for what the current stage of the iteration learned. Returns
    /// how the loop ends, or `None` when it goes on. Matching stops when the
    /// search or the outlier rejection leaves fewer than 5% of the sensor rays
    /// with a correspondence, or when the solve fails. A solved iteration
    /// records its correspondence hash and completes; it stops on a cycle
    /// when cycles are detected and the hash was recorded before, otherwise
    /// it converges when the pose step is small.
    pub fn step(&mut self, event: IterationEvent) -> (end: Option<LoopEnd>)
        requires
            old(self).wf(),
            !old(self)@.stopped,
            old(self)@.stage == stage_of(event),
            old(self)@.iteration < old(self)@.max_iterations,
        ensures
            final(self).wf(),
            end == stop_of(old(self)@, event),
            final(self)@.stopped == end is Some,
            final(self)@.max_iterations == old(self)@.max_iterations,
            final(self)@.nrays == old(self)@.nrays,
            final(self)@.detects_cycles == old(self)@.detects_cycles,
            end is None ==> final(self)@ == after(old(self)@, event),
            final(self)@.iteration == old(self)@.iteration + (if event is Solved {
                1nat
            } else {
                0nat
            }),
            final(self)@.history == (match event {
                IterationEvent::Solved { hash, .. } => old(self)@.history.push(hash),
                _ => old(self)@.history,
            }),
    {
        let iterations = (self.iteration + 1) as i32;
        let end = match event {
            IterationEvent::Searched { found } => {
                if 20 * (found as u128) < self.nrays as u128 {
                    Some(
                        LoopEnd {
                            success: false,
                            termination: TerminationReason::for_too_few(found),
                            iterations,
                            report_best: false,
                        },
                    )
                } else {
                    self.stage = Stage::Trim;
                    None
                }
            },
            IterationEvent::Trimmed { kept } => {
                if 20 * (kept as u128) < self.nrays as u128 {
                    Some(
                        LoopEnd {
                            success: false,
                            termination: TerminationReason::for_too_few(kept),
                            iterations,
                            report_best: false,
                        },
                    )
                } else {
                    self.stage = Stage::Solve;
                    None
                }
            },
            IterationEvent::SolveFailed => {
                Some(
                    LoopEnd {
                        success: false,
                        termination: TerminationReason::NumericalFailure,
                        iterations,
                        report_best: false,
                    },
                )
            },
            IterationEvent::Solved { hash, small_step } => {
                let oscillating = self.detects_cycles && self.seen(hash);
                self.history.push(hash);
                self.iteration = self.iteration + 1;
                self.stage = Stage::Search;
                if oscillating {
                    Some(
                        LoopEnd {
                            success: true,
                            termination: TerminationReason::CycleDetected,
                            iterations,
                            report_best: true,
                        },
                    )
                } else if small_step {
                    Some(
                        LoopEnd {
                            success: true,
                            termination: TerminationReason::Converged,
                            iterations,
                            report_best: false,
                        },
                    )
                } else {
                    None
                }
            },
        };
        self.stopped = end.is_some();
        end
    }

    /// The end of a loop that ran out of iterations: it succeeds when at least
    /// one iteration ran, and reports one more iteration than the limit.
    pub fn exhausted(&self) -> (end: LoopEnd)
        requires
            self.wf(),
            !self@.stopped,
            self@.iteration == self@.max_iterations,
            self@.max_iterations < i32::MAX,
        ensures
            end == limit_end(self@.max_iterations),
    {
        LoopEnd {
            success: self.max_iterations > 0,
            termination: TerminationReason::IterationLimit,
            iterations: (self.max_iterations + 1) as i32,
            report_best: false,
        }
    }
}

/// The number of restarts tried at most: one for each of the six local
/// perturbations of the first loop's estimate.
pub const RESTART_ATTEMPTS: usize = 6;

/// The restart accounting as seen by its contracts.
pub struct RestartState {
    /// How the first loop ended.
    pub first: LoopEnd,
    /// The correspondences the first loop reported.
    pub first_nvalid: i32,
    /// The iteration limit of each loop.
    pub limit: nat,
    /// Iterations counted so far.
    pub total: int,
    /// Restarts accounted for so far.
    pub attempts: nat,
    /// Whether another restart may be tried.
    pub open: bool,
}

/// The iteration accounting of the restarts tried after a successful first
/// loop: each restart that succeeds adds its iterations; the first one that
/// fails ends the restarts and adds nothing. The outcome keeps the first
/// loop's success, termination reason and correspondence count.
pub struct RestartShell {
    first: LoopEnd,
    first_nvalid: i32,
    limit: Ghost<nat>,
    iterations: i32,
    attempts: usize,
    open: bool,
}

impl View for RestartShell {
    type V = RestartState;

    closed spec fn view(&self) -> RestartState {
        RestartState {
            first: self.first,
            first_nvalid: self.first_nvalid,
            limit: self.limit@,
            total: self.iterations as int,
            attempts: self.attempts as nat,
            open: self.open,
        }
    }
}

impl RestartShell {
    /// Well-formedness: no more restarts than perturbations, restarts only
    /// after a successful first loop, and each counted restart adding at most
    /// one loop's worth of iterations.
    pub closed spec fn wf(&self) -> bool {
        &&& self.attempts <= RESTART_ATTEMPTS
        &&& (self.open ==> self.first.success && self.attempts < RESTART_ATTEMPTS)
        &&& (self.attempts > 0 ==> self.first.success)
        &&& self.first.iterations <= self.iterations
        &&& self.iterations <= self.first.iterations + self.attempts * (self.limit@ + 1)
    }

    /// Start the accounting after the first loop, which ended with `first`
    /// and `first_nvalid` correspondences under an iteration limit of
    /// `max_iterations`. Restarts are tried only when `wanted` and the first
    /// loop succeeded.
    pub fn new(first: LoopEnd, first_nvalid: i32, max_iterations: i32, wanted: bool) -> (shell:
        RestartShell)
        ensures
            shell.wf(),
            shell@ == (RestartState {
                first,
                first_nvalid,
                limit: limit_of(max_iterations),
                total: first.iterations as int,
                attempts: 0,
                open: first.success && wanted,
            }),
    {
        RestartShell {
            first,
            first_nvalid,
            limit: Ghost(limit_of(max_iterations)),
            iterations: first.iterations,
            attempts: 0,
            open: first.success && wanted,
        }
    }

    /// Account for one restart, which ended with `end` after at most one
    /// loop's worth of iterations. Returns whether its result takes part in
    /// the choice of the best estimate, which is whether it succeeded.
    pub fn record(&mut self, end: LoopEnd) -> (counted: bool)
        requires
            old(self).wf(),
            old(self)@.open,
            0 <= end.iterations <= old(self)@.limit + 1,
            end.success ==> old(self)@.total + end.iterations <= i32::MAX,
        ensures
            final(self).wf(),
            counted == end.success,
            final(self)@ == (RestartState {
                total: old(self)@.total + (if end.success {
                    end.iterations as int
                } else {
                    0
                }),
                attempts: old(self)@.attempts + 1,
                open: end.success && old(self)@.attempts + 1 < RESTART_ATTEMPTS,
                ..old(self)@
            }),
    {
        proof {
            assert((self.attempts + 1) * (self.limit@ + 1) == self.attempts * (self.limit@ + 1) + (
            self.limit@ + 1)) by (nonlinear_arith);
        }
        self.attempts = self.attempts + 1;
        if end.success {
            self.iterations = self.iterations + end.iterations;
            self.open = self.attempts < RESTART_ATTEMPTS;
        } else {
            self.open = false;
        }
        end.success
    }

    /// Whether another restart may be tried; never more than
    /// [`RESTART_ATTEMPTS`] are.
    pub fn is_open(&self) -> (open: bool)
        requires
            self.wf(),
        ensures
            open == self@.open,
            open ==> self@.attempts < RESTART_ATTEMPTS,
    {
        self.open
    }

    /// The outcome of the first loop and its restarts: the first loop's
    /// success, termination reason and correspondence count, with the
    /// iterations of all counted loops. It is the first loop's own outcome
    /// when no restart was tried, in particular when the first loop failed or
    /// no restart was wanted; otherwise the total lies between the first
    /// loop's iterations and that plus one loop's limit for each of the six
    /// restarts.
    pub fn finish(&self) -> (r: (LoopEnd, i32))
        requires
            self.wf(),
        ensures
            r.0 == (LoopEnd { iterations: self@.total as i32, ..self@.first }),
            r.1 == self@.first_nvalid,
            self@.attempts == 0 ==> r == (self@.first, self@.first_nvalid),
            self@.attempts > 0 ==> self@.first.success,
            self@.first.iterations <= r.0.iterations <= self@.first.iterations
                + RESTART_ATTEMPTS * (self@.limit + 1),
    {
        proof {
            assert(self.attempts * (self.limit@ + 1) <= RESTART_ATTEMPTS * (self.limit@ + 1))
                by (nonlinear_arith)
                requires
                    self.attempts <= RESTART_ATTEMPTS,
            ;
            if self.attempts == 0 {
                assert(self.attempts * (self.limit@ + 1) == 0) by (nonlinear_arith)
                    requires
                        self.attempts == 0,
                ;
            }
        }
        (LoopEnd { iterations: self.iterations, ..self.first }, self.first_nvalid)
    }
}

/// What holds of the end of a run from state `s` after taking `k` of
/// `events`.
spec fn run_end_facts(s: LoopState, events: Seq<IterationEvent>, end: LoopEnd, k: nat) -> bool {
    &&& k <= events.len()
    &&& end.success <==> (end.termination == TerminationReason::Converged || end.termination
        == TerminationReason::CycleDetected || (end.termination
        == TerminationReason::IterationLimit && s.max_iterations > 0))
    &&& s.iteration + 1 <= end.iterations <= s.max_iterations + 1
    &&& end.termination == TerminationReason::IterationLimit ==> end.iterations
        == s.max_iterations + 1
    &&& end.termination == TerminationReason::CycleDetected ==> s.detects_cycles
    &&& end.report_best <==> end.termination == TerminationReason::CycleDetected
    &&& (end.termination == TerminationReason::NoCorrespondences || end.termination
        == TerminationReason::InsufficientGeometry) ==> {
        &&& k >= 1
        &&& reported_count(events[k - 1]) matches Some(count)
        &&& too_few(count, s.nrays)
        &&& (end.termination == TerminationReason::NoCorrespondences <==> count == 0)
    }
}

/// The states a loop passes through: within its limit, with the limit small
/// enough that one more iteration can be counted, and mid-iteration only
/// below the limit.
spec fn reachable(s: LoopState) -> bool {
    &&& s.iteration <= s.max_iterations
    &&& s.max_iterations < i32::MAX
    &&& (s.stage != Stage::Search ==> s.iteration < s.max_iterations)
}

proof fn lemma_run_from(s: LoopState, events: Seq<IterationEvent>)
    requires
        reachable(s),
    ensures
        run_end(s, events) matches Some((end, k)) ==> run_end_facts(s, events, end, k),
    decreases events.len(),
{
    let continues = !(s.stage == Stage::Search && s.iteration >= s.max_iterations) && events.len()
        > 0 && stage_of(events[0]) == s.stage && stop_of(s, events[0]) is None;
    // Otherwise the run ends here, on the limit or on the first event, or has
    // not ended.
    if continues {
        let rest = events.drop_first();
        lemma_run_from(after(s, events[0]), rest);
        if let Some((end, k)) = run_end(after(s, events[0]), rest) {
            if k >= 1 {
                assert(events[k as int] == rest[k - 1]);
            }
        }
    }
}

/// Over a whole run of the loop, from its start and whatever the engine
/// reports: the loop succeeds exactly when it converges, stops on a cycle, or
/// runs out of iterations after at least one; it reports between one and
/// `max + 1` iterations (`max` being the limit, none when negative), exactly
/// `max + 1` when it runs out of iterations; it stops on a cycle only with the
/// point-to-line metric, and reports the best estimate exactly then; and when
/// it stops for too few correspondences, the event that stopped it reported
/// fewer than 5% of the sensor rays, none exactly when the reason is that
/// there were no correspondences.
pub proof fn lemma_loop_run(
    max_iterations: i32,
    metric: DistanceMetric,
    nrays: nat,
    events: Seq<IterationEvent>,
)
    requires
        max_iterations < i32::MAX,
    ensures
        run_end(fresh(max_iterations, metric, nrays), events) matches Some((end, k)) ==> {
            let m = limit_of(max_iterations);
            &&& k <= events.len()
            &&& end.success <==> (end.termination == TerminationReason::Converged
                || end.termination == TerminationReason::CycleDetected || (end.termination
                == TerminationReason::IterationLimit && m > 0))
            &&& 1 <= end.iterations <= m + 1
            &&& end.termination == TerminationReason::IterationLimit ==> end.iterations == m + 1
            &&& end.termination == TerminationReason::CycleDetected ==> metric
                == DistanceMetric::PointToLine
            &&& end.report_best <==> end.termination == TerminationReason::CycleDetected
            &&& (end.termination == TerminationReason::NoCorrespondences || end.termination
                == TerminationReason::InsufficientGeometry) ==> {
                &&& k >= 1
                &&& reported_count(events[k - 1]) matches Some(count)
                &&& too_few(count, nrays)
                &&& (end.termination == TerminationReason::NoCorrespondences <==> count == 0)
            }
        },
{
    lemma_run_from(fresh(max_iterations, metric, nrays), events);
}

/// The stage that follows `stage` within an iteration, and the start of the
/// next iteration after a solve.
pub open spec fn stage_after(stage: Stage) -> Stage {
    match stage {
        Stage::Search => Stage::Trim,
        Stage::Trim => Stage::Solve,
        Stage::Solve => Stage::Search,
    }
}

/// Events reported in the order of the stages, starting at `stage`.
pub open spec fn in_stage_order(events: Seq<IterationEvent>, stage: Stage) -> bool
    decreases events.len(),
{
    events.len() == 0 || (stage_of(events[0]) == stage && in_stage_order(
        events.drop_first(),
        stage_after(stage),
    ))
}

spec fn stage_index(stage: Stage) -> nat {
    match stage {
        Stage::Search => 0,
        Stage::Trim => 1,
        Stage::Solve => 2,
    }
}

proof fn lemma_run_ends_from(s: LoopState, events: Seq<IterationEvent>)
    requires
        reachable(s),
        in_stage_order(events, s.stage),
        events.len() + stage_index(s.stage) >= 3 * (s.max_iterations - s.iteration),
    ensures
        run_end(s, events) is Some,
    decreases events.len(),
{
    // Below the limit an event is due, and either ends the run or leads to
    // a state one event closer to the limit.
    if !(s.stage == Stage::Search && s.iteration >= s.max_iterations) && stop_of(s, events[0])
        is None {
        lemma_run_ends_from(after(s, events[0]), events.drop_first());
    }
}

/// The loop always ends within its limit: from its start, a run whose events
/// come in the order of the stages ends by the time it has taken three events
/// for each allowed iteration.
pub proof fn lemma_loop_ends(
    max_iterations: i32,
    metric: DistanceMetric,
    nrays: nat,
    events: Seq<IterationEvent>,
)
    requires
        max_iterations < i32::MAX,
        in_stage_order(events, Stage::Search),
        events.len() >= 3 * limit_of(max_iterations),
    ensures
        run_end(fresh(max_iterations, metric, nrays), events) is Some,
{
    lemma_run_ends_from(fresh(max_iterations, metric, nrays), events);
}

/// A solved iteration that does not repeat an earlier correspondence set
/// (or any, when cycles are not detected) converges, with the iteration
/// counted, exactly when its pose step is small; otherwise the loop goes on
/// to the next iteration, with the hash recorded. A search or an outlier
/// rejection that leaves at least 5% of the sensor rays with a
/// correspondence moves on to the next stage of the same iteration.
pub proof fn lemma_iteration_steps(s: LoopState, event: IterationEvent)
    requires
        s.iteration < i32::MAX,
    ensures
        event matches IterationEvent::Solved { hash, small_step } ==> (!(s.detects_cycles
            && s.history.contains(hash)) ==> stop_of(s, event) == (if small_step {
            Some(
                LoopEnd {
                    success: true,
                    termination: TerminationReason::Converged,
                    iterations: (s.iteration + 1) as i32,
                    report_best: false,
                },
            )
        } else {
            None::<LoopEnd>
        })) && after(s, event) == (LoopState {
            iteration: s.iteration + 1,
            stage: Stage::Search,
            history: s.history.push(hash),
            ..s
        }),
        event matches IterationEvent::Searched { found } ==> (20 * found >= s.nrays ==> stop_of(
            s,
            event,
        ) is None) && after(s, event) == (LoopState { stage: Stage::Trim, ..s }),
        event matches IterationEvent::Trimmed { kept } ==> (20 * kept >= s.nrays ==> stop_of(
            s,
            event,
        ) is None) && after(s, event) == (LoopState { stage: Stage::Solve, ..s }),
{
}

/// With the point-to-point metric the loop never stops on a cycle.
pub proof fn lemma_point_to_point_never_cycles(s: LoopState, event: IterationEvent)
    requires
        !s.detects_cycles,
    ensures
        stop_of(s, event) matches Some(end) ==> end.termination
            != TerminationReason::CycleDetected,
{
}

/// A loop ends successfully only on a solved iteration, it reports the best
/// estimate exactly when it stops on a cycle, and a successful end is either a
/// convergence or a cycle. A failed solve always stops the loop; a search or
/// an outlier rejection stops it exactly when it leaves fewer than 5% of the
/// sensor rays with a correspondence.
pub proof fn lemma_stops_are_consistent(s: LoopState, event: IterationEvent)
    requires
        s.iteration < i32::MAX,
    ensures
        stop_of(s, event) matches Some(end) ==> {
            &&& end.success ==> event is Solved
            &&& end.success <==> (end.termination == TerminationReason::Converged
                || end.termination == TerminationReason::CycleDetected)
            &&& end.report_best <==> end.termination == TerminationReason::CycleDetected
            &&& end.iterations == s.iteration + 1
        },
        event is SolveFailed ==> stop_of(s, event) is Some,
        event matches IterationEvent::Searched { found } ==> (stop_of(s, event) is Some
            <==> 20 * found < s.nrays),
        event matches IterationEvent::Trimmed { kept } ==> (stop_of(s, event) is Some <==> 20
            * kept < s.nrays),
{
}

/// A cycle is detected on a solved iteration exactly when the loop detects
/// cycles and an earlier solved iteration had the same correspondence hash.
pub proof fn lemma_cycle_means_repeated_hash(s: LoopState, hash: u32, small_step: bool)
    ensures
        (stop_of(s, IterationEvent::Solved { hash, small_step }) matches Some(end)
            && end.termination == TerminationReason::CycleDetected) <==> (s.detects_cycles
            && exists|k: int| 0 <= k < s.history.len() && s.history[k] == hash),
{
    if s.detects_cycles && exists|k: int| 0 <= k < s.history.len() && s.history[k] == hash {
        let k = choose|k: int| 0 <= k < s.history.len() && s.history[k] == hash;
        assert(s.history.contains(hash));
    }
}

} // verus!
