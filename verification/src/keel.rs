//! The keel's calibration state and the rules it applies to readings.
//!
//! The measured states themselves are opaque here (`S`): the keel only keeps
//! them as the baseline and as the previous step, hands them back when a
//! reading is taken, and counts steps.

use vstd::prelude::*;

use crate::sign_pattern::SignPattern;

verus! {

/// Which dimensions of a reading exceeded the perturbation threshold.
#[derive(Debug, Clone, Copy, PartialEq, Eq, Structural)]
pub struct ThresholdBreaches {
    /// `|position| > threshold`.
    pub position: bool,
    /// `velocity > threshold`.
    pub velocity: bool,
    /// Some agent's strain is above the threshold.
    pub strain: bool,
    /// `|1 - alignment| > threshold`.
    pub alignment: bool,
}

/// The number of dimensions that exceeded the threshold.
pub open spec fn breach_count(b: ThresholdBreaches) -> nat {
    (if b.position { 1nat } else { 0nat }) + (if b.velocity { 1nat } else { 0nat }) + (if b.strain {
        1nat
    } else {
        0nat
    }) + (if b.alignment { 1nat } else { 0nat })
}

/// The orientation differs from a calibrated baseline pattern.
pub open spec fn orientation_flipped(baseline: Option<Seq<i8>>, orientation: Seq<i8>) -> bool {
    match baseline {
        Some(b) => b != orientation,
        None => false,
    }
}

/// The weighted vote of a reading: one per breached dimension, two for an
/// orientation flip.
pub open spec fn perturbation_votes(
    b: ThresholdBreaches,
    baseline: Option<Seq<i8>>,
    orientation: Seq<i8>,
) -> nat {
    breach_count(b) + (if orientation_flipped(baseline, orientation) { 2nat } else { 0nat })
}

/// `2 * expected`, saturating at `usize::MAX`.
pub open spec fn allowed_steps(expected: usize) -> int {
    if 2 * expected > usize::MAX {
        usize::MAX as int
    } else {
        2 * expected
    }
}

/// The lateness rule: an agent is late when its energy has collapsed, or when
/// it is expected to converge and has run past twice the expected number of
/// steps. `usize::MAX` as the expectation means no convergence is expected,
/// so no step budget applies.
pub open spec fn process_late(steps_elapsed: usize, expected: usize, energy_collapsed: bool) -> bool {
    (expected != usize::MAX && steps_elapsed > allowed_steps(expected)) || energy_collapsed
}

/// An agent found late stays late as more steps elapse.
pub proof fn lemma_lateness_is_monotonic(
    earlier: usize,
    later: usize,
    expected: usize,
    energy_collapsed: bool,
)
    requires
        earlier <= later,
        process_late(earlier, expected, energy_collapsed),
    ensures
        process_late(later, expected, energy_collapsed),
{
}

/// A perturbation is flagged exactly when at least two dimensions breach the
/// threshold or the orientation flipped away from the baseline.
pub proof fn lemma_perturbation_rule(
    b: ThresholdBreaches,
    baseline: Option<Seq<i8>>,
    orientation: Seq<i8>,
)
    ensures
        (perturbation_votes(b, baseline, orientation) >= 2) <==> (breach_count(b) >= 2
            || orientation_flipped(baseline, orientation)),
        (perturbation_votes(b, baseline, orientation) >= 2) <==> ({
            ||| b.position && b.velocity
            ||| b.position && b.strain
            ||| b.position && b.alignment
            ||| b.velocity && b.strain
            ||| b.velocity && b.alignment
            ||| b.strain && b.alignment
            ||| baseline is Some && baseline.unwrap() != orientation
        }),
{
}

/// The breach count is the number of set flags: each flag alone counts one,
/// and the count grows by one for every further flag set.
pub proof fn lemma_breach_count_counts_flags(b: ThresholdBreaches)
    ensures
        breach_count(b) <= 4,
        !b.position && !b.velocity && !b.strain && !b.alignment ==> breach_count(b) == 0,
        b.position && !b.velocity && !b.strain && !b.alignment ==> breach_count(b) == 1,
        !b.position && b.velocity && !b.strain && !b.alignment ==> breach_count(b) == 1,
        !b.position && !b.velocity && b.strain && !b.alignment ==> breach_count(b) == 1,
        !b.position && !b.velocity && !b.strain && b.alignment ==> breach_count(b) == 1,
        breach_count(b) == (if b.position { 1int } else { 0int }) + (if b.velocity {
            1int
        } else {
            0int
        }) + (if b.strain { 1int } else { 0int }) + (if b.alignment { 1int } else { 0int }),
{
}

/// The lateness rule written out: collapsed energy is always late; otherwise
/// an agent with an expectation `e != usize::MAX` whose budget `2 * e` fits in
/// `usize` is late exactly when more than `2 * e` steps have elapsed, and
/// any other agent is not late.
pub proof fn lemma_lateness_rule(steps_elapsed: usize, expected: usize, energy_collapsed: bool)
    ensures
        process_late(steps_elapsed, expected, energy_collapsed) == (energy_collapsed || (expected
            != usize::MAX && 2 * expected <= usize::MAX && steps_elapsed > 2 * expected)),
        energy_collapsed ==> process_late(steps_elapsed, expected, energy_collapsed),
        !energy_collapsed && expected != usize::MAX && 2 * expected <= usize::MAX ==> (process_late(
            steps_elapsed,
            expected,
            energy_collapsed,
        ) <==> steps_elapsed > 2 * expected),
        !energy_collapsed && expected == usize::MAX ==> !process_late(
            steps_elapsed,
            expected,
            energy_collapsed,
        ),
{
}

/// The keel's calibration state for a fleet of `AGENTS` agents whose states
/// are values of `S`.
#[derive(Debug)]
pub struct Keel<S, const AGENTS: usize> {
    baseline_means: Option<S>,
    baseline_pattern: Option<SignPattern<AGENTS>>,
    prev_states: Option<S>,
    step_count: usize,
}

impl<S, const AGENTS: usize> Keel<S, AGENTS> {
    #[verifier::type_invariant]
    spec fn calibrated_together(self) -> bool {
        &&& self.baseline_means is Some <==> self.baseline_pattern is Some
        &&& self.baseline_means is Some <==> self.prev_states is Some
        &&& self.baseline_means is None ==> self.step_count == 0
    }

    /// The baseline states fixed at calibration.
    pub closed spec fn baseline(&self) -> Option<S> {
        self.baseline_means
    }

    /// The sign pattern fixed at calibration.
    pub closed spec fn baseline_pattern(&self) -> Option<Seq<i8>> {
        match self.baseline_pattern {
            Some(p) => Some(p@),
            None => None,
        }
    }

    /// The states of the previous step.
    pub closed spec fn previous(&self) -> Option<S> {
        self.prev_states
    }

    /// The process-relative time: steps read since the last calibration.
    pub closed spec fn steps(&self) -> nat {
        self.step_count as nat
    }

    /// A baseline has been fixed.
    pub open spec fn is_calibrated(&self) -> bool {
        self.baseline() is Some
    }

    /// A keel that is not yet calibrated; the first `read` calibrates it.
    pub fn new(_initial_states: &S) -> (k: Self)
        ensures
            !k.is_calibrated(),
            k.baseline_pattern() is None,
            k.previous() is None,
            k.steps() == 0,
    {
        Keel { baseline_means: None, baseline_pattern: None, prev_states: None, step_count: 0 }
    }

    /// Current step count (process-relative "time").
    pub fn step_count(&self) -> (n: usize)
        ensures
            n == self.steps(),
            !self.is_calibrated() ==> n == 0,
    {
        proof {
            use_type_invariant(self);
        }
        self.step_count
    }

    /// Detect a perturbation: two or more dimensions beyond the threshold,
    /// or an orientation flip from the baseline, which counts double.
    pub fn detect_perturbation(
        &self,
        breaches: &ThresholdBreaches,
        orientation: &SignPattern<AGENTS>,
    ) -> (perturbed: bool)
        ensures
            perturbed == (perturbation_votes(*breaches, self.baseline_pattern(), orientation@) >= 2),
            perturbed == (breach_count(*breaches) >= 2 || orientation_flipped(
                self.baseline_pattern(),
                orientation@,
            )),
            perturbed == ({
                ||| breaches.position && breaches.velocity
                ||| breaches.position && breaches.strain
                ||| breaches.position && breaches.alignment
                ||| breaches.velocity && breaches.strain
                ||| breaches.velocity && breaches.alignment
                ||| breaches.strain && breaches.alignment
                ||| self.baseline_pattern() is Some && self.baseline_pattern().unwrap()
                    != orientation@
            }),
    {
        let mut violations: u8 = 0;
        if breaches.position {
            violations = violations + 1;
        }
        if breaches.velocity {
            violations = violations + 1;
        }
        if breaches.strain {
            violations = violations + 1;
        }
        if breaches.alignment {
            violations = violations + 1;
        }
        if let Some(bp) = &self.baseline_pattern {
            if !orientation.same_as(bp) {
                violations = violations + 2;
            }
        }
        violations >= 2
    }

    /// Process-relative lateness: the other agent is late when it has run
    /// past twice its expected convergence steps, or its energy collapsed
    /// into the dead zone. `expected_steps == usize::MAX` means convergence
    /// is not expected: then no step budget applies, and only collapsed
    /// energy makes the agent late.
    pub fn is_process_late(
        &self,
        steps_elapsed: usize,
        expected_steps: usize,
        energy_collapsed: bool,
    ) -> (late: bool)
        ensures
            late == process_late(steps_elapsed, expected_steps, energy_collapsed),
            late == (energy_collapsed || (expected_steps != usize::MAX && 2 * expected_steps
                <= usize::MAX && steps_elapsed > 2 * expected_steps)),
    {
        let steps_over = if expected_steps == usize::MAX {
            false
        } else {
            let max_allowed = match expected_steps.checked_mul(2) {
                Some(m) => m,
                None => usize::MAX,
            };
            steps_elapsed > max_allowed
        };
        steps_over || energy_collapsed
    }
}

impl<S: Copy, const AGENTS: usize> Clone for Keel<S, AGENTS> {
    fn clone(&self) -> (k: Self)
        ensures
            k.baseline() == self.baseline(),
            k.baseline_pattern() == self.baseline_pattern(),
            k.previous() == self.previous(),
            k.steps() == self.steps(),
    {
        proof {
            use_type_invariant(self);
        }
        let baseline_pattern = match &self.baseline_pattern {
            Some(p) => Some(p.clone()),
            None => None,
        };
        Keel {
            baseline_means: self.baseline_means,
            baseline_pattern,
            prev_states: self.prev_states,
            step_count: self.step_count,
        }
    }
}

impl<S: Copy, const AGENTS: usize> Keel<S, AGENTS> {
    /// Fix the baseline at `states`, whose sign pattern is `pattern`, and
    /// restart the step count. The baseline stays until the next calibration.
    pub fn calibrate(&mut self, states: &S, pattern: SignPattern<AGENTS>)
        ensures
            final(self).baseline() == Some(*states),
            final(self).baseline_pattern() == Some(pattern@),
            final(self).previous() == Some(*states),
            final(self).steps() == 0,
    {
        *self = Keel {
            baseline_means: Some(*states),
            baseline_pattern: Some(pattern),
            prev_states: Some(*states),
            step_count: 0,
        };
    }

    /// Take a step with the current `states`, whose sign pattern is
    /// `pattern`. The first read calibrates the keel. Returns the baseline
    /// and the previous step's states, against which the reading's strain
    /// and velocity are measured; then `states` become the previous step.
    pub fn read(&mut self, states: &S, pattern: SignPattern<AGENTS>) -> (refs: (S, S))
        requires
            old(self).steps() < usize::MAX,
        ensures
            final(self).is_calibrated(),
            final(self).steps() == old(self).steps() + 1,
            !old(self).is_calibrated() ==> old(self).steps() == 0,
            old(self).is_calibrated() ==> {
                &&& final(self).baseline() == old(self).baseline()
                &&& final(self).baseline_pattern() == old(self).baseline_pattern()
                &&& refs == (old(self).baseline().unwrap(), old(self).previous().unwrap())
            },
            !old(self).is_calibrated() ==> {
                &&& final(self).baseline() == Some(*states)
                &&& final(self).baseline_pattern() == Some(pattern@)
                &&& refs == (*states, *states)
            },
            final(self).previous() == Some(*states),
    {
        proof {
            use_type_invariant(&*self);
        }
        if self.baseline_means.is_none() {
            self.calibrate(states, pattern);
        }
        let baseline = match self.baseline_means {
            Some(b) => b,
            None => *states,
        };
        let prev = match self.prev_states {
            Some(p) => p,
            None => *states,
        };
        self.prev_states = Some(*states);
        self.step_count = self.step_count + 1;
        (baseline, prev)
    }
}

} // verus!
