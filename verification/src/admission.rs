//! The admission controller's debounce state machine.
//!
//! Each sampling cycle either offers a candidate set of unit identifiers
//! (the cycle was sufficient) or does not. A counter tracks how many
//! consecutive cycles were sufficient; an insufficient cycle resets it to
//! zero. Once a sufficient cycle brings the run up to the configured
//! stability requirement, the controller admits the latest candidate set;
//! membership of the set is free to differ across the window.

use vstd::prelude::*;
use crate::snapshot::{parse_cuda_info, parse_report, GPUInfo, TelemetryError};
use crate::selector::{check_resource_enough, qualifying, selection};

verus! {

/// The debounce counter after one more cycle: an insufficient cycle resets
/// it, a sufficient one extends the run.
pub open spec fn next_count(count: nat, sufficient: bool) -> nat {
    if sufficient {
        count + 1
    } else {
        0
    }
}

/// A cycle admits exactly when it is sufficient and brings the run of
/// consecutive sufficient cycles up to the stability requirement.
pub open spec fn admits(count: nat, sufficient: bool, stability_cycles: nat) -> bool {
    sufficient && count + 1 >= stability_cycles
}

/// The counter after a whole history of cycles, starting from zero; each
/// entry of the history tells whether that cycle was sufficient.
pub open spec fn count_after(h: Seq<bool>) -> nat
    decreases h.len(),
{
    if h.len() == 0 {
        0
    } else {
        next_count(count_after(h.drop_last()), h.last())
    }
}

/// The run counter counts exactly the sufficient cycles at the end of the
/// history: it is at least `k` precisely when the last `k` cycles all were
/// sufficient.
pub proof fn lemma_count_is_suffix_run(h: Seq<bool>, k: nat)
    ensures
        count_after(h) >= k <==> (h.len() >= k && forall|j: int|
            h.len() - k <= j < h.len() ==> h[j]),
    decreases k,
{
    if k == 0 {
    } else if h.len() == 0 {
    } else {
        lemma_count_is_suffix_run(h.drop_last(), (k - 1) as nat);
        let t = h.drop_last();
        if h.last() && count_after(t) >= k - 1 {
            assert forall|j: int| h.len() - k <= j < h.len() implies h[j] by {
                if j < h.len() - 1 {
                    assert(t[j]);
                }
            }
        }
        if h.len() >= k && forall|j: int| h.len() - k <= j < h.len() ==> h[j] {
            assert(h.last() == h[h.len() - 1]);
            assert forall|j: int| t.len() - (k - 1) <= j < t.len() implies t[j] by {
                assert(h[j]);
            }
        }
    }
}

/// Debounce window law: the cycle that ends a history admits exactly when it
/// and the `stability_cycles - 1` cycles before it were all sufficient. In
/// particular no admission happens before `stability_cycles` consecutive
/// sufficient cycles, and exactly that many suffice.
pub proof fn lemma_debounce_window(h: Seq<bool>, stability_cycles: nat)
    requires
        stability_cycles >= 1,
        h.len() >= 1,
    ensures
        admits(count_after(h.drop_last()), h.last(), stability_cycles) <==> (h.len()
            >= stability_cycles && forall|j: int|
            h.len() - stability_cycles <= j < h.len() ==> h[j]),
{
    let t = h.drop_last();
    lemma_count_is_suffix_run(t, (stability_cycles - 1) as nat);
    if admits(count_after(t), h.last(), stability_cycles) {
        assert forall|j: int| h.len() - stability_cycles <= j < h.len() implies h[j] by {
            if j < h.len() - 1 {
                assert(t[j]);
            } else {
                assert(h.last() == h[h.len() - 1]);
            }
        }
    }
    if h.len() >= stability_cycles && forall|j: int|
        h.len() - stability_cycles <= j < h.len() ==> h[j] {
        assert forall|j: int| t.len() - (stability_cycles - 1) <= j < t.len() implies t[j] by {
            assert(h[j]);
        }
        assert(h.last() == h[h.len() - 1]);
    }
}

/// Debounce reset law: an insufficient cycle resets the counter to zero, so
/// with a stability requirement of at least two, a sufficient cycle, an
/// insufficient one and another sufficient one never admit.
pub proof fn lemma_debounce_reset(count: nat, stability_cycles: nat)
    requires
        stability_cycles >= 2,
    ensures
        next_count(count, false) == 0,
        !admits(next_count(next_count(count, true), false), true, stability_cycles),
{
}

/// Zero-requirement fast path law: when no units are required, every
/// snapshot whatsoever is sufficient — the selection is owed and is the
/// empty list — and with a stability requirement of one cycle the very
/// first cycle admits.
pub proof fn lemma_zero_requirement(units: Seq<GPUInfo>, memory_per_core: u32, gpu_percent: usize)
    ensures
        qualifying(units, memory_per_core, gpu_percent).len() >= 0,
        selection(units, 0, memory_per_core, gpu_percent) =~= Seq::<usize>::empty(),
        admits(0, true, 1),
{
}

/// What the admission controller owns across cycles: how many consecutive
/// sufficient cycles it has seen since the last insufficient one.
pub struct AdmissionState {
    /// Consecutive sufficient cycles, reset to zero by an insufficient cycle.
    pub consecutive_qualifying_cycles: usize,
}

/// The controller's decision after one sampling cycle.
pub enum CycleDecision {
    /// Keep polling: either the cycle was insufficient or the run of
    /// sufficient cycles is still shorter than the stability requirement.
    Continue,
    /// Terminal: commit to this candidate set and launch.
    Admitted(Vec<usize>),
}

impl AdmissionState {
    /// A fresh controller that has seen no sufficient cycle yet.
    pub fn new() -> (s: Self)
        ensures
            s.consecutive_qualifying_cycles == 0,
    {
        AdmissionState { consecutive_qualifying_cycles: 0 }
    }

    /// Feeds one cycle's outcome to the controller: the candidate set of a
    /// sufficient cycle, or nothing for an insufficient one. Admits exactly
    /// when the debounce window is full, handing back the latest candidate
    /// set; otherwise the counter advances (or resets) and polling goes on.
    pub fn step(&mut self, outcome: Option<Vec<usize>>, stability_cycles: usize) -> (d:
        CycleDecision)
        ensures
            admits(
                old(self).consecutive_qualifying_cycles as nat,
                outcome is Some,
                stability_cycles as nat,
            ) ==> (d matches CycleDecision::Admitted(ids) && outcome matches Some(c) && ids@
                == c@),
            !admits(
                old(self).consecutive_qualifying_cycles as nat,
                outcome is Some,
                stability_cycles as nat,
            ) ==> d is Continue && final(self).consecutive_qualifying_cycles == next_count(
                old(self).consecutive_qualifying_cycles as nat,
                outcome is Some,
            ),
    {
        match outcome {
            None => {
                self.consecutive_qualifying_cycles = 0;
                CycleDecision::Continue
            },
            Some(c) => {
                if stability_cycles == 0 {
                    CycleDecision::Admitted(c)
                } else if self.consecutive_qualifying_cycles >= stability_cycles - 1 {
                    CycleDecision::Admitted(c)
                } else {
                    self.consecutive_qualifying_cycles = self.consecutive_qualifying_cycles + 1;
                    CycleDecision::Continue
                }
            },
        }
    }
}

/// One full sampling cycle from one raw telemetry report: decode the
/// report, run the selector against the thresholds, and feed the outcome to
/// the debounce state machine. An undecodable report is fatal and leaves the
/// controller untouched; an insufficient cycle is the loop's normal
/// "not yet" outcome, never an error.
pub fn admission_cycle(
    state: &mut AdmissionState,
    raw: &[u8],
    core_count: usize,
    memory_per_core: u32,
    gpu_percent: usize,
    check_times: usize,
) -> (r: Result<CycleDecision, TelemetryError>)
    ensures
        match r {
            Ok(d) => parse_report(raw@) matches Some(us) && ({
                let sufficient = qualifying(us, memory_per_core, gpu_percent).len() >= core_count;
                &&& admits(
                    old(state).consecutive_qualifying_cycles as nat,
                    sufficient,
                    check_times as nat,
                ) ==> (d matches CycleDecision::Admitted(ids) && ids@ =~= selection(
                    us,
                    core_count as int,
                    memory_per_core,
                    gpu_percent,
                ))
                &&& !admits(
                    old(state).consecutive_qualifying_cycles as nat,
                    sufficient,
                    check_times as nat,
                ) ==> d is Continue && final(state).consecutive_qualifying_cycles == next_count(
                    old(state).consecutive_qualifying_cycles as nat,
                    sufficient,
                )
            }),
            Err(_) => parse_report(raw@) is None && *final(state) == *old(state),
        },
{
    let units = match parse_cuda_info(raw) {
        Ok(v) => v,
        Err(e) => {
            return Err(e);
        },
    };
    let outcome = check_resource_enough(&units, core_count, memory_per_core, gpu_percent);
    Ok(state.step(outcome, check_times))
}

} // verus!
