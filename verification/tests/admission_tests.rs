use gpu_gate::admission::{admission_cycle, AdmissionState, CycleDecision};

fn sufficient(ids: &[usize]) -> Option<Vec<usize>> {
    Some(ids.to_vec())
}

fn admitted_ids(d: CycleDecision) -> Option<Vec<usize>> {
    match d {
        CycleDecision::Continue => None,
        CycleDecision::Admitted(ids) => Some(ids),
    }
}

#[test]
fn first_sufficient_cycle_admits_with_one_required_check() {
    let mut state = AdmissionState::new();
    let d = state.step(sufficient(&[2, 0]), 1);
    assert_eq!(admitted_ids(d), Some(vec![2, 0]));
}

#[test]
fn insufficient_cycle_resets_the_counter() {
    let mut state = AdmissionState::new();
    assert!(admitted_ids(state.step(sufficient(&[0]), 2)).is_none());
    assert_eq!(state.consecutive_qualifying_cycles, 1);
    assert!(admitted_ids(state.step(None, 2)).is_none());
    assert_eq!(state.consecutive_qualifying_cycles, 0);
    // cycles 1 and 3 alone never admit with a stability requirement of 2
    assert!(admitted_ids(state.step(sufficient(&[0]), 2)).is_none());
    assert_eq!(state.consecutive_qualifying_cycles, 1);
    // a fourth, consecutive sufficient cycle completes the window
    assert_eq!(admitted_ids(state.step(sufficient(&[0]), 2)), Some(vec![0]));
}

#[test]
fn exactly_three_consecutive_sufficient_cycles_admit() {
    let mut state = AdmissionState::new();
    assert!(admitted_ids(state.step(sufficient(&[1]), 3)).is_none());
    assert!(admitted_ids(state.step(sufficient(&[1]), 3)).is_none());
    let d = state.step(sufficient(&[1, 3]), 3);
    assert_eq!(admitted_ids(d), Some(vec![1, 3]));
}

#[test]
fn admission_hands_back_the_latest_candidate_set() {
    let mut state = AdmissionState::new();
    assert!(admitted_ids(state.step(sufficient(&[0, 1]), 2)).is_none());
    let d = state.step(sufficient(&[5, 7]), 2);
    assert_eq!(admitted_ids(d), Some(vec![5, 7]));
}

#[test]
fn zero_required_units_admit_on_the_first_cycle() {
    let mut state = AdmissionState::new();
    let d = admission_cycle(&mut state, b"0, 100 %, 0 MiB\n", 0, 99, 99, 1)
        .expect("report is well-formed");
    assert_eq!(admitted_ids(d), Some(vec![]));
}

#[test]
fn cycle_continues_while_insufficient() {
    let mut state = AdmissionState::new();
    let d = admission_cycle(&mut state, b"0, 90 %, 1024 MiB\n", 1, 4, 50, 1)
        .expect("report is well-formed");
    assert!(admitted_ids(d).is_none());
    assert_eq!(state.consecutive_qualifying_cycles, 0);
}

#[test]
fn cycle_admits_when_window_is_full() {
    let mut state = AdmissionState::new();
    let raw = b"0, 10 %, 8192 MiB\n1, 5 %, 8192 MiB\n";
    let d = admission_cycle(&mut state, raw, 1, 4, 50, 2).expect("report is well-formed");
    assert!(admitted_ids(d).is_none());
    let d = admission_cycle(&mut state, raw, 1, 4, 50, 2).expect("report is well-formed");
    assert_eq!(admitted_ids(d), Some(vec![1]));
}

#[test]
fn garbled_telemetry_is_fatal_for_the_cycle() {
    let mut state = AdmissionState::new();
    assert!(admission_cycle(&mut state, b"garbage", 1, 4, 50, 1).is_err());
    assert_eq!(state.consecutive_qualifying_cycles, 0);
}
