use gpu_gate::selector::check_resource_enough;
use gpu_gate::snapshot::GPUInfo;

fn unit(index: usize, gpu_free: usize, memory_free: u32) -> GPUInfo {
    GPUInfo { index, gpu_free, memory_free }
}

#[test]
fn ranking_prefers_highest_free_percent_with_stable_ties() {
    let units = vec![unit(0, 30, 0), unit(1, 90, 0), unit(2, 90, 0), unit(3, 50, 0)];
    let picked = check_resource_enough(&units, 2, 0, 0).expect("two units qualify");
    assert_eq!(picked, vec![1, 2]);
}

#[test]
fn returns_exactly_the_required_count() {
    let units = vec![unit(0, 80, 8), unit(1, 90, 8), unit(2, 70, 8)];
    let picked = check_resource_enough(&units, 2, 4, 50).expect("enough units qualify");
    assert_eq!(picked.len(), 2);
    assert_eq!(picked, vec![1, 0]);
}

#[test]
fn insufficient_when_too_few_qualify() {
    let units = vec![unit(0, 90, 2), unit(1, 40, 16)];
    // unit 0 fails the memory gate, unit 1 fails the utilization gate
    assert_eq!(check_resource_enough(&units, 2, 4, 50), None);
}

#[test]
fn no_partial_result_on_insufficiency() {
    let units = vec![unit(0, 90, 16)];
    assert_eq!(check_resource_enough(&units, 2, 4, 50), None);
}

#[test]
fn below_threshold_units_never_selected() {
    let units = vec![unit(0, 100, 0), unit(1, 60, 8), unit(2, 49, 32)];
    let picked = check_resource_enough(&units, 1, 4, 50).expect("unit 1 qualifies");
    assert_eq!(picked, vec![1]);
}

#[test]
fn thresholds_are_inclusive() {
    let units = vec![unit(7, 50, 4)];
    let picked = check_resource_enough(&units, 1, 4, 50).expect("meets both thresholds exactly");
    assert_eq!(picked, vec![7]);
}

#[test]
fn memory_gates_but_never_ranks() {
    // the unit with far more free memory loses to the one with more free time
    let units = vec![unit(0, 60, 64), unit(1, 61, 4)];
    let picked = check_resource_enough(&units, 1, 4, 50).expect("both qualify");
    assert_eq!(picked, vec![1]);
}

#[test]
fn zero_required_count_selects_empty_list() {
    let units = vec![unit(0, 0, 0)];
    let picked = check_resource_enough(&units, 0, 99, 99).expect("zero units always suffice");
    assert_eq!(picked, Vec::<usize>::new());
    let none_at_all: Vec<GPUInfo> = vec![];
    let picked = check_resource_enough(&none_at_all, 0, 1, 1).expect("empty snapshot suffices");
    assert_eq!(picked, Vec::<usize>::new());
}
