use gpu_gate::launcher::{build_launch_plan, join_unit_ids, split_env_pair};

#[test]
fn split_on_first_equals_only() {
    let split = split_env_pair(b"FOO=bar=baz").expect("has an equals sign");
    assert_eq!(split.0, b"FOO".to_vec());
    assert_eq!(split.1, b"bar=baz".to_vec());
}

#[test]
fn override_without_equals_is_rejected() {
    assert_eq!(split_env_pair(b"FOO"), None);
}

#[test]
fn empty_value_and_empty_name_are_kept() {
    let split = split_env_pair(b"FOO=").expect("has an equals sign");
    assert_eq!(split.0, b"FOO".to_vec());
    assert_eq!(split.1, b"".to_vec());
    let split = split_env_pair(b"=bar").expect("has an equals sign");
    assert_eq!(split.0, b"".to_vec());
    assert_eq!(split.1, b"bar".to_vec());
}

#[test]
fn joins_unit_ids_with_commas() {
    assert_eq!(join_unit_ids(&vec![]), b"".to_vec());
    assert_eq!(join_unit_ids(&vec![0]), b"0".to_vec());
    assert_eq!(join_unit_ids(&vec![10, 2, 7]), b"10,2,7".to_vec());
}

#[test]
fn plan_sets_selected_units_first_then_valid_overrides() {
    let plan = build_launch_plan(
        &vec![1, 2],
        &b"CUDA_VISIBLE_DEVICES".to_vec(),
        &vec![b"A=1".to_vec(), b"BROKEN".to_vec(), b"B=x=y".to_vec()],
        &vec![b"HOME".to_vec()],
    );
    assert_eq!(plan.env_sets.len(), 3);
    assert_eq!(plan.env_sets[0].0, b"CUDA_VISIBLE_DEVICES".to_vec());
    assert_eq!(plan.env_sets[0].1, b"1,2".to_vec());
    assert_eq!(plan.env_sets[1], (b"A".to_vec(), b"1".to_vec()));
    assert_eq!(plan.env_sets[2], (b"B".to_vec(), b"x=y".to_vec()));
    assert_eq!(plan.skipped, vec![b"BROKEN".to_vec()]);
    assert_eq!(plan.env_unsets, vec![b"HOME".to_vec()]);
}

#[test]
fn malformed_override_never_aborts_the_plan() {
    let plan = build_launch_plan(
        &vec![0],
        &b"GPUS".to_vec(),
        &vec![b"NOEQ".to_vec()],
        &vec![],
    );
    assert_eq!(plan.env_sets.len(), 1);
    assert_eq!(plan.skipped, vec![b"NOEQ".to_vec()]);
}
