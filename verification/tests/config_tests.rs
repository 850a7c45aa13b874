use gpu_gate::config::{apply_overrides, default_config, Config, ConfigOverrides};

fn no_overrides() -> ConfigOverrides {
    ConfigOverrides {
        core_count: None,
        memory_per_core: None,
        gpu_percent: None,
        check_times: None,
        check_interval: None,
        gpu_env: None,
        set_envs: None,
        unset_envs: None,
    }
}

fn file_config() -> Config {
    Config {
        core_count: 4,
        memory_per_core: 8,
        gpu_percent: 20,
        check_times: 3,
        check_interval: 60,
        gpu_env: b"GPUS".to_vec(),
        set_envs: vec![b"A=1".to_vec()],
        unset_envs: vec![b"HOME".to_vec()],
    }
}

#[test]
fn built_in_defaults() {
    let c = default_config();
    assert_eq!(c.core_count, 1);
    assert_eq!(c.memory_per_core, 1);
    assert_eq!(c.gpu_percent, 50);
    assert_eq!(c.check_times, 1);
    assert_eq!(c.check_interval, 15);
    assert_eq!(c.gpu_env, b"CUDA_VISIBLE_DEVICES".to_vec());
    assert!(c.set_envs.is_empty());
    assert!(c.unset_envs.is_empty());
}

#[test]
fn absent_overrides_leave_the_file_values_untouched() {
    let c = apply_overrides(file_config(), no_overrides());
    assert_eq!(c.core_count, 4);
    assert_eq!(c.memory_per_core, 8);
    assert_eq!(c.gpu_percent, 20);
    assert_eq!(c.check_times, 3);
    assert_eq!(c.check_interval, 60);
    assert_eq!(c.gpu_env, b"GPUS".to_vec());
    assert_eq!(c.set_envs, vec![b"A=1".to_vec()]);
    assert_eq!(c.unset_envs, vec![b"HOME".to_vec()]);
}

#[test]
fn explicit_overrides_always_win() {
    let overrides = ConfigOverrides {
        core_count: Some(2),
        memory_per_core: Some(16),
        gpu_percent: Some(75),
        check_times: Some(5),
        check_interval: Some(1),
        gpu_env: Some(b"VISIBLE".to_vec()),
        set_envs: Some(vec![b"B=2".to_vec()]),
        unset_envs: Some(vec![b"PATH".to_vec()]),
    };
    let c = apply_overrides(file_config(), overrides);
    assert_eq!(c.core_count, 2);
    assert_eq!(c.memory_per_core, 16);
    assert_eq!(c.gpu_percent, 75);
    assert_eq!(c.check_times, 5);
    assert_eq!(c.check_interval, 1);
    assert_eq!(c.gpu_env, b"VISIBLE".to_vec());
    assert_eq!(c.set_envs, vec![b"B=2".to_vec()]);
    assert_eq!(c.unset_envs, vec![b"PATH".to_vec()]);
}

#[test]
fn empty_env_override_lists_do_not_override() {
    let overrides = ConfigOverrides {
        set_envs: Some(vec![]),
        unset_envs: Some(vec![]),
        ..no_overrides()
    };
    let c = apply_overrides(file_config(), overrides);
    assert_eq!(c.set_envs, vec![b"A=1".to_vec()]);
    assert_eq!(c.unset_envs, vec![b"HOME".to_vec()]);
}
