//! The effective configuration and how it is resolved.
//!
//! Resolution merges three layers: built-in defaults, the values read from a
//! configuration file, and explicit per-field caller overrides. An explicit
//! override always wins over the file-resolved value; an absent override
//! leaves it untouched. Reading and writing the file itself is plumbing that
//! happens outside the library; the library receives plain values.

use vstd::prelude::*;

verus! {

/// The effective configuration of one run, immutable once resolved.
#[derive(Clone)]
pub struct Config {
    /// How many units must qualify before admission.
    pub core_count: usize,
    /// Free gibibytes each qualifying unit must have.
    pub memory_per_core: u32,
    /// Free utilization percentage each qualifying unit must have.
    pub gpu_percent: usize,
    /// Consecutive sufficient cycles required before admission.
    pub check_times: usize,
    /// Seconds to wait between sampling cycles.
    pub check_interval: u64,
    /// Name of the variable that carries the committed unit list.
    pub gpu_env: Vec<u8>,
    /// Ordered `name=value` overrides to inject into the environment.
    pub set_envs: Vec<Vec<u8>>,
    /// Names to remove from the environment.
    pub unset_envs: Vec<Vec<u8>>,
}

/// The default name of the selected-units variable: `CUDA_VISIBLE_DEVICES`.
pub open spec fn default_gpu_env() -> Seq<u8> {
    seq![
        0x43u8,
        0x55,
        0x44,
        0x41,
        0x5F,
        0x56,
        0x49,
        0x53,
        0x49,
        0x42,
        0x4C,
        0x45,
        0x5F,
        0x44,
        0x45,
        0x56,
        0x49,
        0x43,
        0x45,
        0x53,
    ]
}

/// The built-in defaults, used when no configuration file is present at the
/// conventional path: one unit, one free gibibyte, half the utilization
/// free, a single check, fifteen seconds between checks, the conventional
/// selected-units variable, and no environment overrides.
pub fn default_config() -> (c: Config)
    ensures
        c.core_count == 1,
        c.memory_per_core == 1,
        c.gpu_percent == 50,
        c.check_times == 1,
        c.check_interval == 15,
        c.gpu_env@ =~= default_gpu_env(),
        c.set_envs@.len() == 0,
        c.unset_envs@.len() == 0,
{
    let gpu_env: Vec<u8> = vec![
        0x43u8, 0x55, 0x44, 0x41, 0x5F, 0x56, 0x49, 0x53, 0x49, 0x42, 0x4C, 0x45, 0x5F, 0x44,
        0x45, 0x56, 0x49, 0x43, 0x45, 0x53,
    ];
    Config {
        core_count: 1,
        memory_per_core: 1,
        gpu_percent: 50,
        check_times: 1,
        check_interval: 15,
        gpu_env,
        set_envs: Vec::new(),
        unset_envs: Vec::new(),
    }
}

/// Per-field caller overrides of the resolved configuration; an absent field
/// leaves the resolved value untouched.
pub struct ConfigOverrides {
    pub core_count: Option<usize>,
    pub memory_per_core: Option<u32>,
    pub gpu_percent: Option<usize>,
    pub check_times: Option<usize>,
    pub check_interval: Option<u64>,
    pub gpu_env: Option<Vec<u8>>,
    pub set_envs: Option<Vec<Vec<u8>>>,
    pub unset_envs: Option<Vec<Vec<u8>>>,
}

/// Applies the caller's explicit overrides on top of the resolved
/// configuration: an explicit field always wins, an absent one changes
/// nothing. An environment-override list wins only when it is non-empty.
pub fn apply_overrides(config: Config, overrides: ConfigOverrides) -> (c: Config)
    ensures
        c.core_count == (if overrides.core_count is Some {
            overrides.core_count->Some_0
        } else {
            config.core_count
        }),
        c.memory_per_core == (if overrides.memory_per_core is Some {
            overrides.memory_per_core->Some_0
        } else {
            config.memory_per_core
        }),
        c.gpu_percent == (if overrides.gpu_percent is Some {
            overrides.gpu_percent->Some_0
        } else {
            config.gpu_percent
        }),
        c.check_times == (if overrides.check_times is Some {
            overrides.check_times->Some_0
        } else {
            config.check_times
        }),
        c.check_interval == (if overrides.check_interval is Some {
            overrides.check_interval->Some_0
        } else {
            config.check_interval
        }),
        c.gpu_env == (if overrides.gpu_env is Some {
            overrides.gpu_env->Some_0
        } else {
            config.gpu_env
        }),
        c.set_envs == (if overrides.set_envs is Some && overrides.set_envs->Some_0@.len() > 0 {
            overrides.set_envs->Some_0
        } else {
            config.set_envs
        }),
        c.unset_envs == (if overrides.unset_envs is Some && overrides.unset_envs->Some_0@.len()
            > 0 {
            overrides.unset_envs->Some_0
        } else {
            config.unset_envs
        }),
{
    let mut c = config;
    if let Some(v) = overrides.core_count {
        c.core_count = v;
    }
    if let Some(v) = overrides.memory_per_core {
        c.memory_per_core = v;
    }
    if let Some(v) = overrides.gpu_percent {
        c.gpu_percent = v;
    }
    if let Some(v) = overrides.check_times {
        c.check_times = v;
    }
    if let Some(v) = overrides.check_interval {
        c.check_interval = v;
    }
    if let Some(v) = overrides.gpu_env {
        c.gpu_env = v;
    }
    if let Some(v) = overrides.set_envs {
        if v.len() > 0 {
            c.set_envs = v;
        }
    }
    if let Some(v) = overrides.unset_envs {
        if v.len() > 0 {
            c.unset_envs = v;
        }
    }
    c
}

} // verus!
