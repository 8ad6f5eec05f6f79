use vstd::prelude::*;

verus! {

/// Complete configuration, assembled once at startup by the surrounding
/// program and handed to the library as plain values.
#[derive(Debug)]
pub struct Config {
    pub general: GeneralConfig,
    pub limits: LimitsConfig,
    pub rules: Vec<Rule>,
}

#[derive(Debug, Clone)]
pub struct GeneralConfig {
    pub interval_secs: u64,
    pub history_size: usize,
}

/// Static limit settings. `default_cpu_quota` is in thousandths of a
/// percent; `default_memory_limit` is bytes. The black- and whitelists hold
/// process-name patterns for the allow/deny filter.
#[derive(Debug, Clone)]
pub struct LimitsConfig {
    pub cgroup_base_path: String,
    pub default_cpu_quota: u64,
    pub default_memory_limit: u64,
    pub blacklist: Vec<String>,
    pub whitelist: Vec<String>,
}

/// One declared rule. Declaration order matters: when several rules fire for
/// one process in one cycle, the rule declared first wins.
#[derive(Debug)]
pub struct Rule {
    pub name: String,
    pub condition: Condition,
    pub action: Action,
    pub duration_secs: u64,
}

/// A nested condition over one process snapshot. `threshold` of `CpuOver`
/// is in thousandths of a percent; of `MemoryOver`, in bytes.
#[derive(Debug)]
pub enum Condition {
    CpuOver { threshold: u64 },
    MemoryOver { threshold: u64 },
    And { conditions: Vec<Condition> },
}

/// The containment action of a rule. `max_percent` is in thousandths of a
/// percent; `max_bytes` is bytes.
#[derive(Debug, Clone)]
pub enum Action {
    LimitCpu { max_percent: u64 },
    LimitMemory { max_bytes: u64 },
    Stop,
}

} // verus!
