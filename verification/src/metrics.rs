use vstd::prelude::*;

verus! {

/// System-wide load average, each figure in thousandths
/// (a load of 1.5 is stored as 1500).
#[derive(Debug, Clone, Copy)]
pub struct LoadAvg {
    pub one: u64,
    pub five: u64,
    pub fifteen: u64,
}

/// One snapshot of whole-system metrics, acquired by the metrics collector
/// outside the library and handed in as plain values.
///
/// `cpu_total` is in thousandths of a percent; memory figures are bytes;
/// `timestamp` is in milliseconds.
#[derive(Debug, Clone, Copy)]
pub struct SystemMetrics {
    pub cpu_total: u64,
    pub memory_used: u64,
    pub memory_total: u64,
    pub load_average: LoadAvg,
    pub timestamp: u64,
}

} // verus!
