use vstd::prelude::*;

verus! {

/// Error taxonomy of the system. `Config` errors are fatal at startup;
/// collection and enforcement errors are recoverable: they are scoped to one
/// polling cycle or to one process and never abort the rest of the work.
#[derive(Debug, Clone)]
pub enum ResguardError {
    Io(String),
    Config(String),
    Cgroup(String),
    Process(String),
    Metrics(String),
    Rule(String),
}

} // verus!
