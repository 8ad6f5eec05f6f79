use vstd::prelude::*;
use crate::errors::ResguardError;
use crate::process::Process;
use crate::rules::Action;

verus! {

/// One primitive operation against the resource-control backend. The
/// surrounding program performs these in order against the cgroup tree;
/// the group for a process is the one named after its pid. `quota` is in
/// microseconds of CPU per 100000-microsecond period, which equals the
/// configured limit in thousandths of a percent.
#[derive(Debug, Clone, Copy, PartialEq, Eq)]
pub enum BackendOp {
    CreateGroup { pid: u32 },
    WriteCpuMax { pid: u32, quota: u64 },
    WriteMemoryMax { pid: u32, max_bytes: u64 },
    AttachProcess { pid: u32 },
    SendTerm { pid: u32 },
}

/// How the backend reported a failed operation, as plain values.
#[derive(Debug, Clone, Copy, PartialEq, Eq)]
pub enum BackendFailure {
    PermissionDenied,
    Unavailable,
    NoSuchProcess,
    TimedOut,
    Other,
}

/// The outcome of applying one action: applied; the process was already
/// gone, so there is nothing left to contain; the call exceeded its bound;
/// or a genuine backend failure.
#[derive(Debug, Clone, Copy, PartialEq, Eq)]
pub enum ApplyOutcome {
    Applied,
    AlreadyResolved,
    TimedOut,
    Failed(BackendFailure),
}

/// The state of one containment group, from not yet created through
/// limits written to process attached.
#[derive(Debug, Clone, Copy, PartialEq, Eq)]
pub struct GroupModel {
    pub created: bool,
    pub cpu_quota: Option<u64>,
    pub memory_max: Option<u64>,
    pub attached: bool,
}

/// The operations that enforce `action` against process `pid`: limits
/// create the group, write the limit value and attach the process;
/// `Stop` sends one best-effort termination request.
pub open spec fn spec_plan(action: Action, pid: u32) -> Seq<BackendOp> {
    match action {
        Action::LimitCpu(max_percent) => seq![
            BackendOp::CreateGroup { pid },
            BackendOp::WriteCpuMax { pid, quota: max_percent },
            BackendOp::AttachProcess { pid },
        ],
        Action::LimitMemory(max_bytes) => seq![
            BackendOp::CreateGroup { pid },
            BackendOp::WriteMemoryMax { pid, max_bytes },
            BackendOp::AttachProcess { pid },
        ],
        Action::Stop => seq![BackendOp::SendTerm { pid }],
    }
}

/// What one successful operation does to the containment group of `pid`:
/// creating an existing group changes nothing, writes set the limit value,
/// attaching is remembered once; operations for other pids and termination
/// requests leave the group alone.
pub open spec fn spec_apply_op(pid: u32, g: GroupModel, op: BackendOp) -> GroupModel {
    match op {
        BackendOp::CreateGroup { pid: p } => {
            if p == pid {
                GroupModel { created: true, ..g }
            } else {
                g
            }
        },
        BackendOp::WriteCpuMax { pid: p, quota } => {
            if p == pid {
                GroupModel { cpu_quota: Some(quota), ..g }
            } else {
                g
            }
        },
        BackendOp::WriteMemoryMax { pid: p, max_bytes } => {
            if p == pid {
                GroupModel { memory_max: Some(max_bytes), ..g }
            } else {
                g
            }
        },
        BackendOp::AttachProcess { pid: p } => {
            if p == pid {
                GroupModel { attached: true, ..g }
            } else {
                g
            }
        },
        BackendOp::SendTerm { .. } => g,
    }
}

/// A whole operation sequence, applied in order.
pub open spec fn spec_apply_plan(pid: u32, g: GroupModel, ops: Seq<BackendOp>) -> GroupModel
    decreases ops.len(),
{
    if ops.len() == 0 {
        g
    } else {
        spec_apply_plan(pid, spec_apply_op(pid, g, ops[0]), ops.drop_first())
    }
}

/// Which outcome a failure of one operation means: a process that is
/// already gone when it is attached or terminated counts as resolved, a
/// timeout keeps its own tag, everything else is a genuine failure.
pub open spec fn spec_classify(op: BackendOp, f: BackendFailure) -> ApplyOutcome {
    if f == BackendFailure::NoSuchProcess && (op is AttachProcess || op is SendTerm) {
        ApplyOutcome::AlreadyResolved
    } else if f == BackendFailure::TimedOut {
        ApplyOutcome::TimedOut
    } else {
        ApplyOutcome::Failed(f)
    }
}

/// Plans enforcement operations for the cgroup backend rooted at
/// `base_path`.
pub struct CgroupLimiter {
    pub base_path: String,
}

impl CgroupLimiter {
    pub fn new() -> (r: Result<CgroupLimiter, ResguardError>)
        ensures
            r is Ok,
            r->Ok_0.base_path@ == "/sys/fs/cgroup"@,
    {
        Ok(CgroupLimiter { base_path: "/sys/fs/cgroup".to_owned() })
    }

    /// The operations that apply `action` to `process`, exactly
    /// `spec_plan`. Performing them is the surrounding program's part.
    pub fn plan(&self, process: &Process, action: Action) -> (ops: Vec<BackendOp>)
        ensures
            ops@ == spec_plan(action, process.pid),
    {
        match action {
            Action::LimitCpu(max_percent) => self.limit_cpu(process, max_percent),
            Action::LimitMemory(max_bytes) => self.limit_memory(process, max_bytes),
            Action::Stop => self.stop_process(process),
        }
    }

    fn limit_cpu(&self, process: &Process, max_percent: u64) -> (ops: Vec<BackendOp>)
        ensures
            ops@ == spec_plan(Action::LimitCpu(max_percent), process.pid),
    {
        let pid = process.pid;
        let mut ops: Vec<BackendOp> = Vec::new();
        ops.push(BackendOp::CreateGroup { pid });
        ops.push(BackendOp::WriteCpuMax { pid, quota: max_percent });
        ops.push(BackendOp::AttachProcess { pid });
        proof {
            assert(ops@ =~= spec_plan(Action::LimitCpu(max_percent), pid));
        }
        ops
    }

    fn limit_memory(&self, process: &Process, max_bytes: u64) -> (ops: Vec<BackendOp>)
        ensures
            ops@ == spec_plan(Action::LimitMemory(max_bytes), process.pid),
    {
        let pid = process.pid;
        let mut ops: Vec<BackendOp> = Vec::new();
        ops.push(BackendOp::CreateGroup { pid });
        ops.push(BackendOp::WriteMemoryMax { pid, max_bytes });
        ops.push(BackendOp::AttachProcess { pid });
        proof {
            assert(ops@ =~= spec_plan(Action::LimitMemory(max_bytes), pid));
        }
        ops
    }

    fn stop_process(&self, process: &Process) -> (ops: Vec<BackendOp>)
        ensures
            ops@ == spec_plan(Action::Stop, process.pid),
    {
        let pid = process.pid;
        let mut ops: Vec<BackendOp> = Vec::new();
        ops.push(BackendOp::SendTerm { pid });
        proof {
            assert(ops@ =~= spec_plan(Action::Stop, pid));
        }
        ops
    }
}

/// Runs an operation sequence against the group model of `pid`, exactly
/// `spec_apply_plan`: what a well-behaved backend ends up as when every
/// operation succeeds.
pub fn apply_plan_model(pid: u32, g: GroupModel, ops: &Vec<BackendOp>) -> (r: GroupModel)
    ensures
        r == spec_apply_plan(pid, g, ops@),
{
    let mut cur = g;
    let mut i: usize = 0;
    proof {
        assert(ops@.skip(0) =~= ops@);
    }
    while i < ops.len()
        invariant
            i <= ops@.len(),
            spec_apply_plan(pid, g, ops@) == spec_apply_plan(pid, cur, ops@.skip(i as int)),
        decreases ops@.len() - i,
    {
        proof {
            assert(ops@.skip(i as int).drop_first() =~= ops@.skip(i as int + 1));
            assert(ops@.skip(i as int)[0] == ops@[i as int]);
        }
        cur = apply_op_model(pid, cur, &ops[i]);
        i = i + 1;
    }
    proof {
        assert(ops@.skip(ops@.len() as int) =~= Seq::<BackendOp>::empty());
    }
    cur
}

/// One operation against the group model of `pid`, exactly `spec_apply_op`.
pub fn apply_op_model(pid: u32, g: GroupModel, op: &BackendOp) -> (r: GroupModel)
    ensures
        r == spec_apply_op(pid, g, *op),
{
    match op {
        BackendOp::CreateGroup { pid: p } => {
            if *p == pid {
                GroupModel { created: true, ..g }
            } else {
                g
            }
        },
        BackendOp::WriteCpuMax { pid: p, quota } => {
            if *p == pid {
                GroupModel { cpu_quota: Some(*quota), ..g }
            } else {
                g
            }
        },
        BackendOp::WriteMemoryMax { pid: p, max_bytes } => {
            if *p == pid {
                GroupModel { memory_max: Some(*max_bytes), ..g }
            } else {
                g
            }
        },
        BackendOp::AttachProcess { pid: p } => {
            if *p == pid {
                GroupModel { attached: true, ..g }
            } else {
                g
            }
        },
        BackendOp::SendTerm { .. } => g,
    }
}

/// Which outcome a failed operation means, exactly `spec_classify`; the
/// outcome is `AlreadyResolved` precisely when the process was gone as it
/// was to be attached or terminated.
pub fn classify_failure(op: &BackendOp, failure: BackendFailure) -> (r: ApplyOutcome)
    ensures
        r == spec_classify(*op, failure),
        (r == ApplyOutcome::AlreadyResolved) <==> (failure == BackendFailure::NoSuchProcess && (
        *op is AttachProcess || *op is SendTerm)),
{
    let attachish = match op {
        BackendOp::AttachProcess { .. } => true,
        BackendOp::SendTerm { .. } => true,
        _ => false,
    };
    match failure {
        BackendFailure::NoSuchProcess => {
            if attachish {
                ApplyOutcome::AlreadyResolved
            } else {
                ApplyOutcome::Failed(BackendFailure::NoSuchProcess)
            }
        },
        BackendFailure::TimedOut => ApplyOutcome::TimedOut,
        f => ApplyOutcome::Failed(f),
    }
}


proof fn lemma_apply_plan_three(pid: u32, g: GroupModel, a: BackendOp, b: BackendOp, c: BackendOp)
    ensures
        spec_apply_plan(pid, g, seq![a, b, c]) == spec_apply_op(
            pid,
            spec_apply_op(pid, spec_apply_op(pid, g, a), b),
            c,
        ),
{
    let s = seq![a, b, c];
    assert(s.drop_first() =~= seq![b, c]);
    assert(seq![b, c].drop_first() =~= seq![c]);
    assert(seq![c].drop_first() =~= Seq::<BackendOp>::empty());
    let g1 = spec_apply_op(pid, g, a);
    let g2 = spec_apply_op(pid, g1, b);
    let g3 = spec_apply_op(pid, g2, c);
    assert(spec_apply_plan(pid, g3, Seq::<BackendOp>::empty()) == g3);
    assert(spec_apply_plan(pid, g2, seq![c]) == g3);
    assert(spec_apply_plan(pid, g1, seq![b, c]) == g3);
}

proof fn lemma_apply_plan_one(pid: u32, g: GroupModel, a: BackendOp)
    ensures
        spec_apply_plan(pid, g, seq![a]) == spec_apply_op(pid, g, a),
{
    assert(seq![a].drop_first() =~= Seq::<BackendOp>::empty());
    assert(spec_apply_plan(pid, spec_apply_op(pid, g, a), Seq::<BackendOp>::empty())
        == spec_apply_op(pid, g, a));
}

/// Law: applying the planned operations of one action twice in succession
/// converges: the second application leaves the containment group exactly
/// as the first left it.
pub proof fn lemma_plan_idempotent(pid: u32, g: GroupModel, action: Action)
    ensures
        ({
            let once = spec_apply_plan(pid, g, spec_plan(action, pid));
            spec_apply_plan(pid, once, spec_plan(action, pid)) == once
        }),
{
    let ops = spec_plan(action, pid);
    let once = spec_apply_plan(pid, g, ops);
    match action {
        Action::LimitCpu(max_percent) => {
            lemma_apply_plan_three(
                pid,
                g,
                BackendOp::CreateGroup { pid },
                BackendOp::WriteCpuMax { pid, quota: max_percent },
                BackendOp::AttachProcess { pid },
            );
            lemma_apply_plan_three(
                pid,
                once,
                BackendOp::CreateGroup { pid },
                BackendOp::WriteCpuMax { pid, quota: max_percent },
                BackendOp::AttachProcess { pid },
            );
        },
        Action::LimitMemory(max_bytes) => {
            lemma_apply_plan_three(
                pid,
                g,
                BackendOp::CreateGroup { pid },
                BackendOp::WriteMemoryMax { pid, max_bytes },
                BackendOp::AttachProcess { pid },
            );
            lemma_apply_plan_three(
                pid,
                once,
                BackendOp::CreateGroup { pid },
                BackendOp::WriteMemoryMax { pid, max_bytes },
                BackendOp::AttachProcess { pid },
            );
        },
        Action::Stop => {
            lemma_apply_plan_one(pid, g, BackendOp::SendTerm { pid });
            lemma_apply_plan_one(pid, once, BackendOp::SendTerm { pid });
        },
    }
}

} // verus!

