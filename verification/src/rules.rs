use vstd::prelude::*;
use std::collections::HashMap;
use crate::config::{Action as ConfigAction, Condition, Rule as ConfigRule};
use crate::metrics::SystemMetrics;
use crate::process::Process;

verus! {

/// One validated rule. `duration_ms` is the dwell time: how long the
/// condition must hold continuously before the action fires.
#[derive(Debug)]
pub struct Rule {
    pub name: String,
    pub condition: RuleCondition,
    pub action: Action,
    pub duration_ms: u64,
}

/// A nested condition over one process snapshot. Thresholds of `CpuOver`
/// are in thousandths of a percent; of `MemoryOver`, in bytes.
#[derive(Debug)]
pub enum RuleCondition {
    CpuOver(u64),
    MemoryOver(u64),
    And(Vec<RuleCondition>),
}

/// The containment action of a rule. `LimitCpu` carries thousandths of a
/// percent; `LimitMemory` carries bytes.
#[derive(Debug, Clone, Copy, PartialEq, Eq)]
pub enum Action {
    LimitCpu(u64),
    LimitMemory(u64),
    Stop,
}

/// Dwell-tracker state of one (rule, process) episode. `active` means the
/// action for the current continuous episode has already fired.
#[derive(Debug, Clone, Copy, PartialEq, Eq, Structural)]
pub struct ViolationState {
    pub start_time: u64,
    pub active: bool,
}

/// Truth of a condition against one process snapshot: strict threshold
/// comparison at the leaves, conjunction over `And` children; an `And` of
/// no children holds vacuously.
pub open spec fn condition_holds(c: RuleCondition, p: Process) -> bool
    decreases c,
{
    match c {
        RuleCondition::CpuOver(t) => p.cpu_usage > t,
        RuleCondition::MemoryOver(t) => p.memory > t,
        RuleCondition::And(cs) => forall|i: int|
            0 <= i < cs@.len() ==> condition_holds(#[trigger] cs@[i], p),
    }
}

/// The tracker key for rule index `i` and process id `pid`: both packed
/// into one integer, injectively.
pub open spec fn tkey(i: int, pid: u32) -> u64 {
    (i * 0x1_0000_0000 + pid) as u64
}

/// Time elapsed since `start`, never negative.
pub open spec fn spec_elapsed(now: u64, start: u64) -> int {
    if now >= start {
        now - start
    } else {
        0
    }
}

/// One dwell-tracker transition for a single (rule, process) key, given
/// whether the condition currently holds. Returns the new key state and
/// whether the rule fires this cycle:
/// a false sample deletes the episode; a true sample creates a pending
/// episode, fires it once the dwell time has passed, and otherwise leaves
/// it as it is.
pub open spec fn rule_step_key(st: Option<ViolationState>, holds: bool, now: u64, dwell: u64) -> (
    Option<ViolationState>,
    bool,
) {
    if !holds {
        (None::<ViolationState>, false)
    } else {
        match st {
            None => (Some(ViolationState { start_time: now, active: false }), false),
            Some(s) => {
                if !s.active && spec_elapsed(now, s.start_time) >= dwell {
                    (Some(ViolationState { start_time: s.start_time, active: true }), true)
                } else {
                    (Some(s), false)
                }
            },
        }
    }
}

/// One evaluation cycle for one process, from rule index `i` on: each rule
/// in declaration order drives its own tracker key; the first rule whose
/// transition fires ends the cycle with its action, and later rules are
/// left untouched.
pub open spec fn eval_from(
    rules: Seq<Rule>,
    tr: Map<u64, ViolationState>,
    p: Process,
    now: u64,
    i: int,
) -> (Map<u64, ViolationState>, Option<Action>)
    decreases rules.len() - i,
{
    if i < 0 || i >= rules.len() {
        (tr, None::<Action>)
    } else {
        let k = tkey(i, p.pid);
        let st = if tr.dom().contains(k) {
            Some(tr[k])
        } else {
            None::<ViolationState>
        };
        let step = rule_step_key(st, condition_holds(rules[i].condition, p), now, rules[i].duration_ms);
        let tr2 = match step.0 {
            None => tr.remove(k),
            Some(s) => tr.insert(k, s),
        };
        if step.1 {
            (tr2, Some(rules[i].action))
        } else {
            eval_from(rules, tr2, p, now, i + 1)
        }
    }
}

/// Dwell time in milliseconds from whole seconds, saturating at the
/// largest representable value.
pub open spec fn spec_duration_ms(secs: u64) -> u64 {
    if secs > u64::MAX / 1000 {
        u64::MAX
    } else {
        (secs * 1000) as u64
    }
}

/// A parsed condition mirrors its configured form exactly.
pub open spec fn conditions_match(rc: RuleCondition, c: Condition) -> bool
    decreases c,
{
    match c {
        Condition::CpuOver { threshold } => rc == RuleCondition::CpuOver(threshold),
        Condition::MemoryOver { threshold } => rc == RuleCondition::MemoryOver(threshold),
        Condition::And { conditions } => match rc {
            RuleCondition::And(rcs) => rcs@.len() == conditions@.len() && forall|i: int|
                0 <= i < conditions@.len() ==> conditions_match(
                    #[trigger] rcs@[i],
                    conditions@[i],
                ),
            _ => false,
        },
    }
}

/// A parsed action mirrors its configured form exactly.
pub open spec fn action_matches(a: Action, c: ConfigAction) -> bool {
    match c {
        ConfigAction::LimitCpu { max_percent } => a == Action::LimitCpu(max_percent),
        ConfigAction::LimitMemory { max_bytes } => a == Action::LimitMemory(max_bytes),
        ConfigAction::Stop => a == Action::Stop,
    }
}

/// A validated rule carries the configured name, condition, action and
/// dwell time over unchanged.
pub open spec fn rule_matches(r: Rule, c: ConfigRule) -> bool {
    r.name@ == c.name@ && conditions_match(r.condition, c.condition) && action_matches(
        r.action,
        c.action,
    ) && r.duration_ms == spec_duration_ms(c.duration_secs)
}

fn duration_ms_from_secs(secs: u64) -> (r: u64)
    ensures
        r == spec_duration_ms(secs),
{
    if secs > u64::MAX / 1000 {
        u64::MAX
    } else {
        secs * 1000
    }
}

fn elapsed_ms(now: u64, start: u64) -> (r: u64)
    ensures
        r == spec_elapsed(now, start),
{
    if now >= start {
        now - start
    } else {
        0
    }
}

/// The rule engine: owns the validated rule list and the violation tracker
/// for the lifetime of the process; nothing else mutates tracker state.
pub struct Engine {
    rules: Vec<Rule>,
    violation_tracker: HashMap<u64, ViolationState>,
}

impl Engine {
    /// The validated rules, in declaration order.
    pub closed spec fn rules_view(&self) -> Seq<Rule> {
        self.rules@
    }

    /// The violation tracker, keyed by `tkey` of rule index and pid.
    pub closed spec fn tracker_view(&self) -> Map<u64, ViolationState> {
        self.violation_tracker@
    }

    /// Few enough rules that a rule index and a pid pack injectively into
    /// one tracker key.
    pub closed spec fn wf(&self) -> bool {
        self.rules@.len() < 0x1_0000_0000
    }

    /// Validates every configured rule, in order, dropping none.
    pub fn new(config_rules: &Vec<ConfigRule>) -> (engine: Engine)
        requires
            config_rules@.len() < 0x1_0000_0000,
        ensures
            engine.wf(),
            engine.rules_view().len() == config_rules@.len(),
            forall|i: int|
                0 <= i < config_rules@.len() ==> rule_matches(
                    #[trigger] engine.rules_view()[i],
                    config_rules@[i],
                ),
            engine.tracker_view() == Map::<u64, ViolationState>::empty(),
    {
        let mut rules: Vec<Rule> = Vec::new();
        let mut i: usize = 0;
        while i < config_rules.len()
            invariant
                i <= config_rules@.len(),
                rules@.len() == i,
                forall|j: int|
                    0 <= j < i ==> rule_matches(#[trigger] rules@[j], config_rules@[j]),
            decreases config_rules@.len() - i,
        {
            if let Some(r) = Self::parse_rule(&config_rules[i]) {
                rules.push(r);
            }
            i = i + 1;
        }
        Engine { rules, violation_tracker: HashMap::new() }
    }

    /// Validates one rule; every configured rule is representable, so this
    /// always succeeds, with the parts carried over exactly.
    pub fn parse_rule(config: &ConfigRule) -> (r: Option<Rule>)
        ensures
            r is Some,
            rule_matches(r->Some_0, *config),
    {
        let condition = match Self::parse_condition(&config.condition) {
            Some(c) => c,
            None => {
                return None;
            },
        };
        let action = match Self::parse_action(&config.action) {
            Some(a) => a,
            None => {
                return None;
            },
        };
        Some(
            Rule {
                name: config.name.clone(),
                condition,
                action,
                duration_ms: duration_ms_from_secs(config.duration_secs),
            },
        )
    }

    /// Validates one condition tree; always succeeds, mirroring the tree.
    #[verifier::loop_isolation(false)]
    pub fn parse_condition(cond: &Condition) -> (r: Option<RuleCondition>)
        ensures
            r is Some,
            conditions_match(r->Some_0, *cond),
        decreases *cond,
    {
        match cond {
            Condition::CpuOver { threshold } => Some(RuleCondition::CpuOver(*threshold)),
            Condition::MemoryOver { threshold } => Some(RuleCondition::MemoryOver(*threshold)),
            Condition::And { conditions } => {
                let mut subconditions: Vec<RuleCondition> = Vec::new();
                let mut i: usize = 0;
                while i < conditions.len()
                    invariant
                        i <= conditions@.len(),
                        subconditions@.len() == i,
                        forall|j: int|
                            0 <= j < i ==> conditions_match(
                                #[trigger] subconditions@[j],
                                conditions@[j],
                            ),
                    decreases conditions@.len() - i,
                {
                    proof {
                        assert(decreases_to!(*cond => *conditions));
                        assert(decreases_to!(*conditions => conditions@));
                        assert(decreases_to!(conditions@ => conditions@[i as int]));
                        assert(decreases_to!(*cond => conditions@[i as int]));
                    }
                    if let Some(sc) = Self::parse_condition(&conditions[i]) {
                        subconditions.push(sc);
                    }
                    i = i + 1;
                }
                Some(RuleCondition::And(subconditions))
            },
        }
    }

    /// Validates one action; always succeeds, carrying the value over.
    pub fn parse_action(action: &ConfigAction) -> (r: Option<Action>)
        ensures
            r is Some,
            action_matches(r->Some_0, *action),
    {
        match action {
            ConfigAction::LimitCpu { max_percent } => Some(Action::LimitCpu(*max_percent)),
            ConfigAction::LimitMemory { max_bytes } => Some(Action::LimitMemory(*max_bytes)),
            ConfigAction::Stop => Some(Action::Stop),
        }
    }

    /// Evaluates one process snapshot against all rules for this cycle, at
    /// time `now_ms` (milliseconds): exactly the cycle that `eval_from`
    /// describes, returning at most one action.
    pub fn evaluate(&mut self, process: &Process, _metrics: &SystemMetrics, now_ms: u64) -> (r:
        Option<Action>)
        requires
            old(self).wf(),
        ensures
            final(self).wf(),
            final(self).rules_view() == old(self).rules_view(),
            final(self).tracker_view() == eval_from(
                old(self).rules_view(),
                old(self).tracker_view(),
                *process,
                now_ms,
                0,
            ).0,
            r == eval_from(
                old(self).rules_view(),
                old(self).tracker_view(),
                *process,
                now_ms,
                0,
            ).1,
    {
        let n = self.rules.len();
        let mut i: usize = 0;
        while i < n
            invariant
                n == self.rules@.len(),
                i <= n,
                self.rules@ == old(self).rules@,
                self.rules@.len() < 0x1_0000_0000,
                eval_from(old(self).rules@, old(self).violation_tracker@, *process, now_ms, 0)
                    == eval_from(self.rules@, self.violation_tracker@, *process, now_ms, i as int),
            decreases n - i,
        {
            let ghost tr_pre = self.violation_tracker@;
            let holds = self.check_condition_at(i, process);
            let pid = process.pid;
            let k: u64 = (i as u64) * 0x1_0000_0000u64 + (pid as u64);
            proof {
                assert(k == tkey(i as int, pid));
            }
            let dur = self.rules[i].duration_ms;
            let act = self.rules[i].action;
            if holds {
                let st_opt: Option<ViolationState> = match self.violation_tracker.get(&k) {
                    Some(st) => Some(*st),
                    None => None,
                };
                match st_opt {
                    None => {
                        self.violation_tracker.insert(
                            k,
                            ViolationState { start_time: now_ms, active: false },
                        );
                        proof {
                            assert(eval_from(self.rules@, tr_pre, *process, now_ms, i as int)
                                == eval_from(
                                self.rules@,
                                self.violation_tracker@,
                                *process,
                                now_ms,
                                i + 1,
                            ));
                        }
                    },
                    Some(st) => {
                        if !st.active && elapsed_ms(now_ms, st.start_time) >= dur {
                            self.violation_tracker.insert(
                                k,
                                ViolationState { start_time: st.start_time, active: true },
                            );
                            proof {
                                assert(eval_from(self.rules@, tr_pre, *process, now_ms, i as int)
                                    == (self.violation_tracker@, Some(act)));
                            }
                            return Some(act);
                        } else {
                            proof {
                                assert(tr_pre.insert(k, st) =~= tr_pre);
                                assert(eval_from(self.rules@, tr_pre, *process, now_ms, i as int)
                                    == eval_from(
                                    self.rules@,
                                    self.violation_tracker@,
                                    *process,
                                    now_ms,
                                    i + 1,
                                ));
                            }
                        }
                    },
                }
            } else {
                self.violation_tracker.remove(&k);
                proof {
                    assert(eval_from(self.rules@, tr_pre, *process, now_ms, i as int)
                        == eval_from(
                        self.rules@,
                        self.violation_tracker@,
                        *process,
                        now_ms,
                        i + 1,
                    ));
                }
            }
            i = i + 1;
        }
        None
    }

    /// Whether an episode is currently tracked for the rule at `rule_idx`
    /// and the process `pid`.
    pub fn is_tracked(&self, rule_idx: u32, pid: u32) -> (b: bool)
        ensures
            b == self.tracker_view().dom().contains(tkey(rule_idx as int, pid)),
    {
        let k: u64 = (rule_idx as u64) * 0x1_0000_0000u64 + (pid as u64);
        proof {
            assert(k == tkey(rule_idx as int, pid));
        }
        self.violation_tracker.contains_key(&k)
    }

    /// Structural recursion over the condition tree, exactly
    /// `condition_holds`; conjunctions short-circuit on the first false
    /// child.
    #[verifier::loop_isolation(false)]
    pub fn check_condition(&self, condition: &RuleCondition, process: &Process) -> (b: bool)
        ensures
            b == condition_holds(*condition, *process),
        decreases *condition,
    {
        match condition {
            RuleCondition::CpuOver(threshold) => process.cpu_usage > *threshold,
            RuleCondition::MemoryOver(threshold) => process.memory > *threshold,
            RuleCondition::And(conditions) => {
                let mut j: usize = 0;
                while j < conditions.len()
                    invariant
                        j <= conditions@.len(),
                        forall|jj: int|
                            0 <= jj < j ==> condition_holds(#[trigger] conditions@[jj], *process),
                    decreases conditions@.len() - j,
                {
                    proof {
                        assert(decreases_to!(*condition => *conditions));
                        assert(decreases_to!(*conditions => conditions@));
                        assert(decreases_to!(conditions@ => conditions@[j as int]));
                        assert(decreases_to!(*condition => conditions@[j as int]));
                    }
                    if !self.check_condition(&conditions[j], process) {
                        return false;
                    }
                    j = j + 1;
                }
                true
            },
        }
    }

    /// Evaluates the condition of the rule at index `i` without holding a
    /// borrow of the rule across tracker updates.
    fn check_condition_at(&self, i: usize, process: &Process) -> (b: bool)
        requires
            i < self.rules_view().len(),
        ensures
            b == condition_holds(self.rules_view()[i as int].condition, *process),
    {
        self.check_condition(&self.rules[i].condition, process)
    }
}


/// Law: an `And` condition with no children holds of every process.
pub proof fn lemma_and_empty_holds(p: Process, cs: Vec<RuleCondition>)
    requires
        cs@.len() == 0,
    ensures
        condition_holds(RuleCondition::And(cs), p),
{
}

/// The state of one tracker key, absent or present.
pub open spec fn key_state(tr: Map<u64, ViolationState>, k: u64) -> Option<ViolationState> {
    if tr.dom().contains(k) {
        Some(tr[k])
    } else {
        None
    }
}

/// A run of consecutive samples driving one (rule, process) key: each
/// sample is the process snapshot and the time it was taken. Returns the
/// final key state and how many times the rule fired over the run.
pub open spec fn run_key(
    cond: RuleCondition,
    dwell: u64,
    st: Option<ViolationState>,
    samples: Seq<(Process, u64)>,
) -> (Option<ViolationState>, nat)
    decreases samples.len(),
{
    if samples.len() == 0 {
        (st, 0nat)
    } else {
        let step = rule_step_key(st, condition_holds(cond, samples[0].0), samples[0].1, dwell);
        let rest = run_key(cond, dwell, step.0, samples.drop_first());
        (rest.0, (rest.1 + if step.1 { 1nat } else { 0nat }) as nat)
    }
}

/// Running two sample stretches in turn is one run of their concatenation.
pub proof fn lemma_run_key_concat(
    cond: RuleCondition,
    dwell: u64,
    st: Option<ViolationState>,
    s1: Seq<(Process, u64)>,
    s2: Seq<(Process, u64)>,
)
    ensures
        ({
            let first = run_key(cond, dwell, st, s1);
            let second = run_key(cond, dwell, first.0, s2);
            run_key(cond, dwell, st, s1 + s2) == (second.0, (first.1 + second.1) as nat)
        }),
    decreases s1.len(),
{
    if s1.len() == 0 {
        assert(s1 + s2 =~= s2);
    } else {
        let step = rule_step_key(st, condition_holds(cond, s1[0].0), s1[0].1, dwell);
        assert((s1 + s2)[0] == s1[0]);
        assert((s1 + s2).drop_first() =~= s1.drop_first() + s2);
        lemma_run_key_concat(cond, dwell, step.0, s1.drop_first(), s2);
    }
}

/// While the condition keeps holding, an armed episode stays armed and
/// never fires again.
pub proof fn lemma_armed_run(
    cond: RuleCondition,
    dwell: u64,
    t0: u64,
    samples: Seq<(Process, u64)>,
)
    requires
        forall|j: int|
            0 <= j < samples.len() ==> condition_holds(cond, (#[trigger] samples[j]).0),
    ensures
        run_key(cond, dwell, Some(ViolationState { start_time: t0, active: true }), samples) == (
            Some(ViolationState { start_time: t0, active: true }),
            0nat,
        ),
    decreases samples.len(),
{
    if samples.len() > 0 {
        lemma_armed_run(cond, dwell, t0, samples.drop_first());
    }
}

/// While the condition keeps holding, a pending episode stays pending until
/// a sample at least `dwell` past its start, fires exactly there once, and
/// stays armed for the rest of the run.
pub proof fn lemma_pending_run(
    cond: RuleCondition,
    dwell: u64,
    t0: u64,
    samples: Seq<(Process, u64)>,
)
    requires
        forall|j: int|
            0 <= j < samples.len() ==> condition_holds(cond, (#[trigger] samples[j]).0),
    ensures
        ({
            let r = run_key(
                cond,
                dwell,
                Some(ViolationState { start_time: t0, active: false }),
                samples,
            );
            if exists|j: int|
                0 <= j < samples.len() && spec_elapsed((#[trigger] samples[j]).1, t0) >= dwell {
                r == (Some(ViolationState { start_time: t0, active: true }), 1nat)
            } else {
                r == (Some(ViolationState { start_time: t0, active: false }), 0nat)
            }
        }),
    decreases samples.len(),
{
    if samples.len() > 0 {
        let rest = samples.drop_first();
        if spec_elapsed(samples[0].1, t0) >= dwell {
            lemma_armed_run(cond, dwell, t0, rest);
            assert(spec_elapsed(samples[0].1, t0) >= dwell);
        } else {
            lemma_pending_run(cond, dwell, t0, rest);
            if exists|j: int|
                0 <= j < samples.len() && spec_elapsed((#[trigger] samples[j]).1, t0) >= dwell {
                let j = choose|j: int|
                    0 <= j < samples.len() && spec_elapsed((#[trigger] samples[j]).1, t0)
                        >= dwell;
                assert(j >= 1);
                assert(rest[j - 1] == samples[j]);
                assert(exists|l: int|
                    0 <= l < rest.len() && spec_elapsed((#[trigger] rest[l]).1, t0) >= dwell);
            } else {
                assert forall|l: int|
                    0 <= l < rest.len() implies !(spec_elapsed((#[trigger] rest[l]).1, t0)
                    >= dwell) by {
                    assert(rest[l] == samples[l + 1]);
                }
            }
        }
    }
}

/// From no episode, a stretch of samples on which the condition holds
/// creates a pending episode at the first sample's time; it fires exactly
/// once if a later sample lies at least `dwell` past that time, and not at
/// all otherwise.
pub proof fn lemma_fresh_run(cond: RuleCondition, dwell: u64, samples: Seq<(Process, u64)>)
    requires
        samples.len() >= 1,
        forall|j: int|
            0 <= j < samples.len() ==> condition_holds(cond, (#[trigger] samples[j]).0),
    ensures
        ({
            let t0 = samples[0].1;
            let r = run_key(cond, dwell, None::<ViolationState>, samples);
            if exists|j: int|
                1 <= j < samples.len() && spec_elapsed((#[trigger] samples[j]).1, t0) >= dwell {
                r == (Some(ViolationState { start_time: t0, active: true }), 1nat)
            } else {
                r == (Some(ViolationState { start_time: t0, active: false }), 0nat)
            }
        }),
{
    let t0 = samples[0].1;
    let rest = samples.drop_first();
    lemma_pending_run(cond, dwell, t0, rest);
    if exists|j: int|
        1 <= j < samples.len() && spec_elapsed((#[trigger] samples[j]).1, t0) >= dwell {
        let j = choose|j: int|
            1 <= j < samples.len() && spec_elapsed((#[trigger] samples[j]).1, t0) >= dwell;
        assert(rest[j - 1] == samples[j]);
        assert(exists|l: int|
            0 <= l < rest.len() && spec_elapsed((#[trigger] rest[l]).1, t0) >= dwell);
    } else {
        assert forall|l: int|
            0 <= l < rest.len() implies !(spec_elapsed((#[trigger] rest[l]).1, t0) >= dwell) by {
            assert(rest[l] == samples[l + 1]);
        }
    }
}

/// Law: a condition that holds continuously fires exactly once per episode.
/// Once a sample lies at least the dwell time past the episode start the
/// action is emitted, and every later sample of the same episode is silent.
pub proof fn lemma_sustained_fires_once(
    cond: RuleCondition,
    dwell: u64,
    samples: Seq<(Process, u64)>,
)
    requires
        samples.len() >= 1,
        forall|j: int|
            0 <= j < samples.len() ==> condition_holds(cond, (#[trigger] samples[j]).0),
        exists|j: int|
            1 <= j < samples.len() && spec_elapsed((#[trigger] samples[j]).1, samples[0].1)
                >= dwell,
    ensures
        run_key(cond, dwell, None::<ViolationState>, samples).1 == 1,
{
    lemma_fresh_run(cond, dwell, samples);
}

/// Law: a condition that holds for strictly less than the dwell time and
/// then goes false produces no action, and the tracker entry is removed.
pub proof fn lemma_short_episode_resets(
    cond: RuleCondition,
    dwell: u64,
    trues: Seq<(Process, u64)>,
    last: (Process, u64),
)
    requires
        trues.len() >= 1,
        forall|j: int| 0 <= j < trues.len() ==> condition_holds(cond, (#[trigger] trues[j]).0),
        forall|j: int|
            0 <= j < trues.len() ==> spec_elapsed((#[trigger] trues[j]).1, trues[0].1) < dwell,
        !condition_holds(cond, last.0),
    ensures
        run_key(cond, dwell, None::<ViolationState>, trues.push(last)) == (
            None::<ViolationState>,
            0nat,
        ),
{
    lemma_fresh_run(cond, dwell, trues);
    lemma_run_key_concat(cond, dwell, None::<ViolationState>, trues, seq![last]);
    assert(trues.push(last) =~= trues + seq![last]);
    let pending = Some(ViolationState { start_time: trues[0].1, active: false });
    let single = seq![last];
    assert(single.len() == 1 && single[0] == last);
    assert(single.drop_first() =~= Seq::<(Process, u64)>::empty());
    assert(run_key(cond, dwell, None::<ViolationState>, Seq::<(Process, u64)>::empty()) == (
        None::<ViolationState>,
        0nat,
    ));
    assert(run_key(cond, dwell, pending, single) == (None::<ViolationState>, 0nat));
}

/// Law: two true stretches each shorter than the dwell time, separated by
/// one false sample, never fire: the episode clock restarts on the false
/// sample instead of accumulating.
pub proof fn lemma_flapping_never_fires(
    cond: RuleCondition,
    dwell: u64,
    first_run: Seq<(Process, u64)>,
    gap: (Process, u64),
    second_run: Seq<(Process, u64)>,
)
    requires
        first_run.len() >= 1,
        second_run.len() >= 1,
        forall|j: int|
            0 <= j < first_run.len() ==> condition_holds(cond, (#[trigger] first_run[j]).0),
        forall|j: int|
            0 <= j < first_run.len() ==> spec_elapsed((#[trigger] first_run[j]).1, first_run[0].1)
                < dwell,
        !condition_holds(cond, gap.0),
        forall|j: int|
            0 <= j < second_run.len() ==> condition_holds(cond, (#[trigger] second_run[j]).0),
        forall|j: int|
            0 <= j < second_run.len() ==> spec_elapsed(
                (#[trigger] second_run[j]).1,
                second_run[0].1,
            ) < dwell,
    ensures
        run_key(cond, dwell, None::<ViolationState>, first_run.push(gap) + second_run).1 == 0,
{
    lemma_short_episode_resets(cond, dwell, first_run, gap);
    lemma_run_key_concat(cond, dwell, None::<ViolationState>, first_run.push(gap), second_run);
    lemma_fresh_run(cond, dwell, second_run);
}

/// Whether the rule at index `i` is ripe to fire this cycle under tracker
/// `tr`: its condition holds of the process and its pending episode started
/// at least the dwell time ago.
pub open spec fn fires_now(
    rules: Seq<Rule>,
    tr: Map<u64, ViolationState>,
    p: Process,
    now: u64,
    i: int,
) -> bool {
    let k = tkey(i, p.pid);
    &&& condition_holds(rules[i].condition, p)
    &&& tr.dom().contains(k)
    &&& !tr[k].active
    &&& spec_elapsed(now, tr[k].start_time) >= rules[i].duration_ms
}

/// Distinct rule indices pack to distinct tracker keys for one pid.
pub proof fn lemma_tkey_injective(i: int, j: int, pid: u32)
    requires
        0 <= i < 0x1_0000_0000,
        0 <= j < 0x1_0000_0000,
        i != j,
    ensures
        tkey(i, pid) != tkey(j, pid),
{
    assert(i * 0x1_0000_0000 + pid != j * 0x1_0000_0000 + pid) by (nonlinear_arith)
        requires
            0 <= i < 0x1_0000_0000,
            0 <= j < 0x1_0000_0000,
            i != j,
            0 <= pid < 0x1_0000_0000,
    ;
    assert(i * 0x1_0000_0000 + pid < 0x1_0000_0000_0000_0000) by (nonlinear_arith)
        requires
            0 <= i < 0x1_0000_0000,
            0 <= pid < 0x1_0000_0000,
    ;
    assert(j * 0x1_0000_0000 + pid < 0x1_0000_0000_0000_0000) by (nonlinear_arith)
        requires
            0 <= j < 0x1_0000_0000,
            0 <= pid < 0x1_0000_0000,
    ;
}

proof fn lemma_precedence_from(
    rules: Seq<Rule>,
    tr0: Map<u64, ViolationState>,
    tr: Map<u64, ViolationState>,
    p: Process,
    now: u64,
    j: int,
    i: int,
)
    requires
        rules.len() <= 0x1_0000_0000,
        0 <= j <= i < rules.len(),
        fires_now(rules, tr0, p, now, i),
        forall|l: int| j <= l < i ==> !fires_now(rules, tr0, p, now, l),
        forall|l: int|
            j <= l < rules.len() ==> key_state(tr, tkey(l, p.pid)) == key_state(
                tr0,
                #[trigger] tkey(l, p.pid),
            ),
    ensures
        eval_from(rules, tr, p, now, j).1 == Some(rules[i].action),
    decreases i - j,
{
    let k = tkey(j, p.pid);
    let st = key_state(tr, k);
    let holds = condition_holds(rules[j].condition, p);
    let step = rule_step_key(st, holds, now, rules[j].duration_ms);
    if j == i {
        assert(step.1);
    } else {
        assert(!fires_now(rules, tr0, p, now, j));
        assert(!step.1);
        let tr2 = match step.0 {
            None => tr.remove(k),
            Some(s) => tr.insert(k, s),
        };
        assert(eval_from(rules, tr, p, now, j) == eval_from(rules, tr2, p, now, j + 1));
        assert forall|l: int|
            j + 1 <= l < rules.len() implies key_state(tr2, #[trigger] tkey(l, p.pid))
            == key_state(tr0, tkey(l, p.pid)) by {
            lemma_tkey_injective(j, l, p.pid);
        }
        lemma_precedence_from(rules, tr0, tr2, p, now, j + 1, i);
    }
}

/// Law: with a single rule, one evaluation cycle is exactly one dwell
/// transition of that rule's key: the tracker is updated accordingly and
/// the action is returned precisely when the transition fires.
pub proof fn lemma_single_rule_cycle(
    rule: Rule,
    tr: Map<u64, ViolationState>,
    p: Process,
    now: u64,
)
    ensures
        ({
            let k = tkey(0, p.pid);
            let step = rule_step_key(
                key_state(tr, k),
                condition_holds(rule.condition, p),
                now,
                rule.duration_ms,
            );
            let r = eval_from(seq![rule], tr, p, now, 0);
            &&& r.0 == (match step.0 {
                None => tr.remove(k),
                Some(s) => tr.insert(k, s),
            })
            &&& r.1 == (if step.1 {
                Some(rule.action)
            } else {
                None::<Action>
            })
        }),
{
    let s = seq![rule];
    assert(s.len() == 1 && s[0] == rule);
    let k = tkey(0, p.pid);
    let st = key_state(tr, k);
    let step = rule_step_key(st, condition_holds(rule.condition, p), now, rule.duration_ms);
    let tr2 = match step.0 {
        None => tr.remove(k),
        Some(x) => tr.insert(k, x),
    };
    assert(eval_from(s, tr2, p, now, 1) == (tr2, None::<Action>));
}

/// Law: when several rules are ripe to fire for one process in the same
/// cycle, the cycle returns the action of the first such rule in
/// declaration order.
pub proof fn lemma_rule_precedence(
    rules: Seq<Rule>,
    tr: Map<u64, ViolationState>,
    p: Process,
    now: u64,
    i: int,
)
    requires
        rules.len() <= 0x1_0000_0000,
        0 <= i < rules.len(),
        fires_now(rules, tr, p, now, i),
        forall|l: int| 0 <= l < i ==> !fires_now(rules, tr, p, now, l),
    ensures
        eval_from(rules, tr, p, now, 0).1 == Some(rules[i].action),
{
    lemma_precedence_from(rules, tr, tr, p, now, 0, i);
}

} // verus!

