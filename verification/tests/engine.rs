use resguard::config::{Action as ConfigAction, Condition, Rule as ConfigRule};
use resguard::metrics::{LoadAvg, SystemMetrics};
use resguard::process::Process;
use resguard::rules::{Action, Engine, RuleCondition};

fn proc_with(pid: u32, cpu_milli: u64, mem: u64) -> Process {
    Process {
        pid,
        name: "worker".to_string(),
        exe: "/usr/bin/worker".to_string(),
        cmd: vec!["worker".to_string()],
        cpu_usage: cpu_milli,
        memory: mem,
        user: "unknown".to_string(),
        systemd_service: None,
    }
}

fn metrics() -> SystemMetrics {
    SystemMetrics {
        cpu_total: 40_000,
        memory_used: 1 << 30,
        memory_total: 4 << 30,
        load_average: LoadAvg { one: 500, five: 400, fifteen: 300 },
        timestamp: 0,
    }
}

fn cpu_rule(name: &str, threshold_milli: u64, action: ConfigAction, duration_secs: u64) -> ConfigRule {
    ConfigRule {
        name: name.to_string(),
        condition: Condition::CpuOver { threshold: threshold_milli },
        action,
        duration_secs,
    }
}

#[test]
fn empty_and_condition_is_true() {
    let engine = Engine::new(&vec![]);
    let p = proc_with(1, 0, 0);
    assert!(engine.check_condition(&RuleCondition::And(vec![]), &p));
}

#[test]
fn cpu_threshold_is_strict() {
    let engine = Engine::new(&vec![]);
    let p = proc_with(1, 80_000, 100);
    assert!(!engine.check_condition(&RuleCondition::CpuOver(80_000), &p));
    assert!(engine.check_condition(&RuleCondition::CpuOver(79_999), &p));
}

#[test]
fn memory_threshold_is_strict() {
    let engine = Engine::new(&vec![]);
    let p = proc_with(1, 0, 1024);
    assert!(!engine.check_condition(&RuleCondition::MemoryOver(1024), &p));
    assert!(engine.check_condition(&RuleCondition::MemoryOver(1023), &p));
}

#[test]
fn nested_and_condition() {
    let engine = Engine::new(&vec![]);
    let p = proc_with(1, 50_000, 2048);
    let both = RuleCondition::And(vec![
        RuleCondition::CpuOver(40_000),
        RuleCondition::MemoryOver(1024),
    ]);
    assert!(engine.check_condition(&both, &p));
    let one_false = RuleCondition::And(vec![
        RuleCondition::CpuOver(40_000),
        RuleCondition::MemoryOver(4096),
    ]);
    assert!(!engine.check_condition(&one_false, &p));
}

#[test]
fn short_violation_fires_nothing_and_resets() {
    // Dwell 10 s; condition true for 9 s, then false: no action, entry gone.
    let rules = vec![cpu_rule(
        "cpu-hog",
        80_000,
        ConfigAction::LimitCpu { max_percent: 50_000 },
        10,
    )];
    let mut engine = Engine::new(&rules);
    let hot = proc_with(7, 85_000, 0);
    let cold = proc_with(7, 10_000, 0);
    let m = metrics();
    assert_eq!(engine.evaluate(&hot, &m, 0), None);
    assert!(engine.is_tracked(0, 7));
    assert_eq!(engine.evaluate(&hot, &m, 5_000), None);
    assert_eq!(engine.evaluate(&hot, &m, 9_000), None);
    assert!(engine.is_tracked(0, 7));
    assert_eq!(engine.evaluate(&cold, &m, 12_000), None);
    assert!(!engine.is_tracked(0, 7));
}

#[test]
fn sustained_violation_fires_exactly_once() {
    // Dwell 5 s; condition true continuously: one action, then silence.
    let rules = vec![cpu_rule(
        "cpu-hog",
        80_000,
        ConfigAction::LimitCpu { max_percent: 50_000 },
        5,
    )];
    let mut engine = Engine::new(&rules);
    let hot = proc_with(9, 90_000, 0);
    let m = metrics();
    assert_eq!(engine.evaluate(&hot, &m, 0), None);
    assert_eq!(engine.evaluate(&hot, &m, 2_000), None);
    assert_eq!(engine.evaluate(&hot, &m, 4_000), None);
    assert_eq!(engine.evaluate(&hot, &m, 6_000), Some(Action::LimitCpu(50_000)));
    assert_eq!(engine.evaluate(&hot, &m, 8_000), None);
    assert_eq!(engine.evaluate(&hot, &m, 60_000), None);
    assert!(engine.is_tracked(0, 9));
}

#[test]
fn flapping_below_dwell_never_fires() {
    // Dwell 10 s; two 9 s true runs separated by one false sample: never fires.
    let rules = vec![cpu_rule(
        "cpu-hog",
        80_000,
        ConfigAction::Stop,
        10,
    )];
    let mut engine = Engine::new(&rules);
    let hot = proc_with(11, 99_000, 0);
    let cold = proc_with(11, 1_000, 0);
    let m = metrics();
    assert_eq!(engine.evaluate(&hot, &m, 0), None);
    assert_eq!(engine.evaluate(&hot, &m, 9_000), None);
    assert_eq!(engine.evaluate(&cold, &m, 10_000), None);
    assert!(!engine.is_tracked(0, 11));
    assert_eq!(engine.evaluate(&hot, &m, 12_000), None);
    assert_eq!(engine.evaluate(&hot, &m, 21_000), None);
    assert!(engine.is_tracked(0, 11));
}

#[test]
fn first_declared_rule_wins() {
    // Both rules ripe in the same cycle: only the first declared fires.
    let rules = vec![
        cpu_rule("first", 50_000, ConfigAction::LimitCpu { max_percent: 40_000 }, 2),
        cpu_rule("second", 30_000, ConfigAction::LimitCpu { max_percent: 20_000 }, 2),
    ];
    let mut engine = Engine::new(&rules);
    let hot = proc_with(5, 80_000, 0);
    let m = metrics();
    assert_eq!(engine.evaluate(&hot, &m, 0), None);
    assert!(engine.is_tracked(0, 5));
    assert!(engine.is_tracked(1, 5));
    assert_eq!(engine.evaluate(&hot, &m, 3_000), Some(Action::LimitCpu(40_000)));
    // The second rule's own episode is still pending and fires on a later
    // cycle of its own.
    assert_eq!(engine.evaluate(&hot, &m, 3_500), Some(Action::LimitCpu(20_000)));
    assert_eq!(engine.evaluate(&hot, &m, 4_000), None);
}

#[test]
fn end_to_end_cpu_limit_scenario() {
    // CpuOver 80%, dwell 5 s, action LimitCpu 50%, polled every 2 s.
    // X stays at 85%: the action fires at the first poll at least 5 s after
    // the episode began. Y never exceeds 80%: never tracked, never limited.
    let rules = vec![cpu_rule(
        "protect",
        80_000,
        ConfigAction::LimitCpu { max_percent: 50_000 },
        5,
    )];
    let mut engine = Engine::new(&rules);
    let x = proc_with(100, 85_000, 0);
    let y = proc_with(200, 50_000, 0);
    let m = metrics();
    let mut fired: Vec<(u64, Action)> = Vec::new();
    for t in [0u64, 2_000, 4_000, 6_000, 8_000] {
        if let Some(a) = engine.evaluate(&x, &m, t) {
            fired.push((t, a));
        }
        assert_eq!(engine.evaluate(&y, &m, t), None);
    }
    assert_eq!(fired, vec![(6_000, Action::LimitCpu(50_000))]);
    assert!(engine.is_tracked(0, 100));
    assert!(!engine.is_tracked(0, 200));
}

#[test]
fn failure_of_one_process_leaves_others_tracked() {
    // Tracker state is keyed per process: what happens to one pid never
    // touches another pid's episode.
    let rules = vec![cpu_rule("r", 10_000, ConfigAction::Stop, 60)];
    let mut engine = Engine::new(&rules);
    let a = proc_with(1, 50_000, 0);
    let b = proc_with(2, 50_000, 0);
    let m = metrics();
    assert_eq!(engine.evaluate(&a, &m, 0), None);
    assert_eq!(engine.evaluate(&b, &m, 0), None);
    let a_cold = proc_with(1, 0, 0);
    assert_eq!(engine.evaluate(&a_cold, &m, 5_000), None);
    assert!(!engine.is_tracked(0, 1));
    assert!(engine.is_tracked(0, 2));
}

#[test]
fn parse_keeps_every_rule_in_order() {
    let rules = vec![
        ConfigRule {
            name: "mem".to_string(),
            condition: Condition::And {
                conditions: vec![
                    Condition::MemoryOver { threshold: 1 << 30 },
                    Condition::CpuOver { threshold: 1_000 },
                ],
            },
            action: ConfigAction::LimitMemory { max_bytes: 1 << 29 },
            duration_secs: 3,
        },
        ConfigRule {
            name: "kill".to_string(),
            condition: Condition::CpuOver { threshold: 95_000 },
            action: ConfigAction::Stop,
            duration_secs: 1,
        },
    ];
    let mut engine = Engine::new(&rules);
    let m = metrics();
    // A process violating only the second rule gets the second action.
    let spiky = proc_with(3, 99_000, 0);
    assert_eq!(engine.evaluate(&spiky, &m, 0), None);
    assert_eq!(engine.evaluate(&spiky, &m, 1_500), Some(Action::Stop));
    // A process violating only the first rule gets the first action.
    let heavy = proc_with(4, 2_000, 2 << 30);
    assert_eq!(engine.evaluate(&heavy, &m, 0), None);
    assert_eq!(engine.evaluate(&heavy, &m, 3_500), Some(Action::LimitMemory(1 << 29)));
}

#[test]
fn parse_condition_mirrors_config() {
    let parsed = Engine::parse_condition(&Condition::And {
        conditions: vec![
            Condition::CpuOver { threshold: 7 },
            Condition::And { conditions: vec![] },
        ],
    })
    .unwrap();
    let engine = Engine::new(&vec![]);
    // cpu 8 > 7 and the empty conjunction holds: the whole tree holds.
    assert!(engine.check_condition(&parsed, &proc_with(1, 8, 0)));
    // cpu 7 is not strictly over 7: the tree does not hold.
    assert!(!engine.check_condition(&parsed, &proc_with(1, 7, 0)));
}

#[test]
fn parse_action_mirrors_config() {
    assert_eq!(
        Engine::parse_action(&ConfigAction::LimitCpu { max_percent: 10_000 }),
        Some(Action::LimitCpu(10_000))
    );
    assert_eq!(
        Engine::parse_action(&ConfigAction::LimitMemory { max_bytes: 42 }),
        Some(Action::LimitMemory(42))
    );
    assert_eq!(Engine::parse_action(&ConfigAction::Stop), Some(Action::Stop));
}
