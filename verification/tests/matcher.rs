use resguard::errors::ResguardError;
use resguard::process::{decide_monitor, Matcher, Process};
use resguard::state::AppState;
use resguard::rules::Action;

fn named(name: &str, exe: &str) -> Process {
    Process {
        pid: 1,
        name: name.to_string(),
        exe: exe.to_string(),
        cmd: vec![],
        cpu_usage: 0,
        memory: 0,
        user: "unknown".to_string(),
        systemd_service: None,
    }
}

#[test]
fn no_patterns_monitors_everything() {
    let m = Matcher::new(vec![], vec![]).unwrap();
    assert!(m.should_monitor(&named("anything", "/bin/anything")));
}

#[test]
fn blacklist_hit_excludes() {
    let m = Matcher::new(vec![], vec!["^systemd".to_string()]).unwrap();
    assert!(!m.should_monitor(&named("systemd-journald", "/lib/systemd/systemd-journald")));
    assert!(m.should_monitor(&named("nginx", "/usr/sbin/nginx")));
}

#[test]
fn blacklist_matches_exe_path_too() {
    let m = Matcher::new(vec![], vec!["/usr/libexec/".to_string()]).unwrap();
    assert!(!m.should_monitor(&named("helper", "/usr/libexec/helper")));
}

#[test]
fn whitelist_admits_only_matches() {
    let m = Matcher::new(vec!["^nginx$".to_string()], vec![]).unwrap();
    assert!(m.should_monitor(&named("nginx", "/usr/sbin/nginx")));
    assert!(!m.should_monitor(&named("redis", "/usr/bin/redis")));
}

#[test]
fn blacklist_beats_whitelist() {
    let m = Matcher::new(vec!["^nginx".to_string()], vec!["^nginx".to_string()]).unwrap();
    assert!(!m.should_monitor(&named("nginx", "/usr/sbin/nginx")));
}

#[test]
fn invalid_pattern_is_a_config_error() {
    let r = Matcher::new(vec!["(".to_string()], vec![]);
    match r {
        Err(ResguardError::Config(msg)) => assert!(!msg.is_empty()),
        _ => panic!("an invalid pattern must be reported as a configuration error"),
    }
}

#[test]
fn decide_monitor_logic() {
    // No hits anywhere, no whitelist: monitored.
    assert!(decide_monitor(&vec![false, false], &vec![]));
    // Any blacklist hit excludes.
    assert!(!decide_monitor(&vec![false, true], &vec![]));
    // A whitelist exists: only a hit admits.
    assert!(decide_monitor(&vec![], &vec![false, true]));
    assert!(!decide_monitor(&vec![], &vec![false, false]));
    // Blacklist wins over a whitelist hit.
    assert!(!decide_monitor(&vec![true], &vec![true]));
}

#[test]
fn action_log_appends_in_order() {
    let mut state = AppState::new();
    assert_eq!(state.actions.len(), 0);
    state.log_action(named("a", "/bin/a"), Action::Stop, 1_000);
    state.log_action(named("b", "/bin/b"), Action::LimitCpu(10_000), 2_000);
    assert_eq!(state.actions.len(), 2);
    assert_eq!(state.actions[0].timestamp, 1_000);
    assert_eq!(state.actions[0].process.name, "a");
    assert_eq!(state.actions[0].action, Action::Stop);
    assert_eq!(state.actions[1].timestamp, 2_000);
    assert_eq!(state.actions[1].action, Action::LimitCpu(10_000));
}
