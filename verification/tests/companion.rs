use vyuta::companion::{CompanionState, Phase, TaskPlan};

fn state() -> CompanionState {
    CompanionState::new(false, false, "/ws".to_string(), String::new())
}

#[test]
fn fresh_state_is_idle_and_synthetic() {
    let s = state();
    let f = s.status_frame();
    assert_eq!(f.phase, "idle");
    assert_eq!(f.bridge, "synthetic");
    assert_eq!(f.message, "ready");
    assert_eq!(f.task, "idle");
    assert_eq!(CompanionState::new(true, true, String::new(), String::new()).bridge, "unknown");
    assert_eq!(Phase::Deploying.as_str(), "deploying");
}

#[test]
fn build_is_planned_then_refused_while_busy() {
    let mut s = state();
    let pkgs = Some(vec!["drone_mission".to_string()]);
    match s.start_build("colcon", "/ws".into(), &pkgs, true) {
        TaskPlan::Spawn { program, args, cwd, log, started, done } => {
            assert_eq!(program, "colcon");
            assert_eq!(args, vec!["build", "--packages-select", "drone_mission"]);
            assert_eq!(cwd.as_deref(), Some("/ws"));
            assert_eq!(log, "▶ colcon build in /ws");
            assert!(started.ok);
            assert_eq!(started.message, "colcon build started");
            assert_eq!(done, "build complete");
        }
        _ => panic!("expected a real build"),
    }
    assert_eq!(s.phase, Phase::Building);
    assert!(s.busy());
    match s.start_deploy("rsync", "/ws".into(), "drone:/opt".into(), true, true) {
        TaskPlan::Refused(a) => {
            assert!(!a.ok);
            assert_eq!(a.cmd, "deploy");
            assert_eq!(a.message, "a task is already running");
        }
        _ => panic!("expected a refusal"),
    }
    assert_eq!(s.phase, Phase::Building);
    assert!(s.begin_cancel().is_none());
    let a = s.finish_cancel();
    assert_eq!(a.message, "cancelled");
    assert_eq!(s.phase, Phase::Idle);
    assert_eq!(s.begin_cancel().unwrap().message, "nothing running");
}

#[test]
fn deploy_adds_trailing_slash_or_simulates() {
    let mut s = state();
    match s.start_deploy("rsync", "/ws".into(), "drone:/opt".into(), true, true) {
        TaskPlan::Spawn { args, log, .. } => {
            assert_eq!(args, vec!["-az", "--delete", "--info=progress2", "/ws/", "drone:/opt"]);
            assert_eq!(log, "▶ rsync /ws/ → drone:/opt");
        }
        _ => panic!("expected a real deploy"),
    }
    s.set_phase(Phase::Error, "boom");
    assert_eq!(s.task, "idle");
    match s.start_deploy("rsync", "/ws/".into(), String::new(), true, true) {
        TaskPlan::Simulate { lines, log, started, done } => {
            assert_eq!(lines.len(), 5);
            assert_eq!(log, "▶ simulated deploy (rsync/target unavailable) /ws/ → <unset>");
            assert_eq!(started.message, "simulated deploy started");
            assert_eq!(done, "deploy complete (simulated)");
        }
        _ => panic!("expected a simulated deploy"),
    }
}

#[test]
fn log_ring_keeps_the_latest_two_hundred() {
    let mut s = state();
    for i in 0..205 {
        s.push_log("stdout", format!("line {i}"));
    }
    let logs = s.recent_logs();
    assert_eq!(logs.len(), 200);
    assert_eq!(logs[0].line, "line 5");
    assert_eq!(logs[199].line, "line 204");
}

#[test]
fn push_log_touches_only_the_log() {
    let mut s = CompanionState::new(true, false, "/ws".to_string(), "pi@drone:/opt".to_string());
    s.push_log("agent", "hello".to_string());
    assert!(s.ros_available && !s.colcon_available);
    assert_eq!(s.workspace, "/ws");
    assert_eq!(s.deploy_target, "pi@drone:/opt");
    assert_eq!(s.bridge, "unknown");
    assert_eq!(s.recent_logs().len(), 1);
    assert_eq!(s.recent_logs()[0].line, "hello");
}
