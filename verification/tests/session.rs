use vyuta::backend::SimEnv;
use vyuta::session::{is_truthy, FlightMode, MissionRoute, Phase, SimSession, StartPlan, StartRequest};

fn env(real: bool) -> SimEnv {
    SimEnv {
        px4_dir: Some("/px4".to_string()),
        gz_bin: "gz".to_string(),
        px4_makefile: real,
        gz_found: real,
        java_found: false,
        airsim_nh_found: false,
        blocks_found: false,
    }
}

fn req(mock: Option<bool>) -> StartRequest {
    StartRequest { world: Some("baylands".into()), vehicle: None, simulator: None, headless: None, mock }
}

#[test]
fn mock_start_runs_at_once_and_refuses_a_second_start() {
    let mut s = SimSession::new("default".into(), "x500".into(), false);
    assert!(s.mock);
    match s.plan_start(req(None), "default", "x500", false, &env(false)) {
        StartPlan::Mock { fallback, log, ack } => {
            assert!(fallback.is_none());
            assert_eq!(log, "▶ mock simulation started (x500 Quadcopter · Baylands) — target `gz_x500_baylands`");
            assert!(ack.ok);
        }
        _ => panic!("expected a mock run"),
    }
    assert_eq!(s.phase, Phase::Running);
    assert_eq!(s.message, "mock flight — x500 Quadcopter on Baylands");
    assert_eq!(s.make_target(), "gz_x500_baylands");
    match s.plan_start(req(None), "default", "x500", false, &env(false)) {
        StartPlan::Refused(a) => assert_eq!(a.message, "a simulation is already running"),
        _ => panic!("expected a refusal"),
    }
    assert!(matches!(s.mission("takeoff 5"), MissionRoute::ToPilot));
}

#[test]
fn requested_real_run_falls_back_when_unavailable() {
    let mut s = SimSession::new("default".into(), "x500".into(), false);
    match s.plan_start(req(Some(false)), "default", "x500", false, &env(false)) {
        StartPlan::Mock { fallback, .. } => {
            assert_eq!(fallback.as_deref(), Some("Gazebo (gz sim) unavailable — falling back to mock"));
        }
        _ => panic!("expected the mock fallback"),
    }
}

#[test]
fn real_start_launches_make_and_reports_pid() {
    let mut s = SimSession::new("default".into(), "x500".into(), true);
    match s.plan_start(req(None), "default", "x500", false, &env(true)) {
        StartPlan::Real { spec, invocation, label } => {
            assert_eq!(invocation, "make px4_sitl gz_x500_baylands");
            assert_eq!(spec.cwd.as_deref(), Some("/px4"));
            assert_eq!(label, "Gazebo (gz sim)");
            assert_eq!(s.phase, Phase::Starting);
            let (log, ack) = s.launched(Some(4242), &invocation, label);
            assert_eq!(s.message, "running `make px4_sitl gz_x500_baylands` (pid 4242)");
            assert_eq!(log, "▶ launched `make px4_sitl gz_x500_baylands` (Gazebo (gz sim))");
            assert_eq!(ack.message, "started `make px4_sitl gz_x500_baylands`");
        }
        _ => panic!("expected a real launch"),
    }
    match s.mission("arm") {
        MissionRoute::Ignored { note, ack } => {
            assert_eq!(note, "REPL forwarding to live MAVLink not yet wired — ignored `arm`");
            assert!(ack.ok);
        }
        _ => panic!("a real run ignores REPL lines"),
    }
    assert!(s.begin_stop().is_none());
    assert_eq!(s.phase, Phase::Stopping);
    let (log, ack) = s.finish_stop("stopped by request");
    assert_eq!(log, "■ stopped by request");
    assert_eq!(ack.message, "stopped by request");
    assert_eq!(s.phase, Phase::Idle);
    assert_eq!(s.pid, None);
    assert_eq!(s.begin_stop().unwrap().message, "already stopped");
    match s.mission("arm") {
        MissionRoute::Refused(a) => assert_eq!(a.message, "no simulation running"),
        _ => panic!("no run"),
    }
}

#[test]
fn failure_enters_error() {
    let mut s = SimSession::new("default".into(), "x500".into(), true);
    let line = s.fail("failed to spawn `make`: boom");
    assert_eq!(line, "✖ failed to spawn `make`: boom");
    assert_eq!(s.phase, Phase::Error);
    assert_eq!(Phase::Stopping.as_str(), "stopping");
    assert_eq!(FlightMode::Rtl.as_str(), "RTL");
}

#[test]
fn truthy_values() {
    assert!(is_truthy(" TRUE "));
    assert!(is_truthy("1"));
    assert!(is_truthy("On"));
    assert!(!is_truthy("no"));
    assert!(!is_truthy(""));
}

#[test]
fn airsim_is_never_detected_and_falls_back_to_mock() {
    let mut s = SimSession::new("default".into(), "x500".into(), false);
    let mut e = env(true);
    e.airsim_nh_found = true;
    e.blocks_found = true;
    let r = StartRequest {
        world: None,
        vehicle: None,
        simulator: Some("airsim".into()),
        headless: None,
        mock: Some(false),
    };
    match s.plan_start(r, "default", "x500", false, &e) {
        StartPlan::Mock { fallback, .. } => {
            assert_eq!(fallback.as_deref(), Some("AirSim unavailable — falling back to mock"));
        }
        _ => panic!("expected the mock fallback"),
    }
}
