use vyuta::preflight::{after_arm_send, after_disarm_send, arm_plan, evaluate, ArmPlan, CheckItem, Judged, Source};

fn battery(pct: f64) -> Option<Judged> {
    Some(Judged { pass: pct >= 30.0, detail: format!("{pct:.0}%") })
}

fn level() -> Judged {
    Judged { pass: true, detail: "tilt 0°".to_string() }
}

#[test]
fn passes_when_all_good() {
    let (ok, items) = evaluate(true, battery(80.0), Some("47.40000, 8.50000".into()), level(), 1, Some(false), false);
    assert!(ok);
    assert_eq!(items.len(), 6);
}

#[test]
fn fails_on_low_battery_and_no_gps() {
    let (ok, items) = evaluate(true, battery(10.0), None, level(), 0, Some(false), false);
    assert!(!ok);
    assert!(!items.iter().find(|i| i.id == "battery").unwrap().pass);
    assert!(!items.iter().find(|i| i.id == "gps").unwrap().pass);
    assert!(!items.iter().find(|i| i.id == "params").unwrap().pass);
}

#[test]
fn fails_when_already_armed_or_link_down() {
    let (ok, items) = evaluate(false, battery(80.0), Some("0, 0".into()), level(), 1, Some(true), false);
    assert!(!ok);
    assert!(!items.iter().find(|i| i.id == "disarmed").unwrap().pass);
    assert!(!items.iter().find(|i| i.id == "link").unwrap().pass);
}

#[test]
fn checklist_details_and_order() {
    let (ok, items) = evaluate(true, None, None, level(), 12, None, true);
    assert!(!ok);
    let ids: Vec<&str> = items.iter().map(|i| i.id).collect();
    assert_eq!(ids, vec!["link", "battery", "gps", "attitude", "params", "disarmed"]);
    assert_eq!(items[1].detail, "no battery telemetry");
    assert_eq!(items[2].detail, "no position fix");
    assert_eq!(items[4].detail, "12 parameters");
    assert_eq!(items[5].detail, "already armed");
    assert_eq!(items[0].detail, "heartbeat healthy");
}

#[test]
fn telemetry_source_names() {
    assert_eq!(Source::Mavlink.as_str(), "mavlink");
    assert_eq!(Source::Synthetic.as_str(), "synthetic");
}

#[test]
fn arm_gate_refuses_with_the_first_failing_check() {
    let items = vec![
        CheckItem { id: "link", label: "Telemetry link", pass: true, detail: "ok".into() },
        CheckItem { id: "battery", label: "Battery", pass: false, detail: "12% < 30% minimum".into() },
        CheckItem { id: "gps", label: "GPS", pass: false, detail: "no fix".into() },
    ];
    match arm_plan(false, &items) {
        ArmPlan::Refuse(m) => assert_eq!(m, "pre-flight failed — Battery: 12% < 30% minimum"),
        ArmPlan::SendArm => panic!("a failing checklist must refuse"),
    }
    assert!(matches!(arm_plan(true, &items[..1]), ArmPlan::SendArm));
    match arm_plan(false, &items[..1]) {
        ArmPlan::Refuse(m) => assert_eq!(m, "pre-flight failed — "),
        ArmPlan::SendArm => panic!("refused"),
    }
}

#[test]
fn unsent_arm_and_disarm_become_manual_overrides() {
    let (mut manual, mut armed) = (None, false);
    after_arm_send(true, &mut manual, &mut armed);
    assert_eq!((manual, armed), (None, false));
    after_arm_send(false, &mut manual, &mut armed);
    assert_eq!((manual, armed), (Some(true), true));
    after_disarm_send(true, &mut manual, &mut armed);
    assert_eq!((manual, armed), (Some(true), true));
    after_disarm_send(false, &mut manual, &mut armed);
    assert_eq!((manual, armed), (Some(false), false));
}
