use vyuta::px4::{custom_mode, mode_string};

#[test]
fn decodes_simple_modes() {
    assert_eq!(mode_string(custom_mode(1, 0)), "MANUAL");
    assert_eq!(mode_string(custom_mode(3, 0)), "POSCTL");
    assert_eq!(mode_string(custom_mode(7, 0)), "STABILIZED");
}

#[test]
fn decodes_auto_submodes() {
    assert_eq!(mode_string(custom_mode(4, 2)), "AUTO.TAKEOFF");
    assert_eq!(mode_string(custom_mode(4, 4)), "AUTO.MISSION");
    assert_eq!(mode_string(custom_mode(4, 5)), "AUTO.RTL");
    assert_eq!(mode_string(custom_mode(4, 99)), "AUTO");
}

#[test]
fn unknown_main_mode() {
    assert_eq!(mode_string(custom_mode(42, 0)), "UNKNOWN");
}

#[test]
fn custom_mode_packs_main_and_sub_bytes() {
    assert_eq!(custom_mode(4, 5), 0x0504_0000);
    assert_eq!(custom_mode(1, 0), 0x0001_0000);
    // Bits below 16 do not affect the decoded mode.
    assert_eq!(mode_string(custom_mode(6, 0) | 0xffff), "OFFBOARD");
    assert_eq!(mode_string(custom_mode(8, 0)), "RATTITUDE");
}
