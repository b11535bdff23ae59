use vyuta::ulog::{mode_runs, nav_state_series, parse, RawLog};
use vyuta::ulog_write::{put_add, put_format, put_header, put_info_text, put_logged, put_msg, Rec};

const T0_US: u64 = 1_000_000;

fn nav_state(t: f64) -> u8 {
    match t {
        _ if t < 3.0 => 17,
        _ if t < 12.0 => 2,
        _ if t < 22.0 => 5,
        _ => 18,
    }
}

fn failsafe(t: f64) -> u8 {
    (12.0..13.5).contains(&t) as u8
}

fn f(x: f64) -> u32 {
    (x as f32).to_bits()
}

/// A ~30 s synthetic flight: takeoff, POSCTL, a vibration burst, an RC-loss
/// failsafe, RTL and landing.
fn synthetic_ulog_bytes() -> Vec<u8> {
    let mut out = Vec::new();
    put_header(&mut out, T0_US);
    put_msg(&mut out, b'B', &[0u8; 40]);
    put_info_text(&mut out, "sys_name", "PX4");
    put_format(&mut out, "sensor_combined:uint64_t timestamp;float[3] accelerometer_m_s2;float[3] gyro_rad;");
    put_format(&mut out, "vehicle_attitude:uint64_t timestamp;float[4] q;");
    put_format(
        &mut out,
        "vehicle_local_position:uint64_t timestamp;float x;float y;float z;float vx;float vy;float vz;",
    );
    put_format(&mut out, "battery_status:uint64_t timestamp;float voltage_v;float remaining;");
    put_format(
        &mut out,
        "vehicle_status:uint64_t timestamp;uint8_t nav_state;uint8_t arming_state;uint8_t failsafe;",
    );
    put_add(&mut out, 0, 0, "sensor_combined");
    put_add(&mut out, 0, 1, "vehicle_attitude");
    put_add(&mut out, 0, 2, "vehicle_local_position");
    put_add(&mut out, 0, 3, "battery_status");
    put_add(&mut out, 0, 4, "vehicle_status");
    put_logged(&mut out, 6, T0_US + 100_000, "[logger] logging started");

    let dur = 30.0_f64;
    let us = |t: f64| T0_US + (t * 1e6) as u64;

    let mut t = 0.0;
    while t < dur {
        let burst = if (14.0..16.0).contains(&t) { 5.0 } else { 0.0 };
        let nx = 0.15 * (t * 3.0).sin() + burst * (t * 220.0).sin();
        let ny = 0.15 * (t * 2.3).cos() + burst * (t * 205.0).cos();
        let nz = -9.81 + 0.1 * (t * 4.0).sin() + burst * 0.5 * (t * 230.0).sin();
        Rec::new(0, us(t))
            .f32_bits(f(nx))
            .f32_bits(f(ny))
            .f32_bits(f(nz))
            .f32_bits(f(0.02 * (t * 1.5).sin()))
            .f32_bits(f(0.02 * (t * 1.7).cos()))
            .f32_bits(f(0.01 * (t * 0.9).sin()))
            .emit(&mut out);
        t += 0.02;
    }

    let mut t = 0.0;
    while t < dur {
        let roll = 0.2 * (t * 0.7).sin();
        let (s, c) = (roll / 2.0).sin_cos();
        Rec::new(1, us(t)).f32_bits(f(c)).f32_bits(f(s)).f32_bits(f(0.0)).f32_bits(f(0.0)).emit(&mut out);
        t += 0.02;
    }

    let mut t = 0.0;
    while t < dur {
        let alt = if t < 3.0 {
            (t / 3.0) * 10.0
        } else if t < 22.0 {
            10.0
        } else {
            (10.0 * (1.0 - (t - 22.0) / 8.0)).max(0.0)
        };
        Rec::new(2, us(t))
            .f32_bits(f(8.0 * (t * 0.2).cos()))
            .f32_bits(f(8.0 * (t * 0.2).sin()))
            .f32_bits(f(-alt))
            .f32_bits(f(-1.6 * (t * 0.2).sin()))
            .f32_bits(f(1.6 * (t * 0.2).cos()))
            .f32_bits(f(0.0))
            .emit(&mut out);
        t += 0.05;
    }

    let mut t = 0.0;
    while t < dur {
        let frac = t / dur;
        Rec::new(3, us(t)).f32_bits(f(16.8 - 2.2 * frac)).f32_bits(f(1.0 - 0.82 * frac)).emit(&mut out);
        t += 0.5;
    }

    let mut t = 0.0;
    while t < dur {
        let arming = if (1.0..28.0).contains(&t) { 2 } else { 1 };
        Rec::new(4, us(t)).u8(nav_state(t)).u8(arming).u8(failsafe(t)).emit(&mut out);
        t += 0.2;
    }

    put_logged(&mut out, 4, us(12.0), "Failsafe enabled: RC signal lost");
    put_logged(&mut out, 6, us(22.0), "Landing detected");
    out
}

fn synthetic_log() -> RawLog {
    parse(&synthetic_ulog_bytes(), "synthetic", "synthetic-flight.ulg").expect("synthetic ULog must parse")
}

fn has_series(log: &RawLog, key: &str) -> bool {
    log.series.iter().any(|(k, _)| k == key)
}

#[test]
fn synthetic_parses_with_expected_series_and_modes() {
    let log = synthetic_log();
    let base = log.min_ts.expect("timestamps seen");
    let last = log.series.iter().flat_map(|(_, s)| s.iter()).map(|s| s.t_us).max().unwrap();
    let duration_s = (last - base) as f64 / 1e6;
    assert!(duration_s > 28.0 && duration_s < 31.0);
    assert!(has_series(&log, "sensor_combined[0].accelerometer_m_s2[0]"));
    assert!(has_series(&log, "battery_status[0].remaining"));
    assert!(has_series(&log, "vehicle_status[0].nav_state"));
    // Modes include takeoff, posctl, rtl and land.
    let i = nav_state_series(&log.series).expect("nav_state series");
    let codes: Vec<i64> = log.series[i].1.iter().map(|s| s.bits as i64).collect();
    let runs = mode_runs(&codes);
    let modes: Vec<&str> = runs.iter().map(|r| r.mode.as_str()).collect();
    assert!(modes.contains(&"AUTO_TAKEOFF"));
    assert!(modes.contains(&"POSCTL"));
    assert!(modes.contains(&"AUTO_RTL"));
    assert!(modes.contains(&"AUTO_LAND"));
    // Logged strings captured.
    assert!(log.messages.iter().any(|m| m.text.contains("Failsafe")));
}

#[test]
fn accel_array_is_expanded_to_three_axes() {
    let log = synthetic_log();
    for ax in 0..3 {
        assert!(has_series(&log, &format!("sensor_combined[0].accelerometer_m_s2[{ax}]")));
    }
}
