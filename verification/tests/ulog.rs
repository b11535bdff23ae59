use vyuta::ulog::{
    mode_runs, nav_state_name, nav_state_series, parse, split_array, Base, InfoValue, Sample, UlogError,
};
use vyuta::ulog_write::{put_add, put_format, put_header, put_info_text, put_logged, put_msg, Rec};

fn chars(s: &str) -> Vec<char> {
    s.chars().collect()
}

#[test]
fn split_array_parses_dimensions() {
    assert_eq!(split_array(&chars("float")), (chars("float"), 1));
    assert_eq!(split_array(&chars("float[3]")), (chars("float"), 3));
    assert_eq!(split_array(&chars("uint8_t[16]")), (chars("uint8_t"), 16));
}

#[test]
fn split_array_odd_lengths_count_as_one() {
    assert_eq!(split_array(&chars("float[]")), (chars("float"), 1));
    assert_eq!(split_array(&chars("float[x]")), (chars("float"), 1));
    assert_eq!(split_array(&chars("float[0]")), (chars("float"), 1));
}

#[test]
fn rejects_non_ulog() {
    assert!(parse(b"not a ulog file at all", "x", "x").is_err());
}

#[test]
fn short_buffer_is_rejected_with_bad_magic() {
    let mut out = Vec::new();
    put_header(&mut out, 0);
    out.truncate(15);
    match parse(&out, "x", "x") {
        Err(e) => {
            assert_eq!(e, UlogError::BadMagic);
            assert_eq!(e.message(), "not a ULog file (bad magic)");
        }
        Ok(_) => panic!("a 15-byte buffer must be refused"),
    }
}

#[test]
fn nav_state_names() {
    assert_eq!(nav_state_name(2), "POSCTL");
    assert_eq!(nav_state_name(5), "AUTO_RTL");
    assert_eq!(nav_state_name(99), "MODE_99");
}

#[test]
fn nav_state_names_cover_negatives_and_gaps() {
    assert_eq!(nav_state_name(17), "AUTO_TAKEOFF");
    assert_eq!(nav_state_name(11), "MODE_11");
    assert_eq!(nav_state_name(-3), "MODE_-3");
}

fn sample_log() -> Vec<u8> {
    let mut out = Vec::new();
    put_header(&mut out, 1_000_000);
    put_msg(&mut out, b'B', &[0u8; 40]);
    put_info_text(&mut out, "sys_name", "PX4");
    put_format(
        &mut out,
        "sensor_combined:uint64_t timestamp;float[3] accelerometer_m_s2;uint8_t[2] _padding0;",
    );
    put_format(
        &mut out,
        "vehicle_status:uint64_t timestamp;uint8_t nav_state;uint8_t arming_state;",
    );
    put_add(&mut out, 0, 0, "sensor_combined");
    put_add(&mut out, 1, 4, "vehicle_status");
    put_logged(&mut out, 6, 1_100_000, "[logger] logging started");
    Rec::new(0, 1_000_000)
        .f32_bits(1.5f32.to_bits())
        .f32_bits((-2.0f32).to_bits())
        .f32_bits(9.81f32.to_bits())
        .u8(0)
        .u8(0)
        .emit(&mut out);
    for (i, nav) in [17u8, 17, 2, 2, 5].iter().enumerate() {
        Rec::new(4, 1_000_000 + 200_000 * i as u64).u8(*nav).u8(2).emit(&mut out);
    }
    // A record for an unsubscribed id is ignored.
    Rec::new(9, 5).u8(1).emit(&mut out);
    put_logged(&mut out, 4, 2_000_000, "Failsafe enabled: RC signal lost");
    out
}

#[test]
fn parses_series_messages_and_info() {
    let bytes = sample_log();
    let log = parse(&bytes, "mem", "flight.ulg").expect("valid log");
    assert_eq!(log.source, "mem");
    assert_eq!(log.name, "flight.ulg");
    let keys: Vec<&str> = log.series.iter().map(|(k, _)| k.as_str()).collect();
    assert_eq!(
        keys,
        vec![
            "sensor_combined[0].accelerometer_m_s2[0]",
            "sensor_combined[0].accelerometer_m_s2[1]",
            "sensor_combined[0].accelerometer_m_s2[2]",
            "vehicle_status[1].nav_state",
            "vehicle_status[1].arming_state",
        ]
    );
    let ax1 = &log.series[1].1;
    assert_eq!(ax1.len(), 1);
    assert_eq!(ax1[0], Sample { t_us: 1_000_000, base: Base::F32, bits: (-2.0f32).to_bits() as u64 });
    let nav = &log.series[3].1;
    assert_eq!(nav.iter().map(|s| s.bits).collect::<Vec<_>>(), vec![17, 17, 2, 2, 5]);
    assert_eq!(nav[4].t_us, 1_800_000);
    assert_eq!(log.messages.len(), 2);
    assert_eq!(log.messages[1].text, "Failsafe enabled: RC signal lost");
    assert_eq!(log.messages[1].level, 4);
    assert_eq!(log.messages[0].t_us, 1_100_000);
    assert_eq!(log.min_ts, Some(1_000_000));
    assert_eq!(log.info.len(), 1);
    assert_eq!(log.info[0].0, "sys_name");
    match &log.info[0].1 {
        InfoValue::Text(t) => assert_eq!(t, "PX4"),
        _ => panic!("sys_name is text"),
    }
}

#[test]
fn modes_follow_the_nav_state_series() {
    let bytes = sample_log();
    let log = parse(&bytes, "mem", "flight.ulg").unwrap();
    let i = nav_state_series(&log.series).expect("nav_state series present");
    assert_eq!(log.series[i].0, "vehicle_status[1].nav_state");
    let codes: Vec<i64> = log.series[i].1.iter().map(|s| s.bits as i64).collect();
    let runs = mode_runs(&codes);
    let spans: Vec<(&str, usize, usize)> = runs.iter().map(|r| (r.mode.as_str(), r.first, r.last)).collect();
    assert_eq!(spans, vec![("AUTO_TAKEOFF", 0, 1), ("POSCTL", 2, 3), ("AUTO_RTL", 4, 4)]);
}

#[test]
fn truncated_tail_and_unknown_messages_are_skipped() {
    let mut bytes = sample_log();
    let full = parse(&bytes, "a", "b").unwrap();
    // A frame announcing more bytes than remain ends the read.
    bytes.extend_from_slice(&[200, 0, b'L', 1, 2, 3]);
    let cut = parse(&bytes, "a", "b").unwrap();
    assert_eq!(cut.messages.len(), full.messages.len());
    assert_eq!(cut.series.len(), full.series.len());
}

#[test]
fn record_without_timestamp_adds_nothing() {
    let mut out = Vec::new();
    put_header(&mut out, 0);
    put_format(&mut out, "raw:uint32_t counter;");
    put_add(&mut out, 0, 1, "raw");
    Rec::new(1, 7).emit(&mut out);
    let log = parse(&out, "a", "b").unwrap();
    assert!(log.series.is_empty());
    assert_eq!(log.min_ts, None);
}

#[test]
fn zero_timestamps_do_not_count_as_earliest() {
    let mut out = Vec::new();
    put_header(&mut out, 0);
    put_logged(&mut out, 6, 0, "boot");
    put_logged(&mut out, 6, 42, "later");
    let log = parse(&out, "a", "b").unwrap();
    assert_eq!(log.min_ts, Some(42));
    assert_eq!(log.messages[0].text, "boot");
}

#[test]
fn info_values_are_typed() {
    let mut out = Vec::new();
    put_header(&mut out, 0);
    let key = b"int32_t ver_sw_release";
    let mut p = vec![key.len() as u8];
    p.extend_from_slice(key);
    p.extend_from_slice(&(-5i32).to_le_bytes());
    put_msg(&mut out, b'I', &p);
    let key = b"double thing";
    let mut p = vec![key.len() as u8];
    p.extend_from_slice(key);
    p.extend_from_slice(&[0u8; 8]);
    put_msg(&mut out, b'I', &p);
    let log = parse(&out, "a", "b").unwrap();
    assert_eq!(log.info[0].0, "ver_sw_release");
    assert!(matches!(log.info[0].1, InfoValue::Int32(-5)));
    assert!(matches!(log.info[1].1, InfoValue::Bytes(8)));
}

#[test]
fn long_arrays_are_expanded_element_by_element() {
    let mut out = Vec::new();
    put_header(&mut out, 1_000_000);
    put_format(&mut out, "big:uint64_t timestamp;uint8_t[100] f;char[4] name;uint8_t[2] _padding0;");
    put_add(&mut out, 3, 7, "big");
    let mut r = Rec::new(7, 1_500_000);
    for i in 0..100u8 {
        r = r.u8(i);
    }
    r.u8(b'a').u8(b'b').u8(b'c').u8(0).u8(0).u8(0).emit(&mut out);
    let log = parse(&out, "x", "x").expect("parses");
    assert_eq!(log.series.len(), 100);
    for i in 0..100usize {
        let key = format!("big[3].f[{i}]");
        let (_, samples) = log.series.iter().find(|(k, _)| *k == key).expect("element series");
        assert_eq!(samples.len(), 1);
        assert_eq!(samples[0].bits, i as u64);
        assert_eq!(samples[0].t_us, 1_500_000);
    }
    assert!(!log.series.iter().any(|(k, _)| k == "big[3].f"));
}
