use vyuta::probe::list_chip_families;

#[test]
fn chip_families_are_a_json_array_ending_with_generic_targets() {
    let s = list_chip_families();
    assert!(s.starts_with('['));
    let parsed: Vec<String> = serde_json::from_str(&s).expect("a JSON array of strings");
    assert!(parsed.len() >= 5);
    // Compact form: quoted names joined by commas, no spaces.
    assert!(parsed.iter().all(|n| !n.chars().any(|c| c == '"' || c == '\\' || (c as u32) < 0x20)));
    let quoted: Vec<String> = parsed.iter().map(|n| format!("\"{n}\"")).collect();
    assert_eq!(s, format!("[{}]", quoted.join(",")));
    let tail: Vec<&str> = parsed[parsed.len() - 5..].iter().map(|x| x.as_str()).collect();
    assert_eq!(
        tail,
        vec!["Generic ARMv6-M", "Generic ARMv7-M", "Generic ARMv7E-M", "Generic ARMv8-M", "Generic RISC-V"]
    );
}
