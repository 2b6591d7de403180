use c_ares::version::{features_of, parse_version, try_parse_version};

#[test]
fn version_packs_three_fields() {
    assert_eq!(parse_version("1_15_0"), 0x1_0f_00);
    assert_eq!(parse_version("1_34_5"), (1 << 16) | (34 << 8) | 5);
    assert_eq!(parse_version("0_0_0"), 0);
}

#[test]
fn version_ignores_fields_behind_the_third() {
    assert_eq!(try_parse_version("1_20_1_9"), Some(0x1_14_01));
    assert_eq!(try_parse_version("1_20_1_"), Some(0x1_14_01));
}

#[test]
fn version_accepts_plus_sign_and_leading_zeros() {
    assert_eq!(try_parse_version("+1_018_0"), Some(0x1_12_00));
}

#[test]
fn version_with_too_few_fields_is_refused() {
    assert_eq!(try_parse_version(""), None);
    assert_eq!(try_parse_version("1"), None);
    assert_eq!(try_parse_version("1_2"), None);
    assert_eq!(try_parse_version("1_2_"), None);
}

#[test]
fn version_with_a_bad_number_is_refused() {
    assert_eq!(try_parse_version("1_x_3"), None);
    assert_eq!(try_parse_version("1__3"), None);
    assert_eq!(try_parse_version("-1_2_3"), None);
    assert_eq!(try_parse_version("+_2_3"), None);
    assert_eq!(try_parse_version("1_2_18446744073709551616"), None);
    assert_eq!(try_parse_version("1_2_3 "), None);
}

#[test]
fn version_takes_the_largest_number() {
    assert_eq!(
        try_parse_version("0_0_18446744073709551615"),
        Some(18446744073709551615)
    );
}

#[test]
fn features_follow_the_thresholds() {
    let f = features_of(parse_version("1_14_0"));
    assert!(!f.cares1_15 && !f.cares1_18 && !f.cares1_19 && !f.cares1_20);
    let f = features_of(parse_version("1_15_0"));
    assert!(f.cares1_15 && !f.cares1_18 && !f.cares1_19 && !f.cares1_20);
    let f = features_of(parse_version("1_18_1"));
    assert!(f.cares1_15 && f.cares1_18 && !f.cares1_19 && !f.cares1_20);
    let f = features_of(parse_version("1_19_0"));
    assert!(f.cares1_15 && f.cares1_18 && f.cares1_19 && !f.cares1_20);
    let f = features_of(parse_version("1_20_0"));
    assert!(f.cares1_15 && f.cares1_18 && f.cares1_19 && f.cares1_20);
}
