use ad_proxy::config::{
    is_valid_label_id, resolve_skip_control, InsertionMode, ServerConfig,
};
use ad_proxy::hls::{AttributeValue, DateRange};

fn dummy_config(
    skip_control_offset: Option<u64>,
    skip_control_duration: Option<u64>,
    skip_control_label_id: Option<&str>,
) -> ServerConfig {
    ServerConfig {
        forward_url: "http://localhost/".to_string(),
        interstitials_address: "http://localhost:8080/".to_string(),
        master_playlist_path: None,
        insertion_mode: InsertionMode::Static,
        target_ad_duration: 30,
        target_repeating_cycle: 60,
        target_ad_number: 10,
        test_asset: None,
        skip_control_offset,
        skip_control_duration,
        skip_control_label_id: skip_control_label_id.map(str::to_owned),
    }
}

/// A minimal date range with the given skip control, as it is printed.
fn build_daterange(cfg: &ServerConfig, slot_duration: u64) -> String {
    let sc = resolve_skip_control(cfg, slot_duration);
    let restrict = if sc.is_some() { "JUMP" } else { "SKIP,JUMP" };
    let mut attributes = vec![(
        "X-RESTRICT".to_string(),
        AttributeValue::Text(restrict.to_string()),
    )];
    if let Some(ref sc) = sc {
        attributes.push((
            "X-SKIP-CONTROL-OFFSET".to_string(),
            AttributeValue::Number(sc.offset),
        ));
        if let Some(dur) = sc.duration {
            attributes.push((
                "X-SKIP-CONTROL-DURATION".to_string(),
                AttributeValue::Number(dur),
            ));
        }
        if let Some(ref label) = sc.label_id {
            attributes.push((
                "X-SKIP-CONTROL-LABEL-ID".to_string(),
                AttributeValue::Text(label.clone()),
            ));
        }
    }
    DateRange {
        id: "test-slot".to_string(),
        class: None,
        start_date: Some("2026-01-01T00:00:00.000Z".to_string()),
        duration: None,
        attributes,
    }
    .to_line()
}

#[test]
fn label_id_accepts_letters_hyphen_underscore() {
    assert!(is_valid_label_id("skip_ad"));
    assert!(is_valid_label_id("Skip-Ad"));
    assert!(is_valid_label_id("a"));
    assert!(is_valid_label_id("ABC_def-GHI"));
}

#[test]
fn label_id_rejects_empty_and_non_ascii() {
    assert!(!is_valid_label_id(""));
    assert!(!is_valid_label_id("skip ad")); // space
    assert!(!is_valid_label_id("skip.ad")); // dot
    assert!(!is_valid_label_id("skip123")); // digits
    assert!(!is_valid_label_id("skip\u{e9}")); // non-ASCII
}

#[test]
fn no_skip_control_when_offset_absent() {
    let cfg = dummy_config(None, None, None);
    assert!(resolve_skip_control(&cfg, 30).is_none());
}

#[test]
fn no_skip_control_when_offset_equals_duration() {
    let cfg = dummy_config(Some(30), None, None);
    assert!(resolve_skip_control(&cfg, 30).is_none());
}

#[test]
fn no_skip_control_when_offset_exceeds_duration() {
    let cfg = dummy_config(Some(40), None, None);
    assert!(resolve_skip_control(&cfg, 30).is_none());
}

#[test]
fn skip_control_applies_when_offset_lt_duration() {
    let cfg = dummy_config(Some(5), None, None);
    let sc = resolve_skip_control(&cfg, 30).expect("should have attrs");
    assert_eq!(sc.offset, 5);
    assert!(sc.duration.is_none());
    assert!(sc.label_id.is_none());
}

#[test]
fn skip_control_includes_duration_when_set() {
    let cfg = dummy_config(Some(5), Some(10), None);
    let sc = resolve_skip_control(&cfg, 30).unwrap();
    assert_eq!(sc.duration, Some(10));
}

#[test]
fn skip_control_includes_label_when_valid() {
    let cfg = dummy_config(Some(5), None, Some("skip_ad"));
    let sc = resolve_skip_control(&cfg, 30).unwrap();
    assert_eq!(sc.label_id.as_deref(), Some("skip_ad"));
}

#[test]
fn skip_control_omits_label_when_invalid() {
    // A label with digits is left out; the other attributes are kept.
    let cfg = dummy_config(Some(5), None, Some("skip123"));
    let sc = resolve_skip_control(&cfg, 30).unwrap();
    assert!(sc.label_id.is_none());
    assert_eq!(sc.offset, 5);
}

#[test]
fn daterange_no_skip_control_has_skip_jump_restrict() {
    let cfg = dummy_config(None, None, None);
    let s = build_daterange(&cfg, 30);
    assert!(s.contains("X-RESTRICT=\"SKIP,JUMP\""), "got: {s}");
    assert!(!s.contains("X-SKIP-CONTROL"), "got: {s}");
}

#[test]
fn daterange_skip_control_offset_is_unquoted_integer() {
    let cfg = dummy_config(Some(5), None, None);
    let s = build_daterange(&cfg, 30);
    assert!(s.contains("X-SKIP-CONTROL-OFFSET=5"), "got: {s}");
    assert!(!s.contains("X-SKIP-CONTROL-OFFSET=\"5\""), "got: {s}");
    assert!(s.contains("X-RESTRICT=\"JUMP\""), "got: {s}");
    assert!(!s.contains("SKIP,JUMP"), "got: {s}");
}

#[test]
fn daterange_skip_control_duration_is_unquoted_integer() {
    let cfg = dummy_config(Some(5), Some(10), None);
    let s = build_daterange(&cfg, 30);
    assert!(s.contains("X-SKIP-CONTROL-DURATION=10"), "got: {s}");
    assert!(!s.contains("X-SKIP-CONTROL-DURATION=\"10\""), "got: {s}");
}

#[test]
fn daterange_skip_control_label_id_is_quoted() {
    let cfg = dummy_config(Some(5), None, Some("skip_ad"));
    let s = build_daterange(&cfg, 30);
    assert!(s.contains("X-SKIP-CONTROL-LABEL-ID=\"skip_ad\""), "got: {s}");
}

#[test]
fn daterange_full_skip_control_all_attrs_present() {
    let cfg = dummy_config(Some(5), Some(10), Some("skip_ad"));
    let s = build_daterange(&cfg, 30);
    assert!(s.contains("X-RESTRICT=\"JUMP\""), "got: {s}");
    assert!(s.contains("X-SKIP-CONTROL-OFFSET=5"), "got: {s}");
    assert!(s.contains("X-SKIP-CONTROL-DURATION=10"), "got: {s}");
    assert!(s.contains("X-SKIP-CONTROL-LABEL-ID=\"skip_ad\""), "got: {s}");
    assert!(!s.contains("SKIP,JUMP"), "got: {s}");
}

#[test]
fn daterange_offset_at_boundary_suppresses_skip_control() {
    let cfg = dummy_config(Some(30), Some(5), Some("skip_ad"));
    let s = build_daterange(&cfg, 30);
    assert!(s.contains("X-RESTRICT=\"SKIP,JUMP\""), "got: {s}");
    assert!(!s.contains("X-SKIP-CONTROL"), "got: {s}");
}

#[test]
fn daterange_invalid_label_suppressed_but_other_attrs_emitted() {
    let cfg = dummy_config(Some(5), Some(8), Some("bad label!"));
    let s = build_daterange(&cfg, 30);
    assert!(s.contains("X-SKIP-CONTROL-OFFSET=5"), "got: {s}");
    assert!(s.contains("X-SKIP-CONTROL-DURATION=8"), "got: {s}");
    assert!(!s.contains("X-SKIP-CONTROL-LABEL-ID"), "got: {s}");
}

#[test]
fn daterange_zero_offset_is_valid_immediate_skip() {
    let cfg = dummy_config(Some(0), None, None);
    let s = build_daterange(&cfg, 30);
    assert!(s.contains("X-SKIP-CONTROL-OFFSET=0"), "got: {s}");
    assert!(s.contains("X-RESTRICT=\"JUMP\""), "got: {s}");
}

#[test]
fn daterange_is_printed_whole() {
    let cfg = dummy_config(Some(5), Some(10), Some("skip_ad"));
    assert_eq!(
        build_daterange(&cfg, 30),
        "#EXT-X-DATERANGE:ID=\"test-slot\",START-DATE=\"2026-01-01T00:00:00.000Z\",\
         X-RESTRICT=\"JUMP\",X-SKIP-CONTROL-DURATION=10,X-SKIP-CONTROL-LABEL-ID=\"skip_ad\",\
         X-SKIP-CONTROL-OFFSET=5"
    );
}
