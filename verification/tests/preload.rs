use ad_proxy::hls::{AttributeValue, DateRange, Span};
use ad_proxy::preload::{build_preload_date_range, inject_preload_date_ranges};

fn interstitial() -> DateRange {
    DateRange {
        id: "ad-slot-1".to_string(),
        class: Some("com.apple.hls.interstitial".to_string()),
        start_date: Some("2026-09-17T10:00:00.000Z".to_string()),
        duration: Some(Span { secs: 30, nanos: 0 }),
        attributes: vec![(
            "X-ASSET-LIST".to_string(),
            AttributeValue::Text(
                "https://proxy.example/interstitials?_HLS_interstitial_id=ad-slot-1".to_string(),
            ),
        )],
    }
}

// An interstitial is accompanied by a preload hint with an ID of its own, a
// START-DATE, and the three attributes of a hint.
#[test]
fn preload_date_range_emitted_for_interstitial() {
    let preload = build_preload_date_range(&interstitial()).expect("preload should be built");
    let line = preload.to_line();

    assert!(line.contains("ID=\"ad-slot-1-preload\""), "line: {line}");
    assert!(line.contains("CLASS=\"com.apple.hls.preload\""), "line: {line}");
    assert!(line.contains("START-DATE=\"2026-09-17T10:00:00.000Z\""), "line: {line}");
    assert!(line.contains("DURATION=30"), "line: {line}");
    assert!(
        line.contains("X-URI=\"https://proxy.example/interstitials?_HLS_interstitial_id=ad-slot-1\""),
        "line: {line}"
    );
    assert!(line.contains("X-TARGET-ID=\"ad-slot-1\""), "line: {line}");
    assert!(line.contains("X-TARGET-CLASS=\"com.apple.hls.interstitial\""), "line: {line}");
}

// Exactly one hint stands before each interstitial, and other lines are left
// untouched.
#[test]
fn inject_preload_prepends_line_before_interstitial() {
    let manifest = "#EXTM3U\n\
         #EXT-X-VERSION:6\n\
         #EXT-X-PROGRAM-DATE-TIME:2026-09-17T10:00:00.000Z\n\
         #EXT-X-DATERANGE:ID=\"ad-slot-1\",CLASS=\"com.apple.hls.interstitial\",\
         START-DATE=\"2026-09-17T10:00:00.000Z\",DURATION=30,\
         X-ASSET-LIST=\"https://proxy.example/interstitials?id=1\"\n\
         #EXTINF:6.0,\n\
         seg0.ts\n";

    let out = inject_preload_date_ranges(manifest);

    assert_eq!(out.matches("CLASS=\"com.apple.hls.preload\"").count(), 1, "out: {out}");
    let preload_pos = out.find("com.apple.hls.preload").unwrap();
    let interstitial_pos = out.find("com.apple.hls.interstitial").unwrap();
    assert!(preload_pos < interstitial_pos, "out: {out}");
    let preload_line = out.lines().find(|l| l.contains("com.apple.hls.preload")).unwrap();
    assert!(preload_line.contains("DURATION=30"), "preload_line: {preload_line}");
    assert!(out.contains("#EXTINF:6.0,"), "out: {out}");
    assert!(out.contains("seg0.ts"), "out: {out}");
}

#[test]
fn the_hint_is_the_only_new_line() {
    let line = interstitial().to_line();
    let manifest = format!("#EXTM3U\r\n  {line}\n\nseg0.ts");
    let hint = build_preload_date_range(&interstitial()).unwrap().to_line();
    assert_eq!(
        inject_preload_date_ranges(&manifest),
        format!("#EXTM3U\n{hint}\n  {line}\n\nseg0.ts\n")
    );
    assert_eq!(
        hint,
        "#EXT-X-DATERANGE:ID=\"ad-slot-1-preload\",CLASS=\"com.apple.hls.preload\",\
         START-DATE=\"2026-09-17T10:00:00.000Z\",DURATION=30,\
         X-TARGET-CLASS=\"com.apple.hls.interstitial\",X-TARGET-ID=\"ad-slot-1\",\
         X-URI=\"https://proxy.example/interstitials?_HLS_interstitial_id=ad-slot-1\""
    );
}

#[test]
fn an_asset_comes_before_a_list() {
    let mut target = interstitial();
    target.attributes.push((
        "X-ASSET-URI".to_string(),
        AttributeValue::Text("https://proxy.example/ad.m3u8".to_string()),
    ));
    let hint = build_preload_date_range(&target).unwrap().to_line();
    assert!(hint.contains("X-URI=\"https://proxy.example/ad.m3u8\""), "{hint}");
}

#[test]
fn an_incomplete_target_has_no_hint() {
    let complete = interstitial();
    assert!(build_preload_date_range(&complete).is_some());
    let mut target = interstitial();
    target.class = None;
    assert!(build_preload_date_range(&target).is_none());
    let mut target = interstitial();
    target.start_date = None;
    assert!(build_preload_date_range(&target).is_none());
    let mut target = interstitial();
    target.duration = None;
    assert!(build_preload_date_range(&target).is_none());
    let mut target = interstitial();
    target.attributes.clear();
    assert!(build_preload_date_range(&target).is_none());
    let mut target = interstitial();
    target.attributes.push(("X-ASSET-URI".to_string(), AttributeValue::Other));
    assert!(build_preload_date_range(&target).is_none());
}

#[test]
fn a_printed_date_range_is_read_back() {
    let line = interstitial().to_line();
    let read = DateRange::from_line(&line).unwrap();
    assert_eq!(read.id, "ad-slot-1");
    assert_eq!(read.class.as_deref(), Some("com.apple.hls.interstitial"));
    assert_eq!(read.start_date.as_deref(), Some("2026-09-17T10:00:00.000Z"));
    assert_eq!(read.duration, Some(Span { secs: 30, nanos: 0 }));
    assert_eq!(read.attributes.len(), 1);
    assert!(DateRange::from_line("#EXT-X-DATERANGE:CLASS=\"x\"").is_none());
    assert!(DateRange::from_line("#EXT-X-DATERANGE:ID=\"x\",DURATION=-1").is_none());
    assert!(DateRange::from_line("#EXT-X-DATERANGE:ID=\"x\",X-A=\"").is_none());
}

#[test]
fn a_duration_with_an_exponent_is_read() {
    for (number, printed) in [("1e1", "10"), ("-0", "0"), ("+.25E1", "2.5"), ("-1e-400", "0")] {
        let line = format!(
            "#EXT-X-DATERANGE:ID=\"a\",CLASS=\"com.apple.hls.interstitial\",\
             START-DATE=\"2026-09-17T10:00:00.000Z\",DURATION={number},X-ASSET-URI=\"http://u\",FOO=\""
        );
        let out = inject_preload_date_ranges(&line);
        let lines: Vec<&str> = out.lines().collect();
        assert_eq!(lines.len(), 2, "{out}");
        assert!(lines[0].contains(&format!("DURATION={printed},")), "{out}");
        assert_eq!(lines[1], line);
    }
    for number in ["-1", "1e20", "nan", "+INF", "-1e-300"] {
        let line = format!(
            "#EXT-X-DATERANGE:ID=\"a\",CLASS=\"com.apple.hls.interstitial\",\
             START-DATE=\"2026-09-17T10:00:00.000Z\",DURATION={number},X-ASSET-URI=\"http://u\""
        );
        assert_eq!(inject_preload_date_ranges(&line), format!("{line}\n"));
    }
}
