use ad_proxy::ids::parse_id_or_nil;
use ad_proxy::mp4_info::list_brands;
use ad_proxy::text::{
    join_texts, contains, decimal_string, ends_with, parse_u64, replace, same_text, split_lines,
    starts_with, to_chars, trim, trim_start,
};
use ad_proxy::time::Timestamp;

#[test]
fn numbers_in_decimal() {
    for n in [0, 9, 10, 99, 100, 12_345, u64::MAX] {
        assert_eq!(decimal_string(n), n.to_string());
        assert_eq!(parse_u64(&decimal_string(n)), Some(n));
    }
}

#[test]
fn parts_of_texts() {
    assert!(starts_with("http://h", "http"));
    assert!(!starts_with("ht", "http"));
    assert!(ends_with("a.m3u8", ".m3u8"));
    assert!(!ends_with("m3u8", ".m3u8"));
    assert!(contains("abcabd", "abd"));
    assert!(!contains("abcab", "abd"));
    assert!(contains("abc", ""));
    assert!(same_text("\u{e9}", "\u{e9}"));
    assert!(!same_text("a", "ab"));
    assert_eq!(join_texts("a\u{e9}", "b"), "a\u{e9}b");
    assert_eq!(replace("aXXbX", "X", "yy"), "ayyyybyy");
    assert_eq!(replace("aaa", "aa", "b"), "ba");
}

#[test]
fn lines_of_texts() {
    for text in ["", "a", "a\n", "a\r\nb", "\n\n", "a\rb\r\n\r", "a\n\r\nb\r\r\n"] {
        let ours: Vec<String> = split_lines(&to_chars(text))
            .iter()
            .map(|line| line.iter().collect())
            .collect();
        let theirs: Vec<String> = text.lines().map(str::to_string).collect();
        assert_eq!(ours, theirs, "{text:?}");
    }
}

#[test]
fn white_space_at_the_ends() {
    for text in ["", " a ", "\u{a0}\u{3000}a b\t\n", "a", "\u{85}", " \u{200b} "] {
        let chars = to_chars(text);
        assert_eq!(trim_start(&chars).iter().collect::<String>(), text.trim_start());
        assert_eq!(trim(&chars).iter().collect::<String>(), text.trim());
    }
}

#[test]
fn points_in_time() {
    let time = Timestamp::parse("2024-10-30T12:52:27.853+01:00").unwrap();
    assert_eq!(time.nanos, 1_730_289_147_853_000_000);
    assert_eq!(Timestamp::parse("yesterday"), None);
    assert_eq!(time.to_millis_text(3600).unwrap(), "2024-10-30T12:52:27.853+01:00");
    assert_eq!(time.to_millis_text(0).unwrap(), "2024-10-30T11:52:27.853Z");
    assert_eq!(time.to_full_text(-1800).unwrap(), "2024-10-30T11:22:27.853-00:30");
    let zone = time.local_zone();
    assert_eq!(Timestamp::parse(&time.to_millis_text(zone).unwrap()), Some(time));
    let finer = Timestamp { nanos: time.nanos + 1 };
    assert_eq!(Timestamp::parse(&finer.to_millis_text(0).unwrap()), Some(time));
    assert_eq!(Timestamp::parse(&finer.to_full_text(0).unwrap()), Some(finer));
    let before = Timestamp { nanos: -1 };
    assert_eq!(Timestamp::parse(&before.to_full_text(0).unwrap()), Some(before));
    assert_eq!(Timestamp { nanos: i128::MAX }.to_millis_text(0), None);
    assert_eq!(Timestamp { nanos: i128::MAX }.local_zone(), 0);
    assert_eq!(Timestamp::from_millis(-1), Some(Timestamp { nanos: -1_000_000 }));
    assert_eq!(Timestamp::from_millis(i64::MAX), None);
    for millis in [
        -8_334_601_228_800_000,
        -8_334_601_228_800_001,
        8_210_266_876_799_999,
        8_210_266_876_800_000,
    ] {
        assert_eq!(
            Timestamp::from_millis(millis).is_some(),
            chrono::DateTime::from_timestamp_millis(millis).is_some(),
            "{millis}"
        );
    }
    let now = Timestamp::now();
    assert!(now.nanos > time.nanos);
}

#[test]
fn identifiers() {
    assert_eq!(parse_id_or_nil("00000000-0000-0000-0000-0000000000ff"), 255);
    assert_eq!(parse_id_or_nil("{000000000000000000000000000000ff}"), 0);
    assert_eq!(parse_id_or_nil("x"), 0);
}

#[test]
fn brands_are_listed() {
    assert_eq!(list_brands(&vec!["isom".to_string(), "mp42".to_string()]), "isom,mp42,");
    assert_eq!(list_brands(&Vec::new()), "");
}
