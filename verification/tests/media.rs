use ad_proxy::config::{InsertionMode, ServerConfig};
use ad_proxy::hls::read_media;
use ad_proxy::interstitials::{insert_interstitials, insert_slots, match_slots};
use ad_proxy::live_edge::{
    choose_stream_now, fetch_stream_now, find_asset_media, find_master_url, find_test_asset_url,
    inspect_master_playlist, is_fragmented_mp4_vod_media_playlist, parse_test_asset_url,
    resolve_media_playlist_url, AssetMedia,
};
use ad_proxy::master::PlaylistReply;
use ad_proxy::media::{handle_media_playlist, handle_playlist};
use ad_proxy::slots::{AdSlot, AvailableAdSlots};
use ad_proxy::stores::UserDefinedQueryParams;
use ad_proxy::time::Timestamp;

const SECOND: i128 = 1_000_000_000;

fn config(mode: InsertionMode) -> ServerConfig {
    ServerConfig::new(
        "http://origin.example/".to_string(),
        "http://localhost:3333/".to_string(),
        Some("/live/master.m3u8".to_string()),
        mode,
        10,
        20,
        3,
        None,
        None,
        None,
        None,
    )
}

/// 2024-10-30T11:52:27.853Z, the start of the windows below.
fn start() -> Timestamp {
    Timestamp::parse("2024-10-30T11:52:27.853Z").unwrap()
}

fn after(seconds: i128) -> Timestamp {
    Timestamp { nanos: start().nanos + seconds * SECOND }
}

fn live() -> String {
    let mut text = String::from("#EXTM3U\n#EXT-X-TARGETDURATION:4\n#EXT-X-MEDIA-SEQUENCE:11\n");
    text.push_str("#EXT-X-PROGRAM-DATE-TIME:2024-10-30T12:52:27.853+01:00\n");
    for i in 11..19 {
        text.push_str(&format!("#EXTINF:4,\nfileSequence{i}.ts\n"));
    }
    text
}

fn slot(index: u64, seconds: i128, duration: u64) -> AdSlot {
    AdSlot {
        id: index as u128 + 100,
        index,
        start_time: after(seconds),
        zone: 0,
        duration,
        pod_num: 2,
    }
}

fn changed(reply: PlaylistReply) -> String {
    match reply {
        PlaylistReply::Changed(text) => text,
        other => panic!("{other:?}"),
    }
}

fn serve(text: &str, mode: InsertionMode, slots: &mut AvailableAdSlots) -> (PlaylistReply, i64) {
    let mut last_seen: i64 = 0;
    let reply = handle_media_playlist(text, slots, &config(mode), start(), &mut last_seen);
    (reply, last_seen)
}

#[test]
fn a_break_is_put_at_the_first_segment_after_it() {
    let mut slots = AvailableAdSlots::new();
    slots.insert(slot(0, 19, 10));
    let (reply, last_seen) = serve(&live(), InsertionMode::Dynamic, &mut slots);
    let text = changed(reply);
    let lines: Vec<&str> = text.lines().collect();
    let at = lines.iter().position(|l| l.contains("com.apple.hls.interstitial\",START")).unwrap();
    assert_eq!(lines[at + 1], "#EXTINF:4,");
    assert_eq!(lines[at + 2], "fileSequence16.ts");
    assert!(lines[at].starts_with(
        "#EXT-X-DATERANGE:ID=\"ad_slot0\",CLASS=\"com.apple.hls.interstitial\",START-DATE=\""
    ));
    assert!(lines[at].ends_with(
        "\",DURATION=10,X-ASSET-LIST=\"http://localhost:3333/interstitials.m3u8?\
         _HLS_interstitial_id=ad_slot0\",X-RESTRICT=\"SKIP,JUMP\",X-RESUME-OFFSET=10,X-SNAP=\"IN,OUT\""
    ));
    // The preload hint stands directly before.
    assert!(lines[at - 1].starts_with("#EXT-X-DATERANGE:ID=\"ad_slot0-preload\""));
    assert_eq!(text.matches("#EXT-X-DATERANGE").count(), 2);
    // The live edge is the end of the last segment.
    assert_eq!(last_seen as i128 * 1_000_000, after(32).nanos);
    // The start of the break is read back from the text.
    let date = lines[at].split("START-DATE=\"").nth(1).unwrap().split('"').next().unwrap();
    assert_eq!(date, "2024-10-30T11:52:46.853Z");
    assert_eq!(Timestamp::parse(date), Some(after(19)));
}

#[test]
fn zones_are_read_without_a_colon() {
    let mut text = String::from("#EXTM3U\n#EXT-X-TARGETDURATION:4\n#EXT-X-MEDIA-SEQUENCE:11\n");
    for i in 0..8 {
        text.push_str(&format!("#EXT-X-PROGRAM-DATE-TIME:2024-10-30T12:52:{}.853+0100\n", 27 + 4 * i));
        text.push_str(&format!("#EXTINF:4,\nfileSequence{}.ts\n", 11 + i));
    }
    let mut slots = AvailableAdSlots::new();
    slots.insert(AdSlot {
        start_time: Timestamp::parse("2024-10-30T12:52:47.207+01:00").unwrap(),
        ..slot(0, 0, 10)
    });
    let out = changed(serve(&text, InsertionMode::Dynamic, &mut slots).0);
    let lines: Vec<&str> = out.lines().collect();
    let at = lines.iter().position(|l| l.contains("com.apple.hls.interstitial\",START")).unwrap();
    assert!(lines[at].ends_with("X-RESTRICT=\"SKIP,JUMP\",X-RESUME-OFFSET=10,X-SNAP=\"IN,OUT\""));
    let segment = lines[at..].iter().find(|l| !l.starts_with('#')).unwrap();
    assert_eq!(*segment, "fileSequence16.ts");
}

#[test]
fn every_viewer_gets_the_same_break() {
    let mut slots = AvailableAdSlots::new();
    slots.insert(slot(0, 19, 10));
    let first = changed(serve(&live(), InsertionMode::Dynamic, &mut slots).0);
    let second = changed(serve(&live(), InsertionMode::Dynamic, &mut slots).0);
    assert_eq!(first, second);
}

#[test]
fn ended_breaks_are_dropped() {
    let mut slots = AvailableAdSlots::new();
    slots.insert(slot(0, -10, 10));
    slots.insert(slot(1, -11, 10));
    let text = changed(serve(&live(), InsertionMode::Dynamic, &mut slots).0);
    assert!(!text.contains("DATERANGE"), "{text}");
    assert_eq!(slots.items(), vec![slot(0, -10, 10)]);
}

#[test]
fn fixed_breaks_repeat() {
    let mut slots = AvailableAdSlots::new();
    let text = changed(serve(&live(), InsertionMode::Static, &mut slots).0);
    // One break lies in the window, 20 seconds after the server was started.
    assert_eq!(text.matches("com.apple.hls.interstitial\",START").count(), 1, "{text}");
    assert!(text.contains("ID=\"ad_slot1\""), "{text}");
    assert_eq!(slots.items().len(), 3);
    let before = slots.items().len();
    serve(&live(), InsertionMode::Static, &mut slots);
    assert_eq!(slots.items().len(), before);
}

#[test]
fn recordings_take_fixed_breaks_only() {
    let vod = live().replace("#EXT-X-TARGETDURATION:4\n", "#EXT-X-TARGETDURATION:4\n#EXT-X-PLAYLIST-TYPE:VOD\n");
    let mut slots = AvailableAdSlots::new();
    slots.insert(slot(0, 19, 10));
    let text = changed(serve(&vod, InsertionMode::Dynamic, &mut slots).0);
    assert!(!text.contains("DATERANGE"), "{text}");
    assert_eq!(slots.items().len(), 1);
    let mut none = AvailableAdSlots::new();
    let text = changed(serve(&vod, InsertionMode::Static, &mut none).0);
    let line = text.lines().find(|l| l.contains("hls.interstitial\",START")).unwrap();
    assert!(line.contains("X-RESUME-OFFSET=0,X-SNAP=\"IN,OUT\""), "{line}");
}

#[test]
fn a_playlist_without_times_is_passed_on() {
    let text = "#EXTM3U\n#EXT-X-TARGETDURATION:4\n#EXTINF:4,\n0.ts\n#EXTINF:4,\n1.ts\n";
    for mode in [InsertionMode::Dynamic, InsertionMode::Static] {
        let mut slots = AvailableAdSlots::new();
        slots.insert(slot(0, -100, 10));
        let (reply, last_seen) = serve(text, mode, &mut slots);
        assert!(matches!(reply, PlaylistReply::Unchanged));
        assert_eq!(last_seen, 0);
        assert_eq!(slots.items(), vec![slot(0, -100, 10)]);
        let mut playlist = read_media(text).unwrap();
        let before = playlist.to_string();
        insert_interstitials(&mut playlist, &config(mode), &mut slots, start());
        assert_eq!(playlist.to_string(), before);
        assert_eq!(slots.items(), vec![slot(0, -100, 10)]);
    }
    let empty = "#EXTM3U\n#EXT-X-TARGETDURATION:4\n";
    let mut slots = AvailableAdSlots::new();
    let (reply, _) = serve(empty, InsertionMode::Static, &mut slots);
    assert!(matches!(reply, PlaylistReply::Unchanged));
    assert!(slots.is_empty());
}

#[test]
fn keys_of_several_formats_are_kept() {
    let text = live().replace(
        "#EXTINF:4,\nfileSequence12.ts",
        "#EXT-X-KEY:METHOD=SAMPLE-AES,URI=\"skd://a\",KEYFORMAT=\"com.apple.streamingkeydelivery\"\n\
         #EXT-X-KEY:METHOD=SAMPLE-AES,URI=\"data:b\",KEYFORMAT=\"com.example\"\n\
         #EXTINF:4,\nfileSequence12.ts",
    );
    let mut slots = AvailableAdSlots::new();
    slots.insert(slot(0, 19, 10));
    let out = changed(serve(&text, InsertionMode::Dynamic, &mut slots).0);
    assert_eq!(out.matches("#EXT-X-KEY:").count(), 2, "{out}");
    assert_eq!(out.matches("#EXTINF:").count(), 8, "{out}");
    assert_eq!(out.matches("#EXT-X-DATERANGE").count(), 2, "{out}");
    assert!(!out.contains("#EXT-X-ENDLIST"), "{out}");
}

#[test]
fn lengths_of_time_with_exponents() {
    let text = live().replace("#EXTINF:4,\nfileSequence18.ts", "#EXTINF:40e-1,\nfileSequence18.ts");
    let mut slots = AvailableAdSlots::new();
    let (reply, last_seen) = serve(&text, InsertionMode::Dynamic, &mut slots);
    changed(reply);
    assert_eq!(last_seen as i128 * 1_000_000, after(32).nanos);
    for number in ["-1", "1e20", "inf", "-NaN", "18446744073709550592"] {
        let text = live().replace("#EXTINF:4,\nfileSequence18.ts", &format!("#EXTINF:{number},\nx.ts"));
        assert!(read_media(&text).is_none(), "{number}");
    }
    // What is rounded to zero is no negative length.
    let short = |number: &str| {
        live().replace("#EXTINF:4,\nfileSequence18.ts", &format!("#EXTINF:{number},\nx.ts"))
    };
    for number in ["-0", "-1e-400", "-2e-324", "-0.24e-323", "-1e-99999999999999999999999999"] {
        assert!(read_media(&short(number)).is_some(), "{number}");
    }
    for number in ["-3e-324", "-0.25e-323", "-1e-323"] {
        assert!(read_media(&short(number)).is_none(), "{number}");
    }
}

/// The digits of two to the power of `minus_power`, negated, behind a point.
fn half_power(minus_power: usize) -> String {
    let mut digits: Vec<u8> = vec![1];
    for _ in 0..minus_power {
        let mut carry = 0;
        for d in digits.iter_mut().rev() {
            let n = *d * 5 + carry;
            *d = n % 10;
            carry = n / 10;
        }
        if carry > 0 {
            digits.insert(0, carry);
        }
    }
    let text: String = digits.iter().map(|d| (b'0' + d) as char).collect();
    format!("0.{}{text}", "0".repeat(minus_power - text.len()))
}

#[test]
fn the_largest_number_that_is_rounded_to_zero() {
    let half = half_power(1075);
    assert_eq!(half.parse::<f64>(), Ok(0.0));
    let read = |number: &str| {
        read_media(&live().replace("#EXTINF:4,\nfileSequence18.ts", &format!("#EXTINF:{number},\nx.ts")))
    };
    assert!(read(&format!("-{half}")).is_some());
    assert_ne!(format!("{half}1").parse::<f64>(), Ok(0.0));
    assert!(read(&format!("-{half}1")).is_none());
}

#[test]
fn lone_quotes_matter_where_a_text_is_read() {
    // The start tag of a media playlist has no quoted attribute.
    let start = live().replace("#EXT-X-TARGETDURATION", "#EXT-X-START:TIME-OFFSET=1,NAME=\"\n#EXT-X-TARGETDURATION");
    assert!(read_media(&start).is_some());
    let map = |attributes: &str| {
        live().replace("#EXTINF:4,\nfileSequence11.ts", &format!("#EXT-X-MAP:{attributes}\n#EXTINF:4,\nfileSequence11.ts"))
    };
    assert!(read_media(&map("URI=\"a\",NAME=\"")).is_some());
    assert!(read_media(&map("URI=\"")).is_none());
}

#[test]
fn segments_are_numbered_up_to_the_last_number() {
    let numbered = |n: u128| live().replace("#EXT-X-MEDIA-SEQUENCE:11", &format!("#EXT-X-MEDIA-SEQUENCE:{n}"));
    assert!(live().contains("#EXT-X-MEDIA-SEQUENCE:11"));
    let last = usize::MAX as u128;
    assert!(read_media(&numbered(last - 7)).is_some());
    assert!(read_media(&numbered(last - 6)).is_none());
}

#[test]
fn a_discontinuity_is_given_a_time() {
    let text = live().replace("fileSequence12.ts\n", "fileSequence12.ts\n#EXT-X-DISCONTINUITY\n");
    let mut slots = AvailableAdSlots::new();
    let out = changed(serve(&text, InsertionMode::Dynamic, &mut slots).0);
    let tags: Vec<&str> =
        out.lines().filter_map(|l| l.strip_prefix("#EXT-X-PROGRAM-DATE-TIME:")).collect();
    assert_eq!(tags.len(), 2, "{out}");
    assert_eq!(tags[0], "2024-10-30T12:52:27.853+01:00");
    assert_eq!(Timestamp::parse(tags[1]), Some(after(8)));
}

#[test]
fn the_date_of_a_discontinuity_is_told_in_a_zone() {
    let text = live().replace("fileSequence12.ts\n", "fileSequence12.ts\n#EXT-X-DISCONTINUITY\n");
    let config = config(InsertionMode::Dynamic);
    let mut slots = AvailableAdSlots::new();
    let printed: Vec<String> = [3600, 3600, 7200]
        .iter()
        .map(|zone| {
            let mut playlist = read_media(&text).unwrap();
            insert_slots(&mut playlist, &config, &mut slots, &Vec::new(), &vec![*zone; 8]);
            playlist.to_string()
        })
        .collect();
    assert!(printed[0].contains("#EXT-X-PROGRAM-DATE-TIME:2024-10-30T12:52:35.853+01:00\n"));
    assert_eq!(printed[0], printed[1]);
    assert!(printed[2].contains("#EXT-X-PROGRAM-DATE-TIME:2024-10-30T13:52:35.853+02:00\n"));
}

#[test]
fn repeated_keys_with_versions_are_served() {
    let key = |versions: &str| {
        format!(
            "#EXT-X-KEY:METHOD=SAMPLE-AES,URI=\"data:a\",KEYFORMAT=\"com.example\",\
             KEYFORMATVERSIONS=\"{versions}\"\n"
        )
    };
    let text = live().replace("#EXTINF:4,\nfileSequence12.ts", &format!("{}#EXTINF:4,\nfileSequence12.ts", key("1/2")));
    let text = text.replace("#EXTINF:4,\nfileSequence14.ts", &format!("{}#EXTINF:4,\nfileSequence14.ts", key("1/5")));
    let mut slots = AvailableAdSlots::new();
    slots.insert(slot(0, 19, 10));
    let out = changed(serve(&text, InsertionMode::Dynamic, &mut slots).0);
    assert!(out.contains("#EXT-X-KEY:"), "{out}");
    assert_eq!(out.matches("#EXTINF:").count(), 8, "{out}");
    assert_eq!(out.matches("#EXT-X-DATERANGE").count(), 2, "{out}");
}

#[test]
fn one_slot_for_each_segment_and_one_segment_for_each_slot() {
    let segments: Vec<ad_proxy::hls::Segment> = (0..3)
        .map(|_| ad_proxy::hls::Segment {
            duration: ad_proxy::hls::Span { secs: 4, nanos: 0 },
            has_discontinuity: false,
            has_map: false,
            program_date_time: None,
        })
        .collect();
    // Two segments share their time: the break begins at the first of them.
    let times = vec![after(0), after(0), after(4)];
    let slots = vec![slot(0, -1, 10), slot(1, 0, 10), slot(2, 3, 10), slot(3, 3, 10)];
    assert_eq!(match_slots(&slots, &times, &segments), vec![Some(0), Some(1), Some(2)]);
    let same = vec![slot(0, -1, 10), slot(0, -1, 10)];
    assert_eq!(match_slots(&same, &times, &segments), vec![Some(0), None, None]);
    // A segment that starts as long after the break as it lasts is too late.
    let late = vec![slot(0, -4, 10)];
    assert_eq!(match_slots(&late, &times, &segments), vec![None, None, None]);
}

#[test]
fn given_slots_are_placed() {
    let mut playlist = read_media(&live()).unwrap();
    let mut slots = AvailableAdSlots::new();
    insert_slots(
        &mut playlist,
        &config(InsertionMode::Dynamic),
        &mut slots,
        &vec![slot(5, 4, 10)],
        &vec![0; 8],
    );
    let ranges: Vec<bool> = playlist.segments.iter().map(|(_, s)| s.date_range.is_some()).collect();
    assert_eq!(ranges, vec![false, true, false, false, false, false, false, false]);
    assert!(slots.is_empty());
}

#[test]
fn playlists_that_cannot_be_served() {
    let mut slots = AvailableAdSlots::new();
    assert!(matches!(serve("x", InsertionMode::Dynamic, &mut slots).0, PlaylistReply::Unchanged));
    let mut last_seen: i64 = 0;
    let mut broken = config(InsertionMode::Static);
    broken.target_ad_number = u64::MAX;
    let reply = handle_media_playlist(&live(), &mut slots, &broken, start(), &mut last_seen);
    assert!(matches!(reply, PlaylistReply::Broken));
}

#[test]
fn a_playlist_of_either_kind() {
    let mut slots = AvailableAdSlots::new();
    let mut params = UserDefinedQueryParams::new();
    let mut last_seen: i64 = 0;
    let config = config(InsertionMode::Dynamic);
    let query = Some("x=1".to_string());
    let session = Some("40FE1829-438E-49B0-8B3A-A285DD4A8154".to_string());
    let mut serve_either = |text: &str, params: &mut UserDefinedQueryParams| {
        let reply = handle_playlist(
            text,
            "/a/m",
            &query,
            &session,
            params,
            &mut slots,
            &config,
            start(),
            &mut last_seen,
        );
        (reply, last_seen)
    };
    let (reply, seen) = serve_either(&live(), &mut params);
    changed(reply);
    assert_ne!(seen, 0);
    assert!(matches!(serve_either("text", &mut params).0, PlaylistReply::Unchanged));
    assert!(params.items().is_empty());
    let master = "#EXTM3U\n#EXT-X-STREAM-INF:BANDWIDTH=1\nv.m3u8\n";
    let (reply, still_seen) = serve_either(master, &mut params);
    let text = changed(reply);
    assert!(text.contains("\n/a/v.m3u8\n"), "{text}");
    assert_eq!(seen, still_seen);
    assert_eq!(params.items().len(), 1);
}

#[test]
fn the_present_of_the_stream() {
    let now = Timestamp { nanos: 12 };
    let mut last_seen: i64 = 0;
    assert_eq!(choose_stream_now(&None, &mut last_seen, now), now);
    assert_eq!(choose_stream_now(&Some(live()), &mut last_seen, now), after(32));
    assert_eq!(last_seen as i128 * 1_000_000, after(32).nanos);
    // What was seen is remembered.
    assert_eq!(choose_stream_now(&None, &mut last_seen, now), after(32));
    assert_eq!(choose_stream_now(&Some("x".to_string()), &mut last_seen, now), after(32));
    assert_eq!(fetch_stream_now(&None, &mut last_seen), after(32));
    // A playlist without times tells nothing.
    let untimed = Some("#EXTM3U\n#EXT-X-TARGETDURATION:4\n#EXTINF:4,\na.ts\n".to_string());
    assert_eq!(choose_stream_now(&untimed, &mut last_seen, now), after(32));
    let mut nothing: i64 = 0;
    assert_eq!(choose_stream_now(&untimed, &mut nothing, now), now);
    assert_eq!(nothing, 0);
    // One that ends at the epoch tells so.
    let epoch = live().replace("2024-10-30T12:52:27.853+01:00", "1969-12-31T23:59:28Z");
    assert_eq!(choose_stream_now(&Some(epoch), &mut nothing, now), Timestamp { nanos: 0 });
    let mut beyond: i64 = i64::MAX;
    assert_eq!(choose_stream_now(&None, &mut beyond, now), now);
}

#[test]
fn the_playlist_to_follow() {
    let mut config = config(InsertionMode::Dynamic);
    assert_eq!(
        find_master_url(&config).as_deref(),
        Some("http://origin.example/live/master.m3u8")
    );
    let master = "#EXTM3U\n#EXT-X-STREAM-INF:BANDWIDTH=1\nv/m.m3u8\n";
    let url = "http://origin.example/live/master.m3u8";
    assert_eq!(
        resolve_media_playlist_url(master, url).as_deref(),
        Some("http://origin.example/live/v/m.m3u8")
    );
    assert_eq!(resolve_media_playlist_url(&live(), url).as_deref(), Some(url));
    assert_eq!(resolve_media_playlist_url("x", url), None);
    let frames = "#EXTM3U\n#EXT-X-I-FRAME-STREAM-INF:BANDWIDTH=1,URI=\"i.m3u8\"\n";
    assert_eq!(resolve_media_playlist_url(frames, url), None);
    config.master_playlist_path = Some(String::new());
    assert_eq!(find_master_url(&config), None);
    config.master_playlist_path = None;
    assert_eq!(find_master_url(&config), None);
}

#[test]
fn test_assets() {
    assert_eq!(find_test_asset_url(""), None);
    assert_eq!(find_test_asset_url("http://a.example/x.mp4"), None);
    assert_eq!(find_test_asset_url("x.m3u8"), None);
    assert_eq!(
        find_test_asset_url("http://a.example/x.m3u8").as_deref(),
        Some("http://a.example/x.m3u8")
    );
    let url = "http://a.example/t/x.m3u8";
    let master = "#EXTM3U\n#EXT-X-I-FRAME-STREAM-INF:BANDWIDTH=1,URI=\"i.m3u8\"\n\
        #EXT-X-STREAM-INF:BANDWIDTH=1\nv.m3u8\n";
    assert!(matches!(
        find_asset_media(master, url),
        AssetMedia::At(u) if u == "http://a.example/t/v.m3u8"
    ));
    let frames = "#EXTM3U\n#EXT-X-I-FRAME-STREAM-INF:BANDWIDTH=1,URI=\"i.m3u8\"\n";
    assert!(matches!(find_asset_media(frames, url), AssetMedia::Missing));
    assert!(matches!(find_asset_media(&live(), url), AssetMedia::Here));
    let vod = "#EXTM3U\n#EXT-X-TARGETDURATION:4\n#EXT-X-PLAYLIST-TYPE:VOD\n\
        #EXT-X-MAP:URI=\"init.mp4\"\n#EXTINF:3.9,\na.m4s\n#EXTINF:2.5,\nb.m4s\n#EXT-X-ENDLIST\n";
    // The map of the first segment stands for the others too.
    let asset = parse_test_asset_url(url, vod).unwrap();
    assert_eq!(asset.url, url);
    assert_eq!(asset.duration, 5);
    assert!(is_fragmented_mp4_vod_media_playlist(&read_media(vod).unwrap()));
    let long = vod
        .replace("TARGETDURATION:4", "TARGETDURATION:18446744073709551615")
        .replace("3.9", "6000000000000000000")
        .replace("2.5", "6000000000000000000");
    assert_eq!(parse_test_asset_url(url, &long).unwrap().duration, 12_000_000_000_000_000_000);
    let longer = long.replace("600000", "999999");
    assert!(parse_test_asset_url(url, &longer).is_none());
    let map = "#EXT-X-MAP:URI=\"init.mp4\"\n";
    assert!(parse_test_asset_url(url, &vod.replace(map, "")).is_none());
    let late = vod.replace(map, "").replace("#EXTINF:2.5", &format!("{map}#EXTINF:2.5"));
    assert!(parse_test_asset_url(url, &late).is_none());
    assert!(!is_fragmented_mp4_vod_media_playlist(&read_media(&live()).unwrap()));
}

#[test]
fn the_origin_is_inspected() {
    let master = "#EXTM3U\n#EXT-X-STREAM-INF:BANDWIDTH=1\nv.m3u8\n";
    assert!(inspect_master_playlist("http://o.example/m.m3u8", master));
    assert!(!inspect_master_playlist("http://o.example/m.mpd", master));
    assert!(!inspect_master_playlist("http://o.example/m.m3u8", &live()));
}
