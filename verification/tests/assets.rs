use ad_proxy::ads::{make_ad, make_new_ad_from_creative, make_test_ad, make_test_ad_from_creative};
use ad_proxy::assets::{
    answer_interstitial, handle_raw_asset_request, serve_test_asset, to_ad_asset_json,
    to_asset_list_json_string, to_tracking_json, wrap_creatives, wrap_into_assets,
};
use ad_proxy::ads::Tracking;
use ad_proxy::config::TestAsset;
use ad_proxy::stores::AvailableAds;
use ad_proxy::time::Timestamp;
use ad_proxy::vast::{read_vast, Creative, Linear};

const URL: &str = "http://localhost:3333/interstitials.m3u8?a=b";

fn creative(file: &str, duration: u64) -> Creative {
    Creative {
        universal_ad_ids: vec![("reg".to_string(), "val".to_string())],
        linear: Some(Linear {
            duration: Some(duration),
            media_files: Some(vec![file.to_string(), "http://h/second.mp4".to_string()]),
            tracking_events: Some(vec![
                ("start".to_string(), None, "http://t.example/s?http://x".to_string()),
                ("progress".to_string(), Some("00:00:05".to_string()), "ftp://t.example".to_string()),
            ]),
        }),
    }
}

fn vast() -> Vec<Option<Vec<Creative>>> {
    vec![
        Some(vec![
            creative("http://h/one.mp4", 5),
            creative("http://h/two.m3u8", 7),
            Creative { universal_ad_ids: Vec::new(), linear: None },
        ]),
        None,
        Some(vec![creative("http://h/three.mp4", 11)]),
    ]
}

const XML: &str = "<VAST version=\"4.0\">\
    <Ad id=\"1\"><InLine><AdSystem>s</AdSystem><AdTitle>t</AdTitle>\
    <Impression><![CDATA[http://i.example]]></Impression>\
    <Creatives><Creative id=\"c\"><UniversalAdId idRegistry=\"reg\">val</UniversalAdId>\
    <Linear><TrackingEvents>\
    <Tracking event=\"start\"><![CDATA[http://t.example/s]]></Tracking>\
    <Tracking event=\"progress\" offset=\"00:00:05\"><![CDATA[http://t.example/p]]></Tracking>\
    </TrackingEvents><Duration>00:00:15</Duration>\
    <MediaFiles><MediaFile delivery=\"progressive\" type=\"video/mp4\" width=\"1\" height=\"1\">\
    <![CDATA[http://h/ad.mp4]]></MediaFile></MediaFiles></Linear></Creative></Creatives>\
    </InLine></Ad></VAST>";

#[test]
fn documents_are_read() {
    let ads = read_vast(XML);
    assert_eq!(ads.len(), 1);
    let creatives = ads[0].as_ref().unwrap();
    assert_eq!(creatives.len(), 1);
    assert_eq!(
        creatives[0].universal_ad_ids,
        vec![("reg".to_string(), "val".to_string())]
    );
    let linear = creatives[0].linear.as_ref().unwrap();
    assert_eq!(linear.duration, Some(15));
    assert_eq!(linear.media_files, Some(vec!["http://h/ad.mp4".to_string()]));
    assert_eq!(
        linear.tracking_events,
        Some(vec![
            ("start".to_string(), None, "http://t.example/s".to_string()),
            (
                "progress".to_string(),
                Some("00:00:05".to_string()),
                "http://t.example/p".to_string()
            ),
        ])
    );
}

#[test]
fn documents_that_cannot_be_read_are_empty() {
    assert!(read_vast("").is_empty());
    assert!(read_vast("no xml").is_empty());
    for time in ["00:00:15.5000", "9999999999999999999", "00:00:15.&#49;"] {
        let xml = XML.replace("00:00:15", time);
        assert!(read_vast(&xml).is_empty(), "{time}");
    }
    assert!(read_vast(&XML.replace("00:00:05", "00:00:05.12345")).is_empty());
    assert_eq!(read_vast(&XML.replace("00:00:15", "01:00:15.250")).len(), 1);
    assert_eq!(read_vast(&XML.replace("00:00:05", "25%")).len(), 1);
    for (content, seconds) in [
        ("00:00:15.0000", 15),
        ("00:00:15.4294", 19),
        (" <![CDATA[ 00:01:15.0000 ]]> ", 75),
        ("000000000000000001:00:00", 3600),
        ("1", 3600),
        ("a:b", 15),
        ("1:2:3:4", 0),
    ] {
        let read = read_vast(&XML.replace("<Duration>00:00:15", &format!("<Duration>{content}")));
        if content == "a:b" {
            assert!(read.is_empty());
        } else {
            let linear = read[0].as_ref().unwrap()[0].linear.as_ref().unwrap();
            assert_eq!(linear.duration, Some(seconds), "{content}");
        }
    }
    for content in ["00:00:15.4295", "9999999999999:00:00", "18446744073709551615:00:00"] {
        let read = read_vast(&XML.replace("<Duration>00:00:15", &format!("<Duration>{content}")));
        assert!(read.is_empty(), "{content}");
    }
    // Only what is read as a length of time must be short.
    let long = "99999999999999999999:00:00.5000";
    for other in [
        format!("<DurationOfAll>{long}</DurationOfAll>"),
        format!("<Extra duration=\"{long}\" offset='{long}'/>"),
    ] {
        let xml = XML.replace("<Duration>", &format!("{other}<Duration>"));
        assert_eq!(read_vast(&xml).len(), 1, "{other}");
    }
    let xml = XML.replace("<Linear>", "<Linear skipoffset=\"00:00:05.5000\">");
    assert_ne!(xml, XML);
    assert!(read_vast(&xml).is_empty());
    let xml = XML.replace("<Linear>", "<Linear other_skipoffset=\"00:00:05.5000\">");
    assert_eq!(read_vast(&xml).len(), 1);
    let empty = read_vast(&XML.replace("<Duration>00:00:15</Duration>", "<Duration/>"));
    assert_eq!(empty[0].as_ref().unwrap()[0].linear.as_ref().unwrap().duration, Some(0));
}

#[test]
fn creatives_become_ads() {
    let at = Timestamp { nanos: 3 };
    let ad = make_ad(&creative("http://h/one.mp4", 5), 9, at);
    assert_eq!(ad.ad_id, 9);
    assert_eq!(ad.requested_at, at);
    assert_eq!(ad.duration, 5);
    assert_eq!(ad.url, "http://h/one.mp4");
    assert_eq!(ad.universal_ad_ids[0].scheme, "reg");
    assert_eq!(ad.universal_ad_ids[0].value, "val");
    assert_eq!(ad.tracking[0].urls, vec!["http://t.example/s?http://x".to_string()]);
    let asset = TestAsset::new("http://a.example/x.m3u8".to_string(), 12);
    let test = make_test_ad(&creative("http://h/one.mp4", 5), &asset, 9, at);
    assert_eq!(test.url, "http://a.example/x.m3u8");
    assert_eq!(test.duration, 12);
    assert_eq!(test.tracking[0].urls, vec!["https://t.example/s?https://x".to_string()]);
    assert_eq!(test.tracking[1].urls, vec!["ftp://t.example".to_string()]);
    let a = make_new_ad_from_creative(&creative("http://h/one.mp4", 5));
    let b = make_test_ad_from_creative(&creative("http://h/one.mp4", 5), &asset);
    assert_ne!(a.ad_id, b.ad_id);
    assert_eq!(b.duration, 12);
}

#[test]
fn events_as_json() {
    let mut tracking = Tracking {
        event: "start".to_string(),
        urls: vec!["a".to_string(), "b".to_string()],
        offset: None,
    };
    assert_eq!(
        to_tracking_json(&tracking).dump(),
        "{\"type\":\"start\",\"urls\":[\"a\",\"b\"]}"
    );
    tracking.offset = Some("10%".to_string());
    assert_eq!(
        to_tracking_json(&tracking).dump(),
        "{\"type\":\"start\",\"offset\":\"10%\",\"urls\":[\"a\",\"b\"]}"
    );
}

#[test]
fn ads_as_json() {
    let ad = make_ad(&creative("http://h/one.mp4", 5), 9, Timestamp { nanos: 3 });
    let json = to_ad_asset_json("http://u", &ad, 4);
    assert_eq!(
        json.dump(),
        "{\"URI\":\"http://u\",\"DURATION\":5,\"X-AD-CREATIVE-SIGNALING\":{\"version\":2,\
         \"type\":\"slot\",\"payload\":{\"type\":\"linear\",\"start\":4,\"duration\":5,\
         \"identifiers\":[{\"scheme\":\"reg\",\"value\":\"val\"}],\"tracking\":[\
         {\"type\":\"start\",\"urls\":[\"http://t.example/s?http://x\"]},\
         {\"type\":\"progress\",\"offset\":\"00:00:05\",\"urls\":[\"ftp://t.example\"]}]}}}"
    );
    assert_eq!(
        to_asset_list_json_string(Vec::new(), 8),
        "{\n  \"ASSETS\": [],\n  \"X-AD-CREATIVE-SIGNALING\": {\n    \"version\": 2,\n    \
         \"type\": \"pod\",\n    \"payload\": {\n      \"duration\": 8\n    }\n  }\n}"
    );
}

#[test]
fn raw_ads_come_first_and_are_kept() {
    let ads = vast();
    let all: Vec<&Creative> = ads.iter().flatten().flatten().collect();
    let mut kept = AvailableAds::new();
    let at = Timestamp { nanos: 3 };
    let text = wrap_creatives(
        &vec![all[0], all[3]],
        &vec![all[1]],
        URL,
        "ad slot",
        "user&1",
        &None,
        &mut kept,
        &vec![(1, at), (2, at), (3, at)],
    );
    let json = json::parse(&text).unwrap();
    let assets = &json["ASSETS"];
    assert_eq!(assets.len(), 3);
    assert_eq!(
        assets[0]["URI"],
        "http://localhost:3333/interstitials.m3u8?_HLS_interstitial_id=ad+slot\
         &_HLS_primary_id=user%261&_HLS_start_offset=0\
         &_HLS_follow_id=00000000-0000-0000-0000-000000000001"
    );
    assert_eq!(
        assets[1]["URI"],
        "http://localhost:3333/interstitials.m3u8?_HLS_interstitial_id=ad+slot\
         &_HLS_primary_id=user%261&_HLS_start_offset=5\
         &_HLS_follow_id=00000000-0000-0000-0000-000000000002"
    );
    assert_eq!(assets[2]["URI"], "http://h/two.m3u8");
    let starts: Vec<u64> = (0..3)
        .map(|i| {
            assets[i]["X-AD-CREATIVE-SIGNALING"]["payload"]["start"].as_u64().unwrap()
        })
        .collect();
    assert_eq!(starts, vec![5, 16, 16]);
    assert_eq!(json["X-AD-CREATIVE-SIGNALING"]["payload"]["duration"], 23);
    assert_eq!(kept.items().len(), 2);
    assert_eq!(kept.get(2).unwrap().url, "http://h/three.mp4");
    assert!(kept.get(3).is_none());
}

#[test]
fn a_kept_ad_is_asked_for_again() {
    let mut kept = AvailableAds::new();
    let text = wrap_into_assets(&vast(), URL, "ad_slot1", "u", &None, &mut kept).unwrap();
    let json = json::parse(&text).unwrap();
    let uri = json["ASSETS"][0]["URI"].as_str().unwrap().to_string();
    let query = uri.split('?').nth(1).unwrap();
    let id = ad_proxy::requests::get_query_param(query, "_HLS_follow_id").unwrap();
    assert_eq!(
        handle_raw_asset_request(&id, &kept).unwrap(),
        "#EXTM3U\n#EXT-X-TARGETDURATION:5\n#EXTINF:5,\nhttp://h/one.mp4\n#EXT-X-ENDLIST\n"
    );
    assert!(handle_raw_asset_request("00000000-0000-0000-0000-000000000007", &kept).is_none());
    assert!(handle_raw_asset_request("no id", &kept).is_none());
}

#[test]
fn a_long_ad_is_wrapped() {
    let mut kept = AvailableAds::new();
    kept.insert(
        6,
        ad_proxy::stores::KeptAd {
            duration: 9_007_199_254_740_992,
            url: "x y".to_string(),
            requested_at: Timestamp { nanos: 0 },
        },
    );
    assert_eq!(
        handle_raw_asset_request("00000000-0000-0000-0000-000000000006", &kept).unwrap(),
        "#EXTM3U\n#EXT-X-TARGETDURATION:9007199254740992\n#EXTINF:9007199254740992,\nx y\n\
         #EXT-X-ENDLIST\n"
    );
}

#[test]
fn a_test_asset_replaces_raw_ads() {
    let mut kept = AvailableAds::new();
    let asset = Some(TestAsset::new("http://a.example/x.m3u8".to_string(), 12));
    let text = wrap_into_assets(&vast(), URL, "ad_slot1", "u", &asset, &mut kept).unwrap();
    let json = json::parse(&text).unwrap();
    assert_eq!(json["ASSETS"][0]["URI"], "http://a.example/x.m3u8");
    assert_eq!(json["ASSETS"][1]["DURATION"], 12);
    assert_eq!(json["ASSETS"][2]["URI"], "http://h/two.m3u8");
    assert_eq!(json["X-AD-CREATIVE-SIGNALING"]["payload"]["duration"], 31);
    assert!(kept.items().is_empty());
}

#[test]
fn lists_that_cannot_be_made() {
    let mut kept = AvailableAds::new();
    assert!(wrap_into_assets(&vast(), "no url", "a", "u", &None, &mut kept).is_none());
    let asset = Some(TestAsset::new("http://a.example/x.m3u8".to_string(), u64::MAX));
    assert!(wrap_into_assets(&vast(), URL, "a", "u", &asset, &mut kept).is_none());
    // With or without a fragment, there is room for a long identifier.
    let long = "x".repeat(0x0080_0001);
    let url = format!("{URL}#f");
    assert!(wrap_into_assets(&vast(), &url, &long, "u", &None, &mut kept).is_some());
    assert!(wrap_into_assets(&vast(), &url, "a", "u", &None, &mut kept).is_some());
    assert!(wrap_into_assets(&vast(), URL, &long, "u", &None, &mut kept).is_some());
    // No ad is kept under an identifier that cannot be read.
    assert!(handle_raw_asset_request("none", &kept).is_none());
    assert!(handle_raw_asset_request("00000000-0000-0000-0000-000000000000", &kept).is_none());
}

#[test]
fn an_answer_of_the_ad_server() {
    let mut kept = AvailableAds::new();
    let text = answer_interstitial(XML, URL, "ad_slot1", "u", &None, &mut kept).unwrap();
    assert_eq!(json::parse(&text).unwrap()["ASSETS"].len(), 1);
    let none = answer_interstitial("garbage", URL, "ad_slot1", "u", &None, &mut kept).unwrap();
    assert_eq!(json::parse(&none).unwrap()["ASSETS"].len(), 0);
    assert_eq!(kept.items().len(), 1);
}

#[test]
fn the_test_asset_alone() {
    let asset = TestAsset::new("http://a.example/x.m3u8".to_string(), 12);
    let json = json::parse(&serve_test_asset(&asset)).unwrap();
    assert_eq!(
        json.dump(),
        "{\"ASSETS\":[{\"URI\":\"http://a.example/x.m3u8\",\"DURATION\":12,\
         \"X-AD-CREATIVE-SIGNALING\":{\"version\":2,\"type\":\"slot\",\"payload\":{\
         \"type\":\"linear\",\"start\":0,\"duration\":12,\"identifiers\":[],\"tracking\":[]}}}],\
         \"X-AD-CREATIVE-SIGNALING\":{\"version\":2,\"type\":\"pod\",\"payload\":{\
         \"duration\":12}}}"
    );
}
