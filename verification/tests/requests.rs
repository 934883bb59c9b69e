use ad_proxy::config::{InsertionMode, ServerConfig, TestAsset};
use ad_proxy::requests::{
    build_ad_server_url, fill_ad_server_url, fill_piece, get_query_param, get_request_type,
    handle_interstitials, handle_media_stream, AdServerError, InterstitialStep, RequestType, Route,
};
use ad_proxy::slots::{AdSlot, AvailableAdSlots};
use ad_proxy::status::handle_status;
use ad_proxy::stores::{AvailableAds, KeptAd, UserDefinedQueryParams};
use ad_proxy::time::Timestamp;

const SESSION: &str = "40FE1829-438E-49B0-8B3A-A285DD4A8154";
const AD_SERVER: &str = "https://ads.example/api/v1/vast?dur=[template.duration]\
    &uid=[template.sessionId]&ps=[template.pod]&min=5&max=5";

fn config(master: Option<&str>) -> ServerConfig {
    ServerConfig::new(
        "http://origin.example/".to_string(),
        "http://localhost:3333/".to_string(),
        master.map(str::to_owned),
        InsertionMode::Dynamic,
        10,
        30,
        1000,
        None,
        None,
        None,
        None,
    )
}

fn slot(index: u64) -> AdSlot {
    AdSlot {
        id: 5,
        index,
        start_time: Timestamp { nanos: 0 },
        zone: 7200,
        duration: 10,
        pod_num: 2,
    }
}

#[test]
fn requests_have_types() {
    let one = config(Some("/live/master.m3u8"));
    let any = config(None);
    let cases = [
        ("/live/master.m3u8", RequestType::MasterPlayList, RequestType::Playlist),
        ("/x/live/master.m3u8", RequestType::MasterPlayList, RequestType::Playlist),
        ("/live/master.m3u8;s=1.ts", RequestType::MasterPlayList, RequestType::Playlist),
        ("/live/v0.m3u8", RequestType::MediaPlayList, RequestType::Playlist),
        ("/live/v0.m3u8%3Ba=b", RequestType::MediaPlayList, RequestType::Playlist),
        ("/live/v0.m3u8%3ba=b", RequestType::MediaPlayList, RequestType::Playlist),
        ("/live/a.ts", RequestType::Segment, RequestType::Segment),
        ("/live/a.m4s;x.m3u8", RequestType::Segment, RequestType::Segment),
        ("/live/a.vtt", RequestType::Other, RequestType::Other),
        ("/live/v0.m3u8%3B;", RequestType::Other, RequestType::Other),
    ];
    for (path, with_one, with_any) in cases {
        assert_eq!(get_request_type(path, &one), with_one, "{path}");
        assert_eq!(get_request_type(path, &any), with_any, "{path}");
    }
    assert_eq!(handle_media_stream("/live/master.m3u8", &one), Route::Master);
    assert_eq!(handle_media_stream("/live/v0.m3u8", &one), Route::Media);
    assert_eq!(handle_media_stream("/live/v0.m3u8", &any), Route::Either);
    assert_eq!(handle_media_stream("/live/a.ts", &one), Route::PassOn);
    assert_eq!(handle_media_stream("/live/a.vtt", &one), Route::NotFound);
    assert_eq!(handle_media_stream("/live/a.vtt", &any), Route::PassOn);
}

#[test]
fn the_first_value_of_a_parameter() {
    assert_eq!(get_query_param("a=1&b=x%20y&a=2", "a").as_deref(), Some("1"));
    assert_eq!(get_query_param("a=1&b=x%20y", "b").as_deref(), Some("x y"));
    assert_eq!(get_query_param("a=1", "c"), None);
    assert_eq!(get_query_param("", "c"), None);
}

#[test]
fn templates_are_filled_in() {
    let mut params = UserDefinedQueryParams::new();
    assert_eq!(
        fill_ad_server_url(AD_SERVER, &slot(0), "me", &params).as_deref(),
        Ok("https://ads.example/api/v1/vast?dur=10&uid=me&ps=2&min=5&max=5")
    );
    params.remember(&Some("x=1&y=2".to_string()), &Some(SESSION.to_string()));
    assert_eq!(
        fill_ad_server_url(AD_SERVER, &slot(0), SESSION, &params),
        Ok(format!(
            "https://ads.example/api/v1/vast?dur=10&uid={SESSION}&ps=2&min=5&max=5&x=1&y=2"
        ))
    );
    // What is no template is passed on as it is written.
    for query in ["k=a%26b", "a&b=&=c&&d=+", "x=%5Btemplate%5D", "[template.pod]=1"] {
        let url = format!("https://ads.example/v?{query}");
        assert_eq!(fill_ad_server_url(&url, &slot(0), "me", &params).as_ref(), Ok(&url));
    }
    assert_eq!(
        fill_ad_server_url(
            "https://u@ads.example:8443/v?a%20b=%5Btemplate.pod%5D&k=a%26b#f",
            &slot(0),
            "me",
            &params
        )
        .as_deref(),
        Ok("https://u@ads.example:8443/v?a%20b=2&k=a%26b#f")
    );
    assert_eq!(fill_piece("p=x", "[template.pod]", &slot(0), "me"), "p=2");
    assert_eq!(fill_piece("p=x", "x", &slot(0), "me"), "p=x");
    // Another spelling of the identifier names the same session.
    let lower = SESSION.to_lowercase();
    let url = fill_ad_server_url(AD_SERVER, &slot(0), &lower, &params).unwrap();
    assert!(url.ends_with("&x=1&y=2"), "{url}");
    assert_eq!(
        fill_ad_server_url("https://ads.example/v", &slot(0), "me", &params).as_deref(),
        Ok("https://ads.example/v?")
    );
    assert_eq!(
        fill_ad_server_url("no url", &slot(0), "me", &params),
        Err(AdServerError::BadUrl)
    );
}

#[test]
fn the_ad_server_is_asked_for_a_slot() {
    let params = UserDefinedQueryParams::new();
    let mut slots = AvailableAdSlots::new();
    assert_eq!(
        build_ad_server_url(AD_SERVER, "ad_slot3", "me", &slots, &params),
        Err(AdServerError::SlotMissing)
    );
    slots.insert(slot(2));
    slots.insert(slot(3));
    assert_eq!(
        build_ad_server_url(AD_SERVER, "ad_slot3", "me", &slots, &params).as_deref(),
        Ok("https://ads.example/api/v1/vast?dur=10&uid=me&ps=2&min=5&max=5")
    );
}

#[test]
fn sessions_are_remembered() {
    let mut params = UserDefinedQueryParams::new();
    params.remember(&None, &Some(SESSION.to_string()));
    params.remember(&Some("x=1".to_string()), &None);
    assert!(params.items().is_empty());
    params.remember(&Some("x=1".to_string()), &Some("no id".to_string()));
    assert_eq!(params.get(0).as_deref(), Some("x=1"));
    params.remember(&Some("x=2".to_string()), &Some("no id".to_string()));
    assert_eq!(params.items(), vec![(0, "x=2".to_string())]);
}

#[test]
fn interstitial_requests() {
    let params = UserDefinedQueryParams::new();
    let mut slots = AvailableAdSlots::new();
    slots.insert(slot(1));
    let mut config = config(None);
    match handle_interstitials("_HLS_interstitial_id=ad_slot1", AD_SERVER, &config, &slots, &params) {
        InterstitialStep::Ask { url, interstitial_id, user_id } => {
            assert_eq!(interstitial_id, "ad_slot1");
            assert_eq!(user_id, "default_user");
            assert!(url.contains("uid=default_user"), "{url}");
        }
        other => panic!("{other:?}"),
    }
    match handle_interstitials("", AD_SERVER, &config, &slots, &params) {
        InterstitialStep::Refuse(e) => assert_eq!(e, AdServerError::SlotMissing),
        other => panic!("{other:?}"),
    }
    let query = "_HLS_interstitial_id=ad_slot1&_HLS_primary_id=u&_ad_id=77";
    match handle_interstitials(query, AD_SERVER, &config, &slots, &params) {
        InterstitialStep::FollowUp(id) => assert_eq!(id, "77"),
        other => panic!("{other:?}"),
    }
    let query = "_HLS_follow_id=88&_ad_id=77";
    match handle_interstitials(query, AD_SERVER, &config, &slots, &params) {
        InterstitialStep::FollowUp(id) => assert_eq!(id, "88"),
        other => panic!("{other:?}"),
    }
    config.test_asset = Some(TestAsset::new("http://a.example/x.m3u8".to_string(), 12));
    match handle_interstitials("", AD_SERVER, &config, &slots, &params) {
        InterstitialStep::Reply(text) => assert!(text.contains("http://a.example/x.m3u8")),
        other => panic!("{other:?}"),
    }
}

#[test]
fn the_status() {
    let mut params = UserDefinedQueryParams::new();
    params.remember(&Some("x=1".to_string()), &Some(SESSION.to_string()));
    let mut slots = AvailableAdSlots::new();
    slots.insert(slot(1));
    let mut ads = AvailableAds::new();
    ads.insert(
        255,
        KeptAd {
            duration: 5,
            url: "http://h/one.mp4".to_string(),
            requested_at: Timestamp { nanos: 1_500_000_000 },
        },
    );
    let text = handle_status(&config(None), "http://ads.example/", &ads, &slots, &params);
    let json = json::parse(&text).unwrap();
    assert_eq!(text, json.pretty(2));
    assert_eq!(json["ad_server_url"], "http://ads.example/");
    assert_eq!(json["config"]["target_ad_number"], 1000);
    assert_eq!(
        json["user_defined_query_params"]["params"][0]["id"],
        SESSION.to_lowercase()
    );
    assert_eq!(json["user_defined_query_params"]["params"][0]["query"], "x=1");
    assert_eq!(json["available_ads"]["count"], 1);
    let ad = &json["available_ads"]["linears"][0];
    assert_eq!(ad["id"], "00000000-0000-0000-0000-0000000000ff");
    assert_eq!(ad["duration"], 5);
    assert_eq!(ad["url"], "http://h/one.mp4");
    let time = Timestamp::parse(ad["requested_at"].as_str().unwrap()).unwrap();
    assert_eq!(time.nanos, 1_500_000_000);
    assert_eq!(json["available_slots"]["count"], 1);
    let slot = &json["available_slots"]["slots"][0];
    assert_eq!(slot["index"], 1);
    assert_eq!(slot["pod_num"], 2);
    assert_eq!(slot["start_time"], "1970-01-01T02:00:00+02:00");
}
