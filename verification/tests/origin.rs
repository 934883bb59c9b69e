use ad_proxy::config::{CliArguments, InsertionMode};
use ad_proxy::origin::{
    base_url, build_forward_url, choose_ad_server, choose_interstitials_url, choose_origin,
    is_passed_on, MasterAddress, Origin,
};

fn arguments() -> CliArguments {
    CliArguments {
        listen_addr: "0.0.0.0".to_string(),
        listen_port: 3333,
        ad_server_endpoint: None,
        master_playlist_url: None,
        origin_host: None,
        ad_insertion_mode: InsertionMode::Static,
        interstitials_address: String::new(),
        default_ad_duration: String::new(),
        default_repeating_cycle: String::new(),
        default_ad_number: String::new(),
        test_asset_url: String::new(),
        skip_control_offset: String::new(),
        skip_control_duration: String::new(),
        skip_control_label_id: String::new(),
    }
}

#[test]
fn one_stream_is_named_by_its_master_playlist() {
    let mut args = arguments();
    assert_eq!(choose_origin(&args), None);
    args.master_playlist_url = Some("HTTP://Host.example:8080/a/../b/master.m3u8?x=1".to_string());
    assert_eq!(
        choose_origin(&args),
        Some(Origin {
            forward_url: "http://host.example:8080/".to_string(),
            master: Some(MasterAddress {
                url: "http://host.example:8080/b/master.m3u8?x=1".to_string(),
                path: "/b/master.m3u8".to_string(),
            }),
        })
    );
    args.master_playlist_url = Some("master.m3u8".to_string());
    assert_eq!(choose_origin(&args), None);
    args.master_playlist_url = Some("data:text".to_string());
    assert_eq!(choose_origin(&args), None);
}

#[test]
fn any_stream_of_a_host() {
    let mut args = arguments();
    args.master_playlist_url = Some("http://other.example/master.m3u8".to_string());
    args.origin_host = Some("https://host.example".to_string());
    assert_eq!(
        choose_origin(&args),
        Some(Origin { forward_url: "https://host.example/".to_string(), master: None })
    );
    args.origin_host = Some("host.example".to_string());
    assert_eq!(choose_origin(&args), None);
}

#[test]
fn addresses_are_in_normal_form() {
    let mut args = arguments();
    assert_eq!(choose_ad_server(&args).as_deref(), Some("http://localhost/no-vast"));
    assert_eq!(choose_interstitials_url(&args).as_deref(), Some("http://localhost:3333/"));
    args.ad_server_endpoint = Some("https://ads.example?x=[y]".to_string());
    args.interstitials_address = "https://Proxy.example".to_string();
    assert_eq!(choose_ad_server(&args).as_deref(), Some("https://ads.example/?x=[y]"));
    assert_eq!(choose_interstitials_url(&args).as_deref(), Some("https://proxy.example/"));
    args.ad_server_endpoint = Some("ads".to_string());
    args.interstitials_address = "proxy".to_string();
    assert_eq!(choose_ad_server(&args), None);
    assert_eq!(choose_interstitials_url(&args), None);
}

#[test]
fn requests_are_forwarded() {
    let query = Some("x=1&y=a b".to_string());
    assert_eq!(
        build_forward_url("http://host.example/", "/live/v0.m3u8", &query).as_deref(),
        Some("http://host.example/live/v0.m3u8?x=1&y=a%20b")
    );
    assert_eq!(
        build_forward_url("http://host.example/?old", "//a/b;c", &None).as_deref(),
        Some("http://host.example//a/b;c")
    );
    assert_eq!(
        build_forward_url("http://host.example/?old#part", "/a", &Some("x=1".to_string())).as_deref(),
        Some("http://host.example/a?x=1#part")
    );
    assert_eq!(build_forward_url("host", "/", &None), None);
    assert_eq!(base_url("https://h.example/a/b?c#d").as_deref(), Some("https://h.example/"));
    assert!(is_passed_on("content-type"));
    assert!(!is_passed_on("connection"));
}
