use ad_proxy::config::{
    choose_interstitials_address, configure, parse_default_values, parse_into_u64,
    parse_skip_control, CliArguments, InsertionMode, ServerConfig, TestAsset,
};

fn arguments() -> CliArguments {
    CliArguments {
        listen_addr: "127.0.0.1".to_string(),
        listen_port: 3333,
        ad_server_endpoint: None,
        master_playlist_url: None,
        origin_host: Some("http://origin.example".to_string()),
        ad_insertion_mode: InsertionMode::Dynamic,
        interstitials_address: String::new(),
        default_ad_duration: String::new(),
        default_repeating_cycle: String::new(),
        default_ad_number: String::new(),
        test_asset_url: String::new(),
        skip_control_offset: String::new(),
        skip_control_duration: String::new(),
        skip_control_label_id: String::new(),
    }
}

#[test]
fn modes_have_names() {
    assert_eq!(InsertionMode::Static.to_str(), "static");
    assert_eq!(InsertionMode::Dynamic.to_str(), "dynamic");
}

#[test]
fn numbers_or_defaults() {
    assert_eq!(parse_into_u64("17", 5), 17);
    assert_eq!(parse_into_u64("+17", 5), 17);
    assert_eq!(parse_into_u64("", 5), 5);
    assert_eq!(parse_into_u64("-1", 5), 5);
    assert_eq!(parse_into_u64("1.5", 5), 5);
    assert_eq!(parse_into_u64("18446744073709551615", 5), u64::MAX);
    assert_eq!(parse_into_u64("18446744073709551616", 5), 5);
    assert_eq!(parse_into_u64("00000000000000000000000042", 5), 42);
    assert_eq!(parse_into_u64("+", 5), 5);
}

#[test]
fn default_values() {
    let mut args = arguments();
    assert_eq!(parse_default_values(&args), (10, 30, 1000));
    args.default_ad_duration = "15".to_string();
    args.default_repeating_cycle = "60".to_string();
    args.default_ad_number = "7".to_string();
    assert_eq!(parse_default_values(&args), (15, 60, 7));
}

#[test]
fn skip_control_arguments() {
    let mut args = arguments();
    assert_eq!(parse_skip_control(&args), (None, None, None));
    args.skip_control_offset = "0".to_string();
    args.skip_control_duration = "0".to_string();
    args.skip_control_label_id = "skip 1".to_string();
    assert_eq!(parse_skip_control(&args), (Some(0), None, None));
    args.skip_control_duration = "1".to_string();
    args.skip_control_label_id = "skip_ad".to_string();
    assert_eq!(
        parse_skip_control(&args),
        (Some(0), Some(1), Some("skip_ad".to_string()))
    );
}

#[test]
fn the_address_of_interstitials() {
    let mut args = arguments();
    assert_eq!(choose_interstitials_address(&args), "http://localhost:3333");
    args.interstitials_address = "https://ads.example".to_string();
    assert_eq!(choose_interstitials_address(&args), "https://ads.example");
}

#[test]
fn a_test_asset_sets_the_break_length() {
    let args = arguments();
    let asset = TestAsset::new("http://a.example/x.m3u8".to_string(), 12);
    let with = configure(
        &args,
        "http://origin.example/".to_string(),
        "http://localhost:3333/".to_string(),
        None,
        Some(asset),
    );
    assert_eq!(with.target_ad_duration, 12);
    let without = configure(
        &args,
        "http://origin.example/".to_string(),
        "http://localhost:3333/".to_string(),
        Some("/a/master.m3u8".to_string()),
        None,
    );
    assert_eq!(without.target_ad_duration, 10);
    assert_eq!(without.insertion_mode, InsertionMode::Dynamic);
    assert!(without.is_schedulable());
}

#[test]
fn a_schedule_can_be_too_long() {
    let mut config = sample();
    config.insertion_mode = InsertionMode::Static;
    assert!(config.is_schedulable());
    config.target_ad_number = u64::MAX;
    assert!(!config.is_schedulable());
    config.insertion_mode = InsertionMode::Dynamic;
    assert!(config.is_schedulable());
}

fn sample() -> ServerConfig {
    ServerConfig::new(
        "http://origin.example/".to_string(),
        "http://localhost:3333/".to_string(),
        None,
        InsertionMode::Dynamic,
        10,
        30,
        1000,
        None,
        Some(5),
        None,
        Some("skip_ad".to_string()),
    )
}

#[test]
fn a_configuration_as_json() {
    let mut config = sample();
    assert_eq!(
        config.to_json().dump(),
        "{\"forward_url\":\"http://origin.example/\",\
         \"interstitials_address\":\"http://localhost:3333/\",\
         \"master_playlist_path\":\"\",\"insertion_mode\":\"dynamic\",\
         \"target_ad_duration\":10,\"target_repeating_cycle\":30,\"target_ad_number\":1000,\
         \"test_asset\":{},\"skip_control_offset\":5,\"skip_control_duration\":null,\
         \"skip_control_label_id\":\"skip_ad\"}"
    );
    config.master_playlist_path = Some("/m.m3u8".to_string());
    config.test_asset = Some(TestAsset::new("http://a.example/x.m3u8".to_string(), 12));
    let json = config.to_json();
    assert_eq!(json["master_playlist_path"], "/m.m3u8");
    assert_eq!(
        json["test_asset"].dump(),
        "{\"url\":\"http://a.example/x.m3u8\",\"duration\":12}"
    );
}
