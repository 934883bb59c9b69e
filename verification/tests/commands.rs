use ad_proxy::commands::{examine_command, handle_commands, insert_break, CommandStep, InsertionCommand};
use ad_proxy::config::{InsertionMode, ServerConfig};
use ad_proxy::slots::AvailableAdSlots;
use ad_proxy::time::Timestamp;

const SECOND: i128 = 1_000_000_000;

fn config(mode: InsertionMode) -> ServerConfig {
    ServerConfig::new(
        "http://origin.example/".to_string(),
        "http://localhost:3333/".to_string(),
        None,
        mode,
        10,
        30,
        1000,
        None,
        None,
        None,
        None,
    )
}

#[test]
fn a_command_needs_three_numbers() {
    assert_eq!(
        InsertionCommand::from_query("in=5&dur=10&pod=2"),
        Ok(InsertionCommand { in_sec: 5, duration: 10, pod_num: 2 })
    );
    assert_eq!(
        InsertionCommand::from_query("pod=%32&x=1&dur=10&in=+5"),
        Err("Missing required query parameters".to_string())
    );
    assert_eq!(
        InsertionCommand::from_query("pod=%32&x=1&dur=10&in=%2B5"),
        Ok(InsertionCommand { in_sec: 5, duration: 10, pod_num: 2 })
    );
    assert_eq!(
        InsertionCommand::from_query("in=5&duration=10&pod_num=2"),
        Ok(InsertionCommand { in_sec: 5, duration: 10, pod_num: 2 })
    );
    for query in ["", "in=5&dur=10", "in=5&pod=2", "dur=10&pod=2", "in=a&dur=10&pod=2"] {
        assert_eq!(
            InsertionCommand::from_query(query),
            Err("Missing required query parameters".to_string())
        );
    }
}

#[test]
fn the_last_value_of_a_key_counts() {
    assert_eq!(
        InsertionCommand::from_query("in=5&dur=10&pod=2&in=7").unwrap().in_sec,
        7
    );
    assert!(InsertionCommand::from_query("in=5&dur=10&pod=2&in=x").is_err());
    assert_eq!(
        InsertionCommand::from_query("in=5&dur=10&pod_num=2&duration=12&pod=3"),
        Ok(InsertionCommand { in_sec: 5, duration: 12, pod_num: 3 })
    );
}

#[test]
fn commands_are_examined() {
    match examine_command(&config(InsertionMode::Static), "in=5&dur=10&pod=2") {
        CommandStep::Unsupported(text) => {
            assert_eq!(text, "Ad insertion is not supported in static mode.")
        }
        other => panic!("{other:?}"),
    }
    match examine_command(&config(InsertionMode::Dynamic), "in=5") {
        CommandStep::Invalid(text) => assert_eq!(
            text,
            "{\n  \"status\": \"error\",\n  \"message\": \"Missing required query parameters\"\n}"
        ),
        other => panic!("{other:?}"),
    }
    match examine_command(&config(InsertionMode::Dynamic), "in=5&dur=10&pod=2") {
        CommandStep::Insert(command) => assert_eq!(command.duration, 10),
        other => panic!("{other:?}"),
    }
}

#[test]
fn a_break_is_inserted_after_the_live_edge() {
    let command = InsertionCommand { in_sec: 5, duration: 10, pod_num: 2 };
    let now = Timestamp { nanos: 100 * SECOND };
    let mut slots = AvailableAdSlots::new();
    let mut counter: u64 = 41;
    let text = insert_break(&command, now, 77, 3600, &mut counter, &mut slots);
    assert_eq!(counter, 42);
    assert_eq!(
        text,
        "{\n  \"status\": \"success\",\n  \"command\": {\n    \"index\": 41,\n    \
         \"in_sec\": 5,\n    \"duration\": 10,\n    \"pod_num\": 2\n  }\n}"
    );
    let all = slots.items();
    assert_eq!(all.len(), 1);
    assert_eq!(all[0].id, 77);
    assert_eq!(all[0].zone, 3600);
    assert_eq!(all[0].index, 41);
    assert_eq!(all[0].start_time.nanos, 105 * SECOND);
    assert_eq!(all[0].expires_at().nanos, 115 * SECOND);
    assert_eq!(all[0].pod_num, 2);
    handle_commands(&command, now, &mut counter, &mut slots);
    assert_eq!(slots.items().len(), 2);
    let mut last = u64::MAX;
    handle_commands(&command, now, &mut last, &mut slots);
    assert_eq!(last, 0);
}
