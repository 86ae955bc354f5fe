//! Settings, the registry, and the documents they are read from.

use rlsd::config::client::{server_address, Client};
use rlsd::config::server::{contains, ServerConfig};
use rlsd::constants::{get_client_config_path, get_db_path, get_server_config_path};
use rlsd::json_handler::{
    get_default_client_json_data, get_default_server_json_data, get_json_length, iterate_json,
    read_client_config_json,
    read_count, read_integer, read_json, read_json_as_value, read_json_from_buf,
    read_millionths, read_text_or_empty, read_texts, read_truth, reset_client_config,
    reset_server_config, FieldError, ToClientConfig, ToDevice, ToServerConfig,
};
use rlsd::stats_handling::device_info::Device;
use rlsd::stats_handling::fixed_point::millionths;
use rlsd::socket_handling::update::{host_artifact, update_artifact, HostArch, HostPlatform};
use rlsd::stats_handling::stats_getter::get_unix_timestamp;
use rlsd::tui::{refresh_due, App, Key, KeyOutcome, TimeRange};

fn text(value: &str) -> String {
    String::from(value)
}

#[test]
fn client_summary() {
    let client = Client::new(text("id-1"), text("Box"), text("10.0.0.1:51347"));
    assert_eq!(
        client.to_string(),
        "Device ID: id-1\nDevice Name: Box\nServer Address: 10.0.0.1:51347"
    );
}

#[test]
fn server_address_gets_the_default_port() {
    assert_eq!(server_address("10.0.0.1"), "10.0.0.1:51347");
    assert_eq!(server_address("10.0.0.1:9000"), "10.0.0.1:9000");
    assert_eq!(server_address(""), ":51347");
}

#[test]
fn paths_of_the_files() {
    assert_eq!(get_client_config_path("/etc/rlsd"), "/etc/rlsd/client-config.json");
    assert_eq!(get_server_config_path("/etc/rlsd"), "/etc/rlsd/server-config.json");
    assert_eq!(get_db_path("/var/lib/rlsd"), "/var/lib/rlsd/database.sqlite");
}

#[test]
fn registry_membership() {
    let mut config = ServerConfig::new(vec![text("a")], vec![], true);
    assert!(config.is_registered(&text("a")));
    assert!(!config.is_registered(&text("b")));
    config.register(text("b"));
    assert!(config.is_registered(&text("b")));
    assert_eq!(config.registered_device_ids, vec![text("a"), text("b")]);
    config.unregister(&text("a"));
    assert_eq!(config.registered_device_ids, vec![text("b")]);
    config.unregister(&text("zzz"));
    assert_eq!(config.registered_device_ids, vec![text("b")]);
    assert!(config.first_run);
    assert!(contains(&config.registered_device_ids, &text("b")));
}

#[test]
fn unregister_takes_every_copy() {
    let mut config = ServerConfig::new(vec![text("a"), text("b"), text("a")], vec![], false);
    config.unregister(&text("a"));
    assert_eq!(config.registered_device_ids, vec![text("b")]);
}

#[test]
fn admins_are_stored_as_digests() {
    let mut config = ServerConfig::new(vec![], vec![], false);
    config.add_admin("abc");
    assert_eq!(
        config.admin_ids,
        vec![text(
            "ba7816bf8f01cfea414140de5dae2223b00361a396177a9cb410ff61f20015ad"
        )]
    );
    assert!(config.is_admin(&text(
        "ba7816bf8f01cfea414140de5dae2223b00361a396177a9cb410ff61f20015ad"
    )));
    assert!(!config.is_admin(&text("abc")));
    assert!(config.registered_device_ids.is_empty());
}

#[test]
fn reconciliation_adds_the_devices_of_the_store() {
    let mut config = ServerConfig::new(vec![text("a")], vec![text("d")], true);
    config.reconcile(vec![text("b"), text("c")]);
    assert_eq!(
        config.registered_device_ids,
        vec![text("a"), text("b"), text("c")]
    );
    assert_eq!(config.admin_ids, vec![text("d")]);
    assert!(!config.first_run);
}

#[test]
fn texts_of_a_document() {
    let document = br#"{"deviceID":"abc","count":3,"on":true,"list":["x",1,"y"]}"#;
    let json = read_json_as_value(document).unwrap();
    assert_eq!(read_json_from_buf("deviceID", &json), Ok(text("abc")));
    assert_eq!(read_json_from_buf("count", &json), Err(FieldError::NotText));
    assert_eq!(read_json_from_buf("none", &json), Err(FieldError::Missing));
    assert_eq!(read_text_or_empty("deviceID", &json), "abc");
    assert_eq!(read_text_or_empty("count", &json), "");
    assert_eq!(read_integer("count", &json), 3);
    assert_eq!(read_integer("deviceID", &json), 0);
    assert_eq!(read_integer("none", &json), 0);
    assert!(read_truth("on", &json));
    assert!(!read_truth("count", &json));
    assert!(!read_truth("none", &json));
    assert_eq!(
        read_texts("list", &json),
        vec![text("x"), text(""), text("y")]
    );
    assert_eq!(read_texts("count", &json), Vec::<String>::new());
    assert_eq!(read_texts("none", &json), Vec::<String>::new());
}

#[test]
fn texts_of_what_is_no_object() {
    let json = read_json_as_value(b"[1,2]").unwrap();
    assert_eq!(read_json_from_buf("0", &json), Err(FieldError::Missing));
    assert!(read_json_as_value(b"{").is_none());
    assert!(read_json_as_value(b"").is_none());
    assert!(read_json_as_value(b"{} {}").is_none());
}

#[test]
fn texts_of_the_text_of_a_document() {
    let document = br#"{"serverAddr":"10.0.0.1:51347","n":1}"#;
    assert_eq!(read_json("serverAddr", document), Ok(text("10.0.0.1:51347")));
    assert_eq!(read_json("n", document), Err(FieldError::NotText));
    assert_eq!(read_json("deviceID", document), Err(FieldError::Missing));
    assert_eq!(read_json("deviceID", b"nonsense"), Err(FieldError::NotJson));
    assert_eq!(
        read_client_config_json("serverAddr", document),
        Ok(text("10.0.0.1:51347"))
    );
    assert_eq!(
        read_client_config_json("serverAddr", b""),
        Err(FieldError::NotJson)
    );
}

#[test]
fn client_settings_of_a_document() {
    let json = read_json_as_value(
        br#"{"deviceID":"id-1","deviceName":"Box","serverAddr":"10.0.0.1:51347"}"#,
    )
    .unwrap();
    let client = json.to_client();
    assert_eq!(client.device_id, "id-1");
    assert_eq!(client.device_name, "Box");
    assert_eq!(client.server_addr, "10.0.0.1:51347");
    let empty = read_json_as_value(b"{}").unwrap().to_client();
    assert_eq!(empty.device_id, "");
    assert_eq!(empty.device_name, "");
    assert_eq!(empty.server_addr, "");
}

#[test]
fn registry_of_a_document() {
    let json = read_json_as_value(
        br#"{"registeredDeviceIDs":["a","b"],"adminIDs":["d"],"firstRun":true}"#,
    )
    .unwrap();
    let config = json.to_server();
    assert_eq!(config.registered_device_ids, vec![text("a"), text("b")]);
    assert_eq!(config.admin_ids, vec![text("d")]);
    assert!(config.first_run);
    let empty = read_json_as_value(b"{}").unwrap().to_server();
    assert!(empty.registered_device_ids.is_empty());
    assert!(empty.admin_ids.is_empty());
    assert!(!empty.first_run);
}

#[test]
fn sample_of_a_document() {
    let json = read_json_as_value(
        br#"{"deviceID":"id-1","deviceName":"Box","ramUsed":4096,"ramTotal":8192,"cpuUsage":0.25,"processes":120,"networkIn":10,"networkOut":20,"time":1700000000}"#,
    )
    .unwrap();
    assert_eq!(
        json.to_device(),
        Device::new(
            text("id-1"),
            text("Box"),
            4096,
            8192,
            250_000,
            120,
            10,
            20,
            1_700_000_000
        )
    );
    assert_eq!(
        read_json_as_value(b"{}").unwrap().to_device(),
        Device::new(text(""), text(""), 0, 0, 0, 0, 0, 0, 0)
    );
}

#[test]
fn numbers_of_a_document_in_millionths() {
    let json = read_json_as_value(
        br#"{"a":0.5,"b":1,"c":-2.25,"d":"0.5","e":1e-7,"f":0.1,"g":1e300,"h":123456789012,"i":-3000000000}"#,
    )
    .unwrap();
    assert_eq!(read_millionths("a", &json), 500_000);
    assert_eq!(read_millionths("b", &json), 1_000_000);
    assert_eq!(read_millionths("c", &json), -2_250_000);
    assert_eq!(read_millionths("d", &json), 0);
    assert_eq!(read_millionths("e", &json), 0);
    assert_eq!(read_millionths("f", &json), 100_000);
    assert_eq!(read_millionths("g", &json), i64::MAX);
    assert_eq!(read_millionths("none", &json), 0);
    assert_eq!(read_count("b", &json), 1);
    assert_eq!(read_count("a", &json), 0);
    assert_eq!(read_count("h", &json), 0);
    assert_eq!(read_count("i", &json), 0);
    assert_eq!(read_count("none", &json), 0);
}

#[test]
fn binary64_numbers_in_millionths() {
    for (number, expected) in [
        (0.0f64, 0i64),
        (-0.0, 0),
        (1.0, 1_000_000),
        (0.5, 500_000),
        (0.75, 750_000),
        // The nearest binary64 number to a millionth lies just below it.
        (0.000001, 0),
        (0.0000015, 1),
        (0.0000009, 0),
        (-0.0000009, 0),
        (0.999_999_9, 999_999),
        (-1.5, -1_500_000),
        (100.0, 100_000_000),
        (12_345.678_9, 12_345_678_900),
        (9_223_372_036_854.0, 9_223_372_036_854_000_000),
        (9_223_372_036_855.0, i64::MAX),
        (-9_223_372_036_855.0, -i64::MAX),
        (1e19, i64::MAX),
        (f64::MAX, i64::MAX),
        (f64::MIN, -i64::MAX),
        (f64::INFINITY, i64::MAX),
        (f64::NEG_INFINITY, -i64::MAX),
        (f64::NAN, 0),
        (f64::MIN_POSITIVE, 0),
        (5e-324, 0),
    ] {
        assert_eq!(millionths(number.to_bits()), expected, "{number}");
    }
    // A load reported in single precision.
    assert_eq!(millionths(f64::from(0.3f32).to_bits()), 300_000);
    assert_eq!(millionths(f64::from(0.1f32).to_bits()), 100_000);
}

#[test]
fn settings_as_a_document() {
    let client = Client::new(text("id-1"), text("B\"o\"x"), text("10.0.0.1:51347"));
    let json = client.to_json();
    let expected: serde_json::Value = serde_json::from_str(
        r#"{"deviceID":"id-1","deviceName":"B\"o\"x","serverAddr":"10.0.0.1:51347"}"#,
    )
    .unwrap();
    assert_eq!(json, expected);
    let back = json.to_client();
    assert_eq!(back.device_id, client.device_id);
    assert_eq!(back.device_name, client.device_name);
    assert_eq!(back.server_addr, client.server_addr);
}

#[test]
fn registry_as_a_document() {
    let config = ServerConfig::new(vec![text("a"), text("b")], vec![text("d")], true);
    let json = config.to_json();
    let expected: serde_json::Value = serde_json::from_str(
        r#"{"registeredDeviceIDs":["a","b"],"adminIDs":["d"],"firstRun":true}"#,
    )
    .unwrap();
    assert_eq!(json, expected);
    let back = json.to_server();
    assert_eq!(back.registered_device_ids, config.registered_device_ids);
    assert_eq!(back.admin_ids, config.admin_ids);
    assert_eq!(back.first_run, config.first_run);
    let empty = ServerConfig::new(vec![], vec![], false).to_json();
    assert_eq!(
        empty.to_string(),
        r#"{"adminIDs":[],"firstRun":false,"registeredDeviceIDs":[]}"#
    );
}

#[test]
fn defaults() {
    for client in [get_default_client_json_data(), reset_client_config()] {
        assert_eq!(client.device_id, "N/A");
        assert_eq!(client.device_name, "No Config Present");
        assert_eq!(client.server_addr, "127.0.0.1:51347");
    }
    for config in [get_default_server_json_data(), reset_server_config()] {
        assert!(config.registered_device_ids.is_empty());
        assert!(config.admin_ids.is_empty());
        assert!(config.first_run);
    }
}

#[test]
fn builds_for_hosts() {
    assert_eq!(
        update_artifact(HostArch::X64, HostPlatform::Linux),
        Some("linux/rlsd-musl")
    );
    assert_eq!(
        update_artifact(HostArch::X64, HostPlatform::Windows),
        Some("windows/rlsd-x86-64")
    );
    assert_eq!(
        update_artifact(HostArch::Arm64, HostPlatform::Linux),
        Some("linux/rlsd-aarch64")
    );
    assert_eq!(update_artifact(HostArch::Arm64, HostPlatform::Windows), None);
    assert_eq!(update_artifact(HostArch::X64, HostPlatform::Other), None);
    assert_eq!(update_artifact(HostArch::Other, HostPlatform::Linux), None);
    let here = host_artifact();
    assert!(
        here.is_none()
            || here == Some("linux/rlsd-musl")
            || here == Some("windows/rlsd-x86-64")
            || here == Some("linux/rlsd-aarch64")
    );
}

#[test]
fn the_clock_runs() {
    // Later than the first of January 2020.
    assert!(get_unix_timestamp() > 1_577_836_800);
}

#[test]
fn time_ranges() {
    assert_eq!(
        TimeRange::all(),
        vec![
            TimeRange::Last1Hour,
            TimeRange::Last1Day,
            TimeRange::Last1Week,
            TimeRange::Last1Month,
            TimeRange::Last1Year
        ]
    );
    assert_eq!(TimeRange::Last1Hour.as_str(), "1 hour");
    assert_eq!(TimeRange::Last1Day.as_str(), "1 day");
    assert_eq!(TimeRange::Last1Week.as_str(), "1 week");
    assert_eq!(TimeRange::Last1Month.as_str(), "1 month");
    assert_eq!(TimeRange::Last1Year.as_str(), "1 year");
    assert_eq!(TimeRange::Last1Hour.duration_secs(), 3_600);
    assert_eq!(TimeRange::Last1Day.duration_secs(), 86_400);
    assert_eq!(TimeRange::Last1Week.duration_secs(), 604_800);
    assert_eq!(TimeRange::Last1Month.duration_secs(), 2_592_000);
    assert_eq!(TimeRange::Last1Year.duration_secs(), 31_536_000);
}

#[test]
fn keys_move_the_selection_in_a_circle() {
    let mut app = App::new(
        vec![text("A"), text("B"), text("C")],
        vec![text("1"), text("2"), text("3")],
    );
    assert_eq!(app.selected_device_id(), Some(&text("1")));
    assert_eq!(app.on_key(Key::Tab), KeyOutcome::Refresh);
    assert_eq!(app.selected_device, 1);
    assert_eq!(app.on_key(Key::Right), KeyOutcome::Refresh);
    assert_eq!(app.selected_device, 2);
    assert_eq!(app.selected_device_id(), Some(&text("3")));
    assert_eq!(app.on_key(Key::Right), KeyOutcome::Refresh);
    assert_eq!(app.selected_device, 0);
    assert_eq!(app.on_key(Key::Left), KeyOutcome::Refresh);
    assert_eq!(app.selected_device, 2);
    assert_eq!(app.on_key(Key::BackTab), KeyOutcome::Refresh);
    assert_eq!(app.selected_device, 1);
    assert_eq!(app.on_key(Key::Other), KeyOutcome::Ignore);
    assert_eq!(app.on_key(Key::Quit), KeyOutcome::Quit);
    assert_eq!(app.selected_device, 1);
    assert_eq!(app.time_range_index, 0);
}

#[test]
fn keys_move_the_window_in_a_circle() {
    let mut app = App::new(vec![], vec![]);
    assert_eq!(app.selected_time_range(), TimeRange::Last1Hour);
    assert_eq!(app.on_key(Key::Down), KeyOutcome::Refresh);
    assert_eq!(app.selected_time_range(), TimeRange::Last1Year);
    assert_eq!(app.on_key(Key::Up), KeyOutcome::Refresh);
    assert_eq!(app.selected_time_range(), TimeRange::Last1Hour);
    for expected in [
        TimeRange::Last1Day,
        TimeRange::Last1Week,
        TimeRange::Last1Month,
        TimeRange::Last1Year,
        TimeRange::Last1Hour,
    ] {
        app.on_key(Key::Up);
        assert_eq!(app.selected_time_range(), expected);
    }
}

#[test]
fn a_dashboard_without_devices_selects_none() {
    let mut app = App::new(vec![], vec![]);
    assert_eq!(app.selected_device_id(), None);
    app.on_key(Key::Tab);
    assert_eq!(app.selected_device, 0);
    app.on_key(Key::Left);
    assert_eq!(app.selected_device, 0);
}

#[test]
fn window_start_is_the_length_of_the_window_before_now() {
    let mut app = App::new(vec![], vec![]);
    assert_eq!(app.window_start(10_000), 6_400);
    app.on_key(Key::Up);
    assert_eq!(app.window_start(100_000), 13_600);
    assert_eq!(app.window_start(i64::MIN + 5), i64::MIN);
}

#[test]
fn refresh_after_more_than_ten_seconds() {
    assert!(!refresh_due(0));
    assert!(!refresh_due(10));
    assert!(refresh_due(11));
}

#[test]
fn values_under_a_key_anywhere_in_a_document() {
    let json = read_json_as_value(
        br#"{"name":"top","a":{"name":"inner","b":{"name":7,"c":[{"name":"in array"}]}},"z":{"name":{"x":"y"}}}"#,
    )
    .unwrap();
    // Members are walked in the order of their keys: within "a", "b" comes
    // before "name".
    assert_eq!(
        iterate_json("name", &json),
        vec![text("7"), text("inner"), text("top"), text("{x:y}")]
    );
    assert_eq!(iterate_json("none", &json), Vec::<String>::new());
    assert_eq!(iterate_json("x", &json), vec![text("y")]);
}

#[test]
fn values_under_a_key_in_the_elements_of_an_array() {
    let json = read_json_as_value(
        br#"[{"id":"a"},{"x":{"id":"b"}},5,{"id":null},[{"id":"deeper"}]]"#,
    )
    .unwrap();
    assert_eq!(
        iterate_json("id", &json),
        vec![text("a"), text("b"), text("null")]
    );
    assert_eq!(iterate_json("id", &read_json_as_value(b"17").unwrap()), Vec::<String>::new());
}

#[test]
fn length_of_a_document() {
    let length = |document: &[u8]| get_json_length(&read_json_as_value(document).unwrap());
    assert_eq!(length(br#"{}"#), 0);
    assert_eq!(length(br#"{"a":1,"b":{"c":2,"d":3}}"#), 2);
    assert_eq!(length(br#"[{"a":1},{"b":2,"c":3},{}]"#), 3);
    assert_eq!(length(br#"[]"#), 0);
    assert_eq!(length(br#"[1,"x",{"a":1}]"#), 1);
    assert_eq!(length(br#""text""#), 0);
}
