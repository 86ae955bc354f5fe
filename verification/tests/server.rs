//! The server's decisions on requests.

use rlsd::config::server::ServerConfig;
use rlsd::socket_handling::client::{list_request, remove_request, rename_request};
use rlsd::socket_handling::codec::{encode, FrameError};
use rlsd::socket_handling::command_type::Commands;
use rlsd::socket_handling::rate_limiter::RateLimiter;
use rlsd::socket_handling::server::{
    get_device_id, input_response, update_response, Action, Listed, Request, Server, Silence,
    Step,
};
use rlsd::stats_handling::device_info::Device;

const DENIAL: &str = "You're not allowed to do that.";
const ADMIN_DIGEST: &str = "90b1b286043f1b7612e423c74608f5ea2f676340507f0b67219b20d09fc4777b";

fn text(value: &str) -> String {
    String::from(value)
}

/// A server with the devices `dev-1` and `dev-2` and the admin `admin-1`.
fn server() -> Server {
    Server::new(
        ServerConfig::new(
            vec![text("dev-1"), text("dev-2")],
            vec![text(ADMIN_DIGEST)],
            false,
        ),
        false,
    )
}

fn frame(command: Commands, payload: &str) -> Vec<u8> {
    encode(command, payload.as_bytes()).unwrap()
}

fn silent(reason: Silence) -> Step {
    Step {
        action: Action::Close(reason),
        persist: false,
    }
}

fn response(value: &str) -> Step {
    Step {
        action: Action::Respond(text(value)),
        persist: false,
    }
}

fn input(device_id: &str) -> Vec<u8> {
    frame(
        Commands::INPUT,
        &format!(
            r#"{{"deviceID":"{device_id}","deviceName":"Box","ramUsed":1,"ramTotal":2,"cpuUsage":0.5,"processes":3,"networkIn":4,"networkOut":5,"time":0}}"#
        ),
    )
}

/// The sample that `input` sends for `device_id`, as it is stored at `time`.
fn stored(device_id: &str, time: i64) -> Step {
    Step {
        action: Action::Insert(Device::new(
            text(device_id),
            text("Box"),
            1,
            2,
            500_000,
            3,
            4,
            5,
            time,
        )),
        persist: false,
    }
}

fn registered(server: &Server) -> Vec<String> {
    server.config().registered_device_ids.clone()
}

#[test]
fn rate_limiter_accepts_after_the_interval() {
    let mut limiter = RateLimiter::new();
    let device = text("dev-1");
    assert_eq!(limiter.last(&device), 0);
    assert!(limiter.accept(&device, 1_000));
    assert_eq!(limiter.last(&device), 1_000);
    assert!(!limiter.accept(&device, 1_109));
    assert_eq!(limiter.last(&device), 1_000);
    assert!(limiter.accept(&device, 1_111));
    assert_eq!(limiter.last(&device), 1_111);
}

#[test]
fn rate_limiter_interval_is_110_seconds() {
    let mut limiter = RateLimiter::new();
    let device = text("dev-1");
    assert!(!limiter.accept(&device, 109));
    assert!(limiter.accept(&device, 110));
    assert!(!limiter.accept(&device, 219));
    assert!(limiter.accept(&device, 220));
}

#[test]
fn rate_limiter_keeps_devices_apart() {
    let mut limiter = RateLimiter::new();
    assert!(limiter.accept(&text("a"), 500));
    assert!(limiter.accept(&text("b"), 501));
    assert!(!limiter.accept(&text("a"), 600));
    assert!(limiter.accept(&text("b"), 611));
    assert_eq!(limiter.last(&text("a")), 500);
    assert_eq!(limiter.last(&text("b")), 611);
    assert_eq!(limiter.last(&text("c")), 0);
}

#[test]
fn rate_limiter_at_the_ends_of_time() {
    let mut limiter = RateLimiter::new();
    let device = text("dev-1");
    assert!(!limiter.accept(&device, i64::MIN));
    assert!(limiter.accept(&device, i64::MAX));
    assert!(!limiter.accept(&device, i64::MIN));
    assert_eq!(limiter.last(&device), i64::MAX);
}

#[test]
fn second_input_after_109_seconds_is_dropped() {
    let mut server = server();
    let first = server.process_request(&input("dev-1"), 10_000);
    assert_eq!(first, stored("dev-1", 10_000));
    let second = server.process_request(&input("dev-1"), 10_109);
    assert_eq!(second, silent(Silence::TooSoon));
    assert_eq!(server.last_input(&text("dev-1")), 10_000);
}

#[test]
fn second_input_after_111_seconds_is_accepted() {
    let mut server = server();
    server.process_request(&input("dev-1"), 10_000);
    let second = server.process_request(&input("dev-1"), 10_111);
    assert_eq!(second, stored("dev-1", 10_111));
    assert_eq!(server.last_input(&text("dev-1")), 10_111);
}

#[test]
fn input_is_stored_with_the_time_of_the_server() {
    let mut server = server();
    // The sample names the time 0; the server stores its own.
    let step = server.process_request(&input("dev-1"), 1_700_000_000);
    assert_eq!(step, stored("dev-1", 1_700_000_000));
}

#[test]
fn input_with_fields_missing_is_stored_with_defaults() {
    let mut server = server();
    let step = server.process_request(
        &frame(Commands::INPUT, r#"{"deviceID":"dev-2","cpuUsage":"high","processes":5000000000}"#),
        777,
    );
    assert_eq!(
        step.action,
        Action::Insert(Device::new(text("dev-2"), text(""), 0, 0, 0, 0, 0, 0, 777))
    );
}

#[test]
fn input_of_an_unregistered_device_uses_up_its_slot() {
    let mut server = server();
    assert_eq!(
        server.process_request(&input("stranger"), 5_000),
        silent(Silence::NotRegistered)
    );
    assert_eq!(server.last_input(&text("stranger")), 5_000);
    assert_eq!(
        server.process_request(&input("stranger"), 5_050),
        silent(Silence::TooSoon)
    );
}

#[test]
fn input_without_a_device_is_dropped() {
    let mut server = server();
    assert_eq!(
        server.process_request(&frame(Commands::INPUT, r#"{"ramUsed":1}"#), 5_000),
        silent(Silence::MissingField)
    );
    assert_eq!(
        server.process_request(&frame(Commands::INPUT, r#"{"deviceID":7}"#), 5_000),
        silent(Silence::MissingField)
    );
    assert_eq!(
        server.process_request(&frame(Commands::INPUT, r#"["dev-1"]"#), 5_000),
        silent(Silence::MissingField)
    );
    assert_eq!(server.last_input(&text("dev-1")), 0);
}

#[test]
fn input_of_the_nameless_device_is_not_stored() {
    let mut server = Server::new(
        ServerConfig::new(vec![text("N/A")], vec![], false),
        false,
    );
    assert_eq!(
        server.process_request(&input("N/A"), 5_000),
        response("Failed to insert data")
    );
}

#[test]
fn responses_to_a_sample() {
    assert_eq!(input_response(true), "Data inserted");
    assert_eq!(input_response(false), "Failed to insert data");
}

#[test]
fn setup_then_input() {
    let mut server = Server::new(ServerConfig::new(vec![], vec![], false), false);
    let setup = server.process_request(b"SETUP!", 1_000);
    assert_eq!(
        setup,
        Step {
            action: Action::Setup,
            persist: false
        }
    );
    // The store already holds the first candidate.
    assert_eq!(server.complete_setup(text("taken"), true), None);
    assert!(registered(&server).is_empty());
    let taken = server.complete_setup(text("X"), false);
    assert_eq!(
        taken,
        Some(Step {
            action: Action::Respond(text("X")),
            persist: true
        })
    );
    assert_eq!(registered(&server), vec![text("X")]);

    let first = server.process_request(&input("X"), 1_000_000);
    assert_eq!(first, stored("X", 1_000_000));
    // Within 110 seconds of the accepted sample: dropped.
    assert_eq!(
        server.process_request(&input("X"), 1_000_050),
        silent(Silence::TooSoon)
    );
    // After 110 seconds: stored, with the server's time.
    let later = server.process_request(&input("X"), 1_000_110);
    assert_eq!(later, stored("X", 1_000_110));
}

#[test]
fn candidates_are_drawn_anew() {
    let first = get_device_id();
    let second = get_device_id();
    assert_eq!(first.len(), 36);
    assert_ne!(first, second);
}

#[test]
fn candidates_have_the_shape_of_a_random_uuid() {
    for _ in 0..200 {
        let candidate = get_device_id();
        let bytes = candidate.as_bytes();
        assert_eq!(bytes.len(), 36);
        for (i, byte) in bytes.iter().enumerate() {
            if i == 8 || i == 13 || i == 18 || i == 23 {
                assert_eq!(*byte, b'-');
            } else {
                assert!(matches!(*byte, b'0'..=b'9' | b'a'..=b'f'));
            }
        }
        assert_eq!(bytes[14], b'4');
        assert!(matches!(bytes[19], b'8' | b'9' | b'a' | b'b'));
        assert_ne!(candidate, "N/A");
    }
}

#[test]
fn list_without_admin_rights_is_denied() {
    let mut server = server();
    for payload in [
        r#"{"deviceID":"dev-1"}"#,
        r#"{"deviceID":"admin-1"}"#,
        r#"{"deviceID":42}"#,
        r#"{"removedDeviceID":"dev-1"}"#,
        r#"{}"#,
        r#"[]"#,
        r#"null"#,
        r#""90b1b286043f1b7612e423c74608f5ea2f676340507f0b67219b20d09fc4777b""#,
    ] {
        assert_eq!(
            server.process_request(&frame(Commands::LIST, payload), 1),
            response(DENIAL)
        );
    }
}

#[test]
fn remove_without_admin_rights_is_denied() {
    let mut server = server();
    for payload in [
        r#"{"deviceID":"dev-1","removedDeviceID":"dev-2"}"#,
        r#"{"deviceID":"N/A","removedDeviceID":"dev-2"}"#,
        r#"{"removedDeviceID":"dev-2"}"#,
        r#"{"deviceID":null,"removedDeviceID":"dev-2"}"#,
        r#"[{"deviceID":"x"}]"#,
        r#"17"#,
    ] {
        assert_eq!(
            server.process_request(&frame(Commands::REMOVE, payload), 1),
            response(DENIAL)
        );
        assert_eq!(registered(&server), vec![text("dev-1"), text("dev-2")]);
    }
}

#[test]
fn update_and_admin_rename_without_admin_rights_are_denied() {
    let mut server = server();
    assert_eq!(
        server.process_request(&frame(Commands::UpdateServer, r#"{"deviceID":"dev-1"}"#), 1),
        response(DENIAL)
    );
    assert_eq!(
        server.process_request(
            &frame(
                Commands::AdminRename,
                r#"{"deviceID":"dev-1","renamedDeviceID":"dev-2","deviceName":"Mine"}"#
            ),
            1
        ),
        response(DENIAL)
    );
}

#[test]
fn remove_by_an_admin() {
    let mut server = server();
    let payload = format!(r#"{{"deviceID":"{ADMIN_DIGEST}","removedDeviceID":"dev-1"}}"#);
    assert_eq!(
        server.process_request(&frame(Commands::REMOVE, &payload), 1),
        Step {
            action: Action::Remove {
                device_id: text("dev-1")
            },
            persist: true
        }
    );
    assert_eq!(registered(&server), vec![text("dev-2")]);
    assert!(!server.config().is_registered(&text("dev-1")));
    assert_eq!(server.config().admin_ids, vec![text(ADMIN_DIGEST)]);
    // The device may no longer send samples.
    assert_eq!(
        server.process_request(&input("dev-1"), 10_000),
        silent(Silence::NotRegistered)
    );
}

#[test]
fn remove_by_an_admin_without_a_target() {
    let mut server = server();
    let payload = format!(r#"{{"deviceID":"{ADMIN_DIGEST}"}}"#);
    assert_eq!(
        server.process_request(&frame(Commands::REMOVE, &payload), 1),
        silent(Silence::MissingField)
    );
    assert_eq!(registered(&server), vec![text("dev-1"), text("dev-2")]);
}

#[test]
fn list_by_an_admin() {
    let mut server = server();
    let payload = format!(r#"{{"deviceID":"{ADMIN_DIGEST}"}}"#);
    assert_eq!(
        server.process_request(&frame(Commands::LIST, &payload), 1),
        Step {
            action: Action::List,
            persist: false
        }
    );
}

#[test]
fn listing_leaves_admins_out() {
    let server = server();
    let devices = vec![
        (text("Laptop"), text("dev-1")),
        (text("Console"), text("admin-1")),
        (text("Server"), text("dev-2")),
    ];
    assert_eq!(
        server.list_response(&devices),
        "Laptop: dev-1\nServer: dev-2"
    );
    assert_eq!(server.list_response(&Vec::new()), "");
    assert_eq!(
        server.list_response(&vec![(text("Console"), text("admin-1"))]),
        ""
    );
}

#[test]
fn listing_goes_by_the_digest_given() {
    let server = server();
    let devices = vec![
        Listed {
            device_name: text("Laptop"),
            device_id: text("dev-1"),
            digest: text(ADMIN_DIGEST),
        },
        Listed {
            device_name: text("Console"),
            device_id: text("admin-1"),
            digest: text("00"),
        },
    ];
    assert_eq!(server.list_lines(&devices), "Console: admin-1");
}

#[test]
fn rename_of_oneself() {
    let mut server = server();
    assert_eq!(
        server.process_request(
            &frame(Commands::RENAME, r#"{"deviceID":"dev-1","deviceName":"Box"}"#),
            1
        ),
        Step {
            action: Action::Rename {
                device_id: text("dev-1"),
                device_name: text("Box")
            },
            persist: false
        }
    );
    assert_eq!(
        server.process_request(&frame(Commands::RENAME, r#"{"deviceID":"dev-1"}"#), 1),
        silent(Silence::MissingField)
    );
}

#[test]
fn rename_by_an_admin_names_the_target() {
    let mut server = server();
    let payload = format!(
        r#"{{"deviceID":"{ADMIN_DIGEST}","renamedDeviceID":"dev-2","deviceName":"Attic"}}"#
    );
    assert_eq!(
        server.process_request(&frame(Commands::AdminRename, &payload), 1),
        Step {
            action: Action::Rename {
                device_id: text("dev-2"),
                device_name: text("Attic")
            },
            persist: false
        }
    );
    let payload = format!(r#"{{"deviceID":"{ADMIN_DIGEST}","deviceName":"Attic"}}"#);
    assert_eq!(
        server.process_request(&frame(Commands::AdminRename, &payload), 1),
        silent(Silence::MissingField)
    );
}

#[test]
fn update_by_an_admin() {
    let mut server = server();
    let payload = format!(r#"{{"deviceID":"{ADMIN_DIGEST}"}}"#);
    assert_eq!(
        server.process_request(&frame(Commands::UpdateServer, &payload), 1),
        Step {
            action: Action::Update,
            persist: false
        }
    );
    assert_eq!(update_response(true), Some(text("Update success")));
    assert_eq!(update_response(false), None);
}

#[test]
fn exit_sets_the_flag() {
    let mut server = server();
    assert!(!server.exit);
    assert_eq!(
        server.process_request(b"EXIT!", 1),
        silent(Silence::Exit)
    );
    assert!(server.exit);
}

#[test]
fn unknown_commands_get_no_response() {
    let mut server = server();
    assert_eq!(
        server.process_request(b"PING!", 1),
        silent(Silence::Unrecognized)
    );
    assert_eq!(
        server.process_request(b"ERROR!", 1),
        silent(Silence::Unrecognized)
    );
    assert!(!server.exit);
}

#[test]
fn malformed_frames_get_no_response() {
    let mut server = server();
    assert_eq!(
        server.process_request(b"INPUT", 1),
        silent(Silence::Malformed(FrameError::MissingDelimiter))
    );
    assert_eq!(
        server.process_request(b"INPUT!###", 1),
        silent(Silence::Malformed(FrameError::InvalidBase64))
    );
    assert_eq!(
        server.process_request(b"INPUT!bm90IGpzb24=", 1),
        silent(Silence::Malformed(FrameError::InvalidJson))
    );
    assert_eq!(
        server.process_request(&[b'A'; 2000], 1),
        silent(Silence::Malformed(FrameError::TooLong))
    );
    assert_eq!(server.last_input(&text("dev-1")), 0);
}

#[test]
fn requests_are_built_by_hand_too() {
    let mut server = server();
    let request = Request {
        command: Commands::LIST,
        device_id: Some(text(ADMIN_DIGEST)),
        device_name: None,
        renamed_device_id: None,
        removed_device_id: None,
        sample: None,
    };
    assert_eq!(server.handle(request, 1).action, Action::List);
}

#[test]
fn a_sample_by_hand_needs_its_device_and_its_record() {
    let mut server = server();
    let sample = Device::new(text("dev-1"), text("Box"), 1, 2, 3, 4, 5, 6, 7);
    let request = Request {
        command: Commands::INPUT,
        device_id: Some(text("dev-1")),
        device_name: None,
        renamed_device_id: None,
        removed_device_id: None,
        sample: None,
    };
    assert_eq!(server.handle(request, 500), silent(Silence::MissingField));
    let request = Request {
        command: Commands::INPUT,
        device_id: None,
        device_name: None,
        renamed_device_id: None,
        removed_device_id: None,
        sample: Some(sample.clone()),
    };
    assert_eq!(server.handle(request, 500), silent(Silence::MissingField));
    let request = Request {
        command: Commands::INPUT,
        device_id: Some(text("dev-1")),
        device_name: None,
        renamed_device_id: None,
        removed_device_id: None,
        sample: Some(sample),
    };
    assert_eq!(
        server.handle(request, 500).action,
        Action::Insert(Device::new(text("dev-1"), text("Box"), 1, 2, 3, 4, 5, 6, 500))
    );
}

#[test]
fn first_start_seeds_the_registry_from_the_store() {
    let mut server = Server::new(ServerConfig::new(vec![], vec![], true), true);
    assert!(server.print);
    assert!(server.is_printing());
    assert!(!server.is_stopping());
    assert!(server.needs_reconciliation());
    assert!(server.start(vec![text("a"), text("b")]));
    assert_eq!(registered(&server), vec![text("a"), text("b")]);
    assert!(!server.config().first_run);
    assert!(!server.needs_reconciliation());
    // After the first run the registry is left alone.
    assert!(!server.start(vec![text("c")]));
    assert_eq!(registered(&server), vec![text("a"), text("b")]);
}

#[test]
fn first_start_keeps_the_devices_that_are_registered() {
    let mut server = Server::new(
        ServerConfig::new(vec![text("a")], vec![text("digest")], true),
        false,
    );
    assert!(server.needs_reconciliation());
    assert!(server.start(vec![text("b")]));
    assert_eq!(registered(&server), vec![text("a"), text("b")]);
    assert_eq!(server.config().admin_ids, vec![text("digest")]);
    assert!(!server.config().first_run);
}

#[test]
fn a_later_start_does_not_seed_an_empty_registry() {
    let mut server = Server::new(ServerConfig::new(vec![], vec![], false), false);
    assert!(!server.needs_reconciliation());
    assert!(!server.start(vec![text("a")]));
    assert!(registered(&server).is_empty());
}

#[test]
fn admin_check_compares_the_value_as_it_is() {
    let server = server();
    assert!(server.admin_check(&text(ADMIN_DIGEST)));
    assert!(!server.admin_check(&text("admin-1")));
    assert!(!server.admin_check(&text("dev-1")));
}

#[test]
fn requests_built_for_the_server_are_understood() {
    let mut server = server();
    assert_eq!(
        server.process_request(&list_request("admin-1").unwrap(), 1).action,
        Action::List
    );
    assert_eq!(
        server.process_request(&list_request("dev-1").unwrap(), 1),
        response(DENIAL)
    );
    assert_eq!(
        server.process_request(&remove_request("admin-1", "dev-2").unwrap(), 1),
        Step {
            action: Action::Remove {
                device_id: text("dev-2")
            },
            persist: true
        }
    );
    assert_eq!(
        server.process_request(&remove_request("dev-1", "dev-2").unwrap(), 1),
        response(DENIAL)
    );
    assert_eq!(
        server.process_request(&rename_request("dev-1", "Box").unwrap(), 1).action,
        Action::Rename {
            device_id: text("dev-1"),
            device_name: text("Box")
        }
    );
}
