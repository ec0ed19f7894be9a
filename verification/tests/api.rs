use rion::api::{answer_field, prepare_session, task_id, PeerRole};
use rion::api_error::{APIError, ErrorMessage};
use rion::config::{peer_setup, AppConfig, PeerSetupError};
use rion::util::{short_id, uuid_v4};
use rion::validation::{format_validator_errors, CreateToken, OpRoom};

fn custom(r: Result<String, APIError>) -> String {
    match r {
        Err(APIError::Custom(s)) => s,
        _ => panic!("expected a custom error"),
    }
}

#[test]
fn duplicate_session_is_refused() {
    assert_eq!(custom(prepare_session(PeerRole::Publisher, Some(true), b"v=0")), "duplicate publisher");
    assert_eq!(custom(prepare_session(PeerRole::Subscriber, Some(true), b"v=0")), "duplicate subscriber");
}

#[test]
fn unknown_registration_is_refused() {
    assert_eq!(custom(prepare_session(PeerRole::Publisher, None, b"v=0")), "publisher check error");
    assert_eq!(custom(prepare_session(PeerRole::Subscriber, None, b"v=0")), "subscriber check error");
}

#[test]
fn offer_must_be_text() {
    assert_eq!(custom(prepare_session(PeerRole::Publisher, Some(false), &[0xc3])), "bad sdp");
    assert_eq!(prepare_session(PeerRole::Subscriber, Some(false), b"v=0").ok(), Some("v=0".to_string()));
}

#[test]
fn task_ids_count_ten_milliseconds() {
    assert_eq!(task_id(123_456_789), 12345);
    assert_eq!(task_id(10000 * 65536 + 30000), 3);
    assert_eq!(task_id(9999), 0);
}

#[test]
fn answer_fields() {
    assert_eq!(answer_field(PeerRole::Publisher, "v=0"), "v=0");
    assert_eq!(answer_field(PeerRole::Subscriber, "v=0"), "sdp_answer");
}

#[test]
fn room_domain_length_is_checked() {
    assert!(OpRoom { domain: "a".repeat(50) }.validate().is_ok());
    assert!(OpRoom { domain: "日本".to_string() }.validate().is_ok());
    let e = OpRoom { domain: String::new() }.validate().unwrap_err();
    assert_eq!(format_validator_errors(&e), vec![("domain".to_string(), "length is invalid".to_string())]);
    assert!(OpRoom { domain: "a".repeat(51) }.validate().is_err());
}

#[test]
fn token_request_fields_are_checked() {
    let ok = CreateToken { room: "r".to_string(), id: "u".to_string(), token: None };
    assert!(ok.validate().is_ok());
    let bad = CreateToken { room: String::new(), id: "a".repeat(51), token: Some("t".to_string()) };
    let e = bad.validate().unwrap_err();
    assert_eq!(
        format_validator_errors(&e),
        vec![
            ("room".to_string(), "length is invalid".to_string()),
            ("id".to_string(), "length is invalid".to_string()),
        ]
    );
    let bad_id = CreateToken { room: "r".repeat(100), id: String::new(), token: None };
    let e = bad_id.validate().unwrap_err();
    assert_eq!(format_validator_errors(&e), vec![("id".to_string(), "length is invalid".to_string())]);
}

#[test]
fn api_error_messages() {
    let e = APIError::Custom("boom".to_string());
    assert_eq!(e.code(), -2);
    assert!(matches!(e.message(), ErrorMessage::Text(t) if t == "boom"));
    let v = OpRoom { domain: String::new() }.validate().unwrap_err();
    match APIError::Validator(v).message() {
        ErrorMessage::Fields(f) => assert_eq!(f, vec![("domain".to_string(), "length is invalid".to_string())]),
        _ => panic!("expected fields"),
    }
}

fn config(turn: Option<&str>, user: Option<&str>, pass: Option<&str>, ip: Option<&str>) -> AppConfig {
    AppConfig {
        port: 8080,
        log_dir: "log".to_string(),
        redis: "redis://127.0.0.1".to_string(),
        nats: "127.0.0.1".to_string(),
        stun: "stun:stun.l.google.com:19302".to_string(),
        turn: turn.map(|s| s.to_string()),
        turn_user: user.map(|s| s.to_string()),
        turn_password: pass.map(|s| s.to_string()),
        public_ip: ip.map(|s| s.to_string()),
        auth: false,
        debug: false,
    }
}

#[test]
fn turn_needs_credentials() {
    let e = peer_setup(&config(Some("turn:x"), None, Some("p"), None)).err().unwrap();
    assert_eq!(e, PeerSetupError::TurnUserMissing);
    assert_eq!(e.message(), "TURN username not preset");
    let e = peer_setup(&config(Some("turn:x"), Some("u"), None, None)).err().unwrap();
    assert_eq!(e, PeerSetupError::TurnPasswordMissing);
    assert_eq!(e.message(), "TURN password not preset");
}

#[test]
fn peer_setup_lists_servers_and_addresses() {
    let s = peer_setup(&config(Some("turn:x"), Some("u"), Some("p"), Some("1.2.3.4"))).ok().unwrap();
    assert_eq!(s.ice_servers.len(), 1);
    assert_eq!(s.ice_servers[0].url, "turn:x");
    assert_eq!(s.ice_servers[0].username, "u");
    assert_eq!(s.ice_servers[0].credential, "p");
    assert_eq!(s.nat_ips, vec!["1.2.3.4".to_string()]);
    assert_eq!(s.ice_timeouts_secs, (3, 6, 1));
    assert_eq!(s.codecs.len(), 2);
    assert_eq!((s.codecs[0].clock_rate, s.codecs[0].channels, s.codecs[0].payload_type), (90000, 0, 96));
    assert_eq!((s.codecs[1].clock_rate, s.codecs[1].channels, s.codecs[1].payload_type), (48000, 2, 111));
    let s = peer_setup(&config(None, None, None, None)).ok().unwrap();
    assert!(s.ice_servers.is_empty());
    assert!(s.nat_ips.is_empty());
}

#[test]
fn short_ids_are_stable_and_distinct() {
    let a = short_id(1);
    let b = short_id(2);
    assert_ne!(a, b);
    assert_eq!(a, short_id(1));
    assert!(a.chars().count() >= 6);
    assert!(a.chars().all(|c| c.is_ascii_alphanumeric()));
}

#[test]
fn uuids_are_hyphenated_version_4() {
    let u = uuid_v4();
    let chars: Vec<char> = u.chars().collect();
    assert_eq!(chars.len(), 36);
    for (i, c) in chars.iter().enumerate() {
        if i == 8 || i == 13 || i == 18 || i == 23 {
            assert_eq!(*c, '-');
        } else {
            assert!(c.is_ascii_hexdigit() && !c.is_ascii_uppercase());
        }
    }
    assert_eq!(chars[14], '4');
    assert!(matches!(chars[19], '8' | '9' | 'a' | 'b'));
    assert_ne!(uuid_v4(), u);
}
