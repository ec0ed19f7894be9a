use rion::command::{command_subject, room_of_subject, Command, CommandCodecError};
use rion::varint::claimed_text_fits;

#[test]
fn pub_join_message_names_the_user() {
    let c = Command::PubJoin("alice".to_string());
    assert_eq!(c.to_user_msg(), "PUB_JOIN alice");
}

#[test]
fn pub_left_message_names_the_user() {
    let c = Command::PubLeft("bob+12".to_string());
    assert_eq!(c.to_user_msg(), "PUB_LEFT bob+12");
}

#[test]
fn command_wire_form_is_tag_length_bytes() {
    let c = Command::PubJoin("alice".to_string());
    assert_eq!(c.encode().unwrap(), vec![0u8, 5, 97, 108, 105, 99, 101]);
    let c = Command::PubLeft("bob".to_string());
    assert_eq!(c.encode().unwrap(), vec![1u8, 3, 98, 111, 98]);
}

#[test]
fn command_wire_form_counts_utf8_bytes() {
    let c = Command::PubJoin("é".to_string());
    assert_eq!(c.encode().unwrap(), vec![0u8, 2, 0xc3, 0xa9]);
}

#[test]
fn command_longer_than_a_message_is_refused() {
    let fits = Command::PubJoin("x".repeat(62));
    assert_eq!(fits.encode().unwrap().len(), 64);
    let too_long = Command::PubJoin("x".repeat(63));
    assert!(matches!(too_long.encode(), Err(CommandCodecError::TooLong)));
}

#[test]
fn command_reads_back_what_was_written() {
    for c in [Command::PubJoin("alice+1".to_string()), Command::PubLeft("日本".to_string())] {
        let bytes = c.encode().unwrap();
        let back = Command::decode(&bytes).unwrap();
        match (&c, &back) {
            (Command::PubJoin(a), Command::PubJoin(b)) => assert_eq!(a, b),
            (Command::PubLeft(a), Command::PubLeft(b)) => assert_eq!(a, b),
            _ => panic!("variant changed"),
        }
        let mut longer = bytes.clone();
        longer.extend_from_slice(&[9, 9, 9]);
        assert!(matches!(Command::decode(&longer), Ok(Command::PubJoin(_)) | Ok(Command::PubLeft(_))));
    }
}

#[test]
fn command_with_unknown_tag_is_refused() {
    assert!(matches!(Command::decode(&[2, 1, 97]), Err(CommandCodecError::UnknownTag(2))));
}

#[test]
fn command_from_garbage_is_malformed() {
    assert!(matches!(Command::decode(&[]), Err(CommandCodecError::Malformed)));
    assert!(matches!(Command::decode(&[0, 5, 97]), Err(CommandCodecError::Malformed)));
    assert!(matches!(Command::decode(&[0, 1, 0xff]), Err(CommandCodecError::Malformed)));
}

#[test]
fn command_with_huge_claimed_length_is_malformed() {
    let bytes = [0u8, 253, 0xff, 0xff, 0xff, 0xff, 0xff, 0xff, 0xff, 0xff];
    assert!(matches!(Command::decode(&bytes), Err(CommandCodecError::Malformed)));
    let mut long = vec![0u8, 252, 0x00, 0x00, 0x10, 0x00];
    long.extend(std::iter::repeat(b'a').take(4096));
    assert!(matches!(Command::decode(&long), Err(CommandCodecError::Malformed)));
}

#[test]
fn long_text_reads_back() {
    let user = "u".repeat(2000);
    let mut bytes = vec![1u8, 251, 0xd0, 0x07];
    bytes.extend(user.as_bytes());
    match Command::decode(&bytes) {
        Ok(Command::PubLeft(u)) => assert_eq!(u, user),
        _ => panic!("expected PUB_LEFT"),
    }
}

#[test]
fn command_from_tag_and_user() {
    assert!(matches!(Command::from_parts(0, "a".to_string()), Ok(Command::PubJoin(u)) if u == "a"));
    assert!(matches!(Command::from_parts(1, "b".to_string()), Ok(Command::PubLeft(u)) if u == "b"));
    assert!(matches!(Command::from_parts(7, "c".to_string()), Err(CommandCodecError::UnknownTag(7))));
}

#[test]
fn command_subject_and_room_round_trip() {
    let s = command_subject("room.a");
    assert_eq!(s, "cmd.room.a");
    assert_eq!(room_of_subject(&s), Some("room.a".to_string()));
    assert_eq!(room_of_subject("nodot"), None);
    assert_eq!(room_of_subject("cmd."), Some(String::new()));
}

#[test]
fn claimed_text_must_lie_within_the_bytes() {
    assert!(claimed_text_fits(&[0, 1, 97]));
    assert!(!claimed_text_fits(&[0, 5, 97]));
    assert!(claimed_text_fits(&[7]));
    assert!(claimed_text_fits(&[255, 9]));
    assert!(claimed_text_fits(&[1, 251, 2, 0, 97, 98]));
    assert!(!claimed_text_fits(&[1, 251, 3, 0, 97, 98]));
    assert!(!claimed_text_fits(&[0, 253, 0xff, 0xff, 0xff, 0xff, 0xff, 0xff, 0xff, 0xff]));
}
