use rion::keys::{
    join_users, media_field, media_fields_of, media_key, parse_media_entries, pub_list_key, pub_token_key,
    sub_list_key, sub_token_key, track_subject, KEY_TTL_SECS,
};

#[test]
fn redis_keys() {
    assert_eq!(pub_token_key("r", "u"), "token#pub#r#u");
    assert_eq!(sub_token_key("r", "u"), "token#sub#r#u");
    assert_eq!(media_key("r"), "room#r#media");
    assert_eq!(media_field("u", "video"), "u#video");
    assert_eq!(media_fields_of("u"), ("u#video".to_string(), "u#audio".to_string()));
    assert_eq!(pub_list_key("r"), "room#r#pub_list");
    assert_eq!(sub_list_key("r"), "room#r#sub_list");
    assert_eq!(KEY_TTL_SECS, 24 * 60 * 60);
}

#[test]
fn track_subjects() {
    assert_eq!(track_subject("r", "u", "video", "video0"), "rtc.r.u.video.video0");
}

#[test]
fn media_fields_are_read_back() {
    let raw = vec![("alice#video".to_string(), 2u8), ("bad".to_string(), 1u8), ("bob#audio#x".to_string(), 3u8)];
    let parsed: Vec<(String, String, u8)> =
        parse_media_entries(&raw).into_iter().map(|m| (m.user, m.mime, m.count)).collect();
    assert_eq!(
        parsed,
        vec![
            ("alice".to_string(), "video".to_string(), 2),
            ("bob".to_string(), "audio#x".to_string(), 3),
        ]
    );
    let field = media_field("carol", "audio");
    let back = parse_media_entries(&vec![(field, 1u8)]);
    assert_eq!(back[0].user, "carol");
    assert_eq!(back[0].mime, "audio");
}

#[test]
fn users_are_listed_with_commas() {
    assert_eq!(join_users(&vec![]), "");
    assert_eq!(join_users(&vec!["a".to_string()]), "a");
    assert_eq!(join_users(&vec!["a".to_string(), "b".to_string(), "c".to_string()]), "a,b,c");
}
