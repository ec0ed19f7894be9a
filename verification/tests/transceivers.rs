use rion::transceivers::{
    base_user_id, plan_inputs_ok, plan_transceiver_update, try_plan_transceiver_update, MediaCount, MediaKind, TrackKey,
};

fn media(user: &str, mime: &str, count: u8) -> MediaCount {
    MediaCount { user: user.to_string(), mime: mime.to_string(), count }
}

fn key(user: &str, track_id: &str) -> TrackKey {
    TrackKey { user: user.to_string(), track_id: track_id.to_string() }
}

#[test]
fn base_id_drops_the_random_part() {
    assert_eq!(base_user_id("a+b+c"), "a");
    assert_eq!(base_user_id("abc"), "abc");
    assert_eq!(base_user_id("+x"), "");
}

#[test]
fn plan_adds_missing_tracks_of_others() {
    let m = vec![
        media("alice+1", "video", 2),
        media("bob+9", "audio", 1),
        media("bob-screen+2", "video", 1),
        media("carol", "audio", 1),
    ];
    let tracks = vec![key("alice+1", "video0")];
    let senders = vec![key("alice+1", "video0"), key("dave", "audio0"), key("carol", "video0")];
    let plan = plan_transceiver_update("bob+123", &m, &tracks, &senders);
    let adds: Vec<(String, String, MediaKind)> =
        plan.add.into_iter().map(|a| (a.user, a.track_id, a.kind)).collect();
    assert_eq!(
        adds,
        vec![
            ("alice+1".to_string(), "video1".to_string(), MediaKind::Video),
            ("carol".to_string(), "audio0".to_string(), MediaKind::Audio),
        ]
    );
    let removes: Vec<(String, String)> = plan.remove.into_iter().map(|k| (k.user, k.track_id)).collect();
    assert_eq!(
        removes,
        vec![("dave".to_string(), "audio0".to_string()), ("carol".to_string(), "video0".to_string())]
    );
}

#[test]
fn plan_counts_track_indices_in_decimal() {
    let m = vec![media("alice", "video", 12)];
    let plan = plan_transceiver_update("bob", &m, &vec![], &vec![]);
    let ids: Vec<String> = plan.add.into_iter().map(|a| a.track_id).collect();
    assert_eq!(ids.len(), 12);
    assert_eq!(ids[0], "video0");
    assert_eq!(ids[10], "video10");
    assert_eq!(ids[11], "video11");
}

#[test]
fn plan_for_empty_room_drops_everything() {
    let plan = plan_transceiver_update("bob", &vec![], &vec![key("a", "video0")], &vec![key("a", "video0")]);
    assert!(plan.add.is_empty());
    assert_eq!(plan.remove.len(), 1);
}

#[test]
fn second_plan_changes_nothing() {
    let m = vec![media("alice", "video", 2), media("carol", "audio", 1), media("bob", "video", 1)];
    let mut tracks = vec![key("alice", "video0"), key("gone", "video0")];
    let mut senders = vec![key("alice", "video0"), key("gone", "video0")];
    let plan = plan_transceiver_update("bob+7", &m, &tracks, &senders);
    senders.retain(|s| !plan.remove.iter().any(|r| r.user == s.user && r.track_id == s.track_id));
    tracks.retain(|s| !plan.remove.iter().any(|r| r.user == s.user && r.track_id == s.track_id));
    for a in &plan.add {
        tracks.push(key(&a.user, &a.track_id));
        senders.insert(0, key(&a.user, &a.track_id));
    }
    assert_eq!(tracks.len(), 3);
    let again = plan_transceiver_update("bob+7", &m, &tracks, &senders);
    assert!(again.add.is_empty());
    assert!(again.remove.is_empty());
    assert_eq!(senders.len(), 3);
}

#[test]
fn unknown_kind_is_reported_before_planning() {
    let m = vec![media("alice", "screen", 1)];
    assert!(!plan_inputs_ok("bob", &m, &vec![], &vec![]));
    assert!(try_plan_transceiver_update("bob", &m, &vec![], &vec![]).is_none());
    assert!(plan_inputs_ok("alice+2", &m, &vec![], &vec![]));
    assert!(plan_inputs_ok("bob", &m, &vec![key("alice", "screen0")], &vec![]));
    assert!(!plan_inputs_ok("bob", &vec![], &vec![], &vec![key("a", "vid")]));
    assert!(!plan_inputs_ok("bob", &vec![], &vec![], &vec![key("a", "videé0")]));
}

#[test]
fn plan_adds_each_track_once() {
    let m = vec![media("alice", "video", 12), media("alice", "audio", 1), media("carol", "video", 1)];
    let plan = plan_transceiver_update("bob", &m, &vec![], &vec![]);
    assert_eq!(plan.add.len(), 14);
    for i in 0..plan.add.len() {
        for j in (i + 1)..plan.add.len() {
            assert!(plan.add[i].user != plan.add[j].user || plan.add[i].track_id != plan.add[j].track_id);
        }
    }
    assert_eq!(plan.add[1].track_id, "video1");
    assert_eq!(plan.add[11].track_id, "video11");
}
