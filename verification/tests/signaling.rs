use rion::command::Command;
use rion::signaling::{
    acknowledgement, all_tracks_ready, is_control_channel, publisher_request, sdp_answer_message, sdp_offer_message, subscriber_reaction,
    subscriber_request, ChannelRequest, LinkReaction, PeerConnectionState, PublisherLink, Renegotiation,
    TrackCounter,
};

#[test]
fn publisher_leaves_only_once() {
    let mut link = PublisherLink::new();
    assert_eq!(link.on_state(PeerConnectionState::Connecting), LinkReaction::Stay);
    assert_eq!(link.on_state(PeerConnectionState::Connected), LinkReaction::Join);
    assert_eq!(link.on_state(PeerConnectionState::Disconnected), LinkReaction::Leave);
    assert_eq!(link.on_state(PeerConnectionState::Closed), LinkReaction::Stay);
    assert_eq!(link.on_state(PeerConnectionState::Failed), LinkReaction::Stay);
}

#[test]
fn subscriber_reacts_to_every_close() {
    assert_eq!(subscriber_reaction(PeerConnectionState::Connected), LinkReaction::Join);
    assert_eq!(subscriber_reaction(PeerConnectionState::Failed), LinkReaction::Leave);
    assert_eq!(subscriber_reaction(PeerConnectionState::Closed), LinkReaction::Leave);
    assert_eq!(subscriber_reaction(PeerConnectionState::Disconnected), LinkReaction::Leave);
    assert_eq!(subscriber_reaction(PeerConnectionState::New), LinkReaction::Stay);
}

#[test]
fn renegotiation_waits_for_the_answer() {
    let mut r = Renegotiation::new();
    assert!(r.on_channel_open());
    let step = r.on_command("bob+1", &Command::PubJoin("alice+2".to_string()));
    assert_eq!(step.message, Some("PUB_JOIN alice+2".to_string()));
    assert!(!step.refresh);
    assert!(r.pending);
    assert!(r.on_answer_applied());
    assert!(r.in_progress && !r.pending);
    assert!(!r.on_answer_applied());
    assert!(!r.in_progress);
}

#[test]
fn renegotiation_starts_when_idle() {
    let mut r = Renegotiation::new();
    let step = r.on_command("bob", &Command::PubLeft("alice".to_string()));
    assert_eq!(step.message, Some("PUB_LEFT alice".to_string()));
    assert!(step.refresh);
    assert!(r.in_progress && !r.pending);
}

#[test]
fn own_commands_are_ignored() {
    let mut r = Renegotiation::new();
    let step = r.on_command("bob+1", &Command::PubJoin("bob+2".to_string()));
    assert_eq!(step.message, None);
    assert!(!step.refresh);
    assert!(!r.in_progress && !r.pending);
}

#[test]
fn publisher_control_messages() {
    assert_eq!(publisher_request(b"SDP_OFFER v=0 x"), ChannelRequest::Sdp("v=0 x".to_string()));
    assert_eq!(publisher_request(b"SDP_OFFER"), ChannelRequest::Malformed);
    assert_eq!(publisher_request(b"STOP"), ChannelRequest::Stop);
    assert_eq!(publisher_request(b"hello"), ChannelRequest::Other);
    assert_eq!(publisher_request(&[0xff, 0xfe]), ChannelRequest::Other);
    assert_eq!(publisher_request(b"SDP_ANSWER x"), ChannelRequest::Other);
}

#[test]
fn subscriber_control_messages() {
    assert_eq!(subscriber_request(b"SDP_ANSWER x y"), ChannelRequest::Sdp("x y".to_string()));
    assert_eq!(subscriber_request(b"SDP_ANSWERx y"), ChannelRequest::Sdp("y".to_string()));
    assert_eq!(subscriber_request(b"STOP"), ChannelRequest::Stop);
    assert_eq!(subscriber_request(b"STOP "), ChannelRequest::Other);
}

#[test]
fn sdp_messages_carry_the_description() {
    assert_eq!(sdp_offer_message("v=0"), "SDP_OFFER v=0");
    assert_eq!(sdp_answer_message("v=0"), "SDP_ANSWER v=0");
}

#[test]
fn tracks_are_numbered_per_kind() {
    let mut c = TrackCounter::new();
    assert_eq!(c.on_track("video"), ("video0".to_string(), 1));
    assert_eq!(c.on_track("audio"), ("audio0".to_string(), 2));
    assert_eq!(c.on_track("video"), ("video1".to_string(), 3));
    assert!(all_tracks_ready(2, 2));
    assert!(all_tracks_ready(3, 2));
    assert!(!all_tracks_ready(1, 2));
}

#[test]
fn only_plain_messages_are_acknowledged() {
    assert_eq!(acknowledgement(&ChannelRequest::Other), Some("OK".to_string()));
    assert_eq!(acknowledgement(&ChannelRequest::Stop), None);
    assert_eq!(acknowledgement(&ChannelRequest::Malformed), None);
    assert_eq!(acknowledgement(&ChannelRequest::Sdp("x".to_string())), None);
    assert!(is_control_channel("control"));
    assert!(!is_control_channel("chat"));
}
