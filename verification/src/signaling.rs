//! Decisions taken on the events of a peer connection and of its "control" data channel.
use vstd::prelude::*;
use vstd::utf8::{valid_utf8, decode_utf8, encode_utf8, encode_utf8_valid_utf8, encode_utf8_decode_utf8};
use crate::command::{Command, CommandView, command_user, user_msg};
use crate::text::{before_first, has_prefix, join2, same_text, split_once_at, starts_with, cut_once, utf8_text, decimal, decimal_text, is_first_pos, lemma_first_pos};
use crate::transceivers::{video_text, audio_text};

verus! {

/// The states of a WebRTC peer connection.
#[derive(Clone, Copy, Debug, PartialEq, Eq, Structural)]
pub enum PeerConnectionState {
    Unspecified,
    New,
    Connecting,
    Connected,
    Disconnected,
    Failed,
    Closed,
}

/// What to do when a peer connection changes state.
#[derive(Clone, Copy, Debug, PartialEq, Eq, Structural)]
pub enum LinkReaction {
    /// Nothing.
    Stay,
    /// Record the peer in its room.
    Join,
    /// Wake whoever waits for the connection to close, and forget the peer.
    Leave,
}

pub open spec fn is_closing(s: PeerConnectionState) -> bool {
    s == PeerConnectionState::Failed || s == PeerConnectionState::Disconnected || s == PeerConnectionState::Closed
}

/// A publisher's connection, and whether its leaving has been handled already.
#[derive(Clone, Copy, Debug, PartialEq, Eq, Structural)]
pub struct PublisherLink {
    pub closed: bool,
}

/// A publisher's reaction to a state, and whether its leaving is handled afterwards.
/// A connection that goes to "disconnected" and soon after to "closed" leaves only once.
pub open spec fn publisher_step(closed: bool, s: PeerConnectionState) -> (bool, LinkReaction) {
    if s == PeerConnectionState::Connected {
        (closed, LinkReaction::Join)
    } else if is_closing(s) {
        if closed { (true, LinkReaction::Stay) } else { (true, LinkReaction::Leave) }
    } else {
        (closed, LinkReaction::Stay)
    }
}

/// A subscriber's reaction to a state.
pub open spec fn subscriber_step(s: PeerConnectionState) -> LinkReaction {
    if s == PeerConnectionState::Connected {
        LinkReaction::Join
    } else if is_closing(s) {
        LinkReaction::Leave
    } else {
        LinkReaction::Stay
    }
}

impl PublisherLink {
    pub fn new() -> (r: PublisherLink)
        ensures
            !r.closed,
    {
        PublisherLink { closed: false }
    }

    pub fn on_state(&mut self, s: PeerConnectionState) -> (r: LinkReaction)
        ensures
            (final(self).closed, r) == publisher_step(old(self).closed, s),
    {
        match s {
            PeerConnectionState::Connected => LinkReaction::Join,
            PeerConnectionState::Failed | PeerConnectionState::Disconnected | PeerConnectionState::Closed => {
                if self.closed {
                    LinkReaction::Stay
                } else {
                    self.closed = true;
                    LinkReaction::Leave
                }
            },
            _ => LinkReaction::Stay,
        }
    }
}

/// How a subscriber's connection reacts to a state.
pub fn subscriber_reaction(s: PeerConnectionState) -> (r: LinkReaction)
    ensures
        r == subscriber_step(s),
{
    match s {
        PeerConnectionState::Connected => LinkReaction::Join,
        PeerConnectionState::Failed | PeerConnectionState::Disconnected | PeerConnectionState::Closed => LinkReaction::Leave,
        _ => LinkReaction::Stay,
    }
}

/// The number of `Leave` reactions of a publisher link going through `states`, and whether
/// its leaving is handled at the end.
pub open spec fn publisher_run(closed: bool, states: Seq<PeerConnectionState>) -> (bool, nat)
    decreases states.len(),
{
    if states.len() == 0 {
        (closed, 0)
    } else {
        let (c, n) = publisher_run(closed, states.drop_last());
        let (c2, r) = publisher_step(c, states.last());
        (c2, if r == LinkReaction::Leave { n + 1 } else { n })
    }
}

/// Whatever states a publisher's connection goes through, its leaving is handled at most
/// once, and never once it has been.
pub proof fn lemma_publisher_leaves_once(closed: bool, states: Seq<PeerConnectionState>)
    ensures
        publisher_run(closed, states).1 <= 1,
        closed ==> publisher_run(closed, states).1 == 0,
        closed ==> publisher_run(closed, states).0,
        publisher_run(closed, states).1 == 1 ==> publisher_run(closed, states).0,
        publisher_run(closed, states).0 ==> closed || publisher_run(closed, states).1 == 1,
    decreases states.len(),
{
    if states.len() > 0 {
        lemma_publisher_leaves_once(closed, states.drop_last());
    }
}

/// A subscriber joins its room exactly when its connection is connected, and leaves it
/// exactly when the connection has failed, disconnected or closed; while it is new or
/// connecting nothing happens.
pub proof fn lemma_subscriber_reactions(s: PeerConnectionState)
    ensures
        (subscriber_step(s) == LinkReaction::Join) == (s == PeerConnectionState::Connected),
        (subscriber_step(s) == LinkReaction::Leave) == (s == PeerConnectionState::Failed
            || s == PeerConnectionState::Disconnected || s == PeerConnectionState::Closed),
        (subscriber_step(s) == LinkReaction::Stay) == (s == PeerConnectionState::Unspecified
            || s == PeerConnectionState::New || s == PeerConnectionState::Connecting),
{
}

/// A publisher joins its room whenever its connection is connected. A link that has not
/// left yet leaves on the first failed, disconnected or closed state and is then marked
/// closed; a closed link never leaves again; any other state changes nothing.
pub proof fn lemma_publisher_reactions(closed: bool, s: PeerConnectionState)
    ensures
        s == PeerConnectionState::Connected ==> publisher_step(closed, s) == (closed, LinkReaction::Join),
        (s == PeerConnectionState::Failed || s == PeerConnectionState::Disconnected || s == PeerConnectionState::Closed)
            ==> publisher_step(closed, s) == (true, if closed { LinkReaction::Stay } else { LinkReaction::Leave }),
        (s == PeerConnectionState::Unspecified || s == PeerConnectionState::New || s == PeerConnectionState::Connecting)
            ==> publisher_step(closed, s) == (closed, LinkReaction::Stay),
{
}

/// Where a subscriber stands in renegotiating its session with the browser.
#[derive(Clone, Copy, Debug, PartialEq, Eq, Structural)]
pub struct Renegotiation {
    /// An SDP offer was sent and its answer is awaited.
    pub in_progress: bool,
    /// Another round is needed once the current one is done.
    pub pending: bool,
}

/// What a subscriber does on a room command: the line for the browser, and whether to
/// refresh its tracks and send a new SDP offer.
pub struct RenegotiationStep {
    pub message: Option<String>,
    pub refresh: bool,
}

/// A round is only ever pending while another is in progress.
pub open spec fn renegotiation_ok(s: Renegotiation) -> bool {
    s.pending ==> s.in_progress
}

/// Whether a command is about the subscriber itself (the same "ID" before any '+').
pub open spec fn is_own_command(sub_user: Seq<char>, c: CommandView) -> bool {
    before_first(command_user(c), '+') == before_first(sub_user, '+')
}

/// On a command: the state after it, the line for the browser, and whether to renegotiate now.
pub open spec fn command_step(s: Renegotiation, sub_user: Seq<char>, c: CommandView) -> (Renegotiation, Option<Seq<char>>, bool) {
    if is_own_command(sub_user, c) {
        (s, None, false)
    } else if !s.in_progress {
        (Renegotiation { in_progress: true, pending: s.pending }, Some(user_msg(c)), true)
    } else {
        (Renegotiation { in_progress: s.in_progress, pending: true }, Some(user_msg(c)), false)
    }
}

/// On an applied SDP answer: the state after it, and whether to renegotiate again now.
pub open spec fn answer_step(s: Renegotiation) -> (Renegotiation, bool) {
    if s.pending {
        (Renegotiation { in_progress: s.in_progress, pending: false }, true)
    } else {
        (Renegotiation { in_progress: false, pending: s.pending }, false)
    }
}

impl Renegotiation {
    pub fn new() -> (r: Renegotiation)
        ensures
            !r.in_progress && !r.pending,
            renegotiation_ok(r),
    {
        Renegotiation { in_progress: false, pending: false }
    }

    /// The control channel opened: a first round starts at once.
    pub fn on_channel_open(&mut self) -> (refresh: bool)
        ensures
            refresh,
            final(self).in_progress,
            final(self).pending == old(self).pending,
            renegotiation_ok(*final(self)),
    {
        self.in_progress = true;
        true
    }

    /// A command about the room arrived for subscriber `sub_user`.
    pub fn on_command(&mut self, sub_user: &str, cmd: &Command) -> (r: RenegotiationStep)
        ensures
            ({
                let (s2, m, refresh) = command_step(*old(self), sub_user@, cmd@);
                &&& *final(self) == s2
                &&& r.refresh == refresh
                &&& match (r.message, m) {
                    (Some(x), Some(y)) => x@ == y,
                    (None, None) => true,
                    _ => false,
                }
            }),
            renegotiation_ok(*old(self)) ==> renegotiation_ok(*final(self)),
    {
        let user = match cmd {
            Command::PubJoin(u) => u,
            Command::PubLeft(u) => u,
        };
        let pub_id = crate::text::text_before(user.as_str(), '+');
        let sub_id = crate::text::text_before(sub_user, '+');
        if same_text(pub_id.as_str(), sub_id.as_str()) {
            return RenegotiationStep { message: None, refresh: false };
        }
        let message = Some(cmd.to_user_msg());
        if !self.in_progress {
            self.in_progress = true;
            RenegotiationStep { message, refresh: true }
        } else {
            self.pending = true;
            RenegotiationStep { message, refresh: false }
        }
    }

    /// The browser's SDP answer was applied.
    pub fn on_answer_applied(&mut self) -> (refresh: bool)
        ensures
            (*final(self), refresh) == answer_step(*old(self)),
            renegotiation_ok(*old(self)) ==> renegotiation_ok(*final(self)),
    {
        if self.pending {
            self.pending = false;
            true
        } else {
            self.in_progress = false;
            false
        }
    }
}

/// A command that arrives while a round is in progress is not lost: the answer that ends
/// the round starts the next one.
pub proof fn lemma_no_lost_renegotiation(s: Renegotiation, sub_user: Seq<char>, c: CommandView)
    requires
        renegotiation_ok(s),
        !is_own_command(sub_user, c),
    ensures
        ({
            let (s1, _, now) = command_step(s, sub_user, c);
            now || answer_step(s1).1
        }),
{
}

/// At most one round is in flight: a command starts a round exactly when none is in
/// progress, and an answer that starts none ends the round.
pub proof fn lemma_single_round(s: Renegotiation, sub_user: Seq<char>, c: CommandView)
    requires
        renegotiation_ok(s),
    ensures
        command_step(s, sub_user, c).2 == (!s.in_progress && !is_own_command(sub_user, c)),
        command_step(s, sub_user, c).0.in_progress == (s.in_progress || !is_own_command(sub_user, c)),
        !answer_step(s).1 ==> !answer_step(s).0.in_progress && !answer_step(s).0.pending,
        renegotiation_ok(command_step(s, sub_user, c).0),
        renegotiation_ok(answer_step(s).0),
{
}

/// On a command about another user (a different "ID" before any '+'), the subscriber tells
/// its browser "PUB_JOIN <user>" or "PUB_LEFT <user>"; it starts a round at once when none
/// is in progress, and otherwise marks one pending. A command about its own "ID" changes
/// nothing and tells nothing.
pub proof fn lemma_command_reaction(s: Renegotiation, sub_user: Seq<char>, c: CommandView)
    ensures
        ({
            let user = match c {
                CommandView::PubJoin(u) => u,
                CommandView::PubLeft(u) => u,
            };
            let line = match c {
                CommandView::PubJoin(u) => seq!['P', 'U', 'B', '_', 'J', 'O', 'I', 'N', ' '] + u,
                CommandView::PubLeft(u) => seq!['P', 'U', 'B', '_', 'L', 'E', 'F', 'T', ' '] + u,
            };
            let (s2, m, refresh) = command_step(s, sub_user, c);
            if before_first(user, '+') == before_first(sub_user, '+') {
                s2 == s && m is None && !refresh
            } else {
                &&& m == Some(line)
                &&& refresh == !s.in_progress
                &&& s2.in_progress
                &&& s2.pending == (s.pending || s.in_progress)
            }
        }),
{
    match c {
        CommandView::PubJoin(u) => {
            assert(user_msg(c) =~= seq!['P', 'U', 'B', '_', 'J', 'O', 'I', 'N', ' '] + u);
        },
        CommandView::PubLeft(u) => {
            assert(user_msg(c) =~= seq!['P', 'U', 'B', '_', 'L', 'E', 'F', 'T', ' '] + u);
        },
    }
}

/// An applied answer starts the pending round at once, which is then in progress with
/// nothing pending; with no round pending it ends the current one and starts none.
pub proof fn lemma_answer_reaction(s: Renegotiation)
    requires
        renegotiation_ok(s),
    ensures
        s.pending ==> answer_step(s) == (Renegotiation { in_progress: true, pending: false }, true),
        !s.pending ==> answer_step(s) == (Renegotiation { in_progress: false, pending: false }, false),
{
}

/// What a browser asks over the control data channel.
#[derive(Debug, PartialEq, Eq)]
pub enum ChannelRequest {
    /// A session description (an SDP offer from a publisher, an SDP answer from a subscriber).
    Sdp(String),
    /// The keyword of a session description without its text.
    Malformed,
    /// "STOP".
    Stop,
    /// Anything else; it is acknowledged with "OK".
    Other,
}

pub enum ChannelRequestView {
    Sdp(Seq<char>),
    Malformed,
    Stop,
    Other,
}

impl View for ChannelRequest {
    type V = ChannelRequestView;
    open spec fn view(&self) -> ChannelRequestView {
        match self {
            ChannelRequest::Sdp(s) => ChannelRequestView::Sdp(s@),
            ChannelRequest::Malformed => ChannelRequestView::Malformed,
            ChannelRequest::Stop => ChannelRequestView::Stop,
            ChannelRequest::Other => ChannelRequestView::Other,
        }
    }
}

pub open spec fn stop_word() -> Seq<char> {
    seq!['S', 'T', 'O', 'P']
}

pub open spec fn sdp_offer_word() -> Seq<char> {
    seq!['S', 'D', 'P', '_', 'O', 'F', 'F', 'E', 'R']
}

pub open spec fn sdp_answer_word() -> Seq<char> {
    seq!['S', 'D', 'P', '_', 'A', 'N', 'S', 'W', 'E', 'R']
}

/// The text of a data channel message: its UTF-8 decoding, or nothing when it is not UTF-8.
pub open spec fn message_text(bytes: Seq<u8>) -> Seq<char> {
    if valid_utf8(bytes) { decode_utf8(bytes) } else { seq![] }
}

/// A message that begins with `keyword` carries the description after its first space.
pub open spec fn request_of(text: Seq<char>, keyword: Seq<char>) -> ChannelRequestView {
    if starts_with(text, keyword) {
        match split_once_at(text, ' ') {
            Some((_, rest)) => ChannelRequestView::Sdp(rest),
            None => ChannelRequestView::Malformed,
        }
    } else if text == stop_word() {
        ChannelRequestView::Stop
    } else {
        ChannelRequestView::Other
    }
}

/// A publisher's "SDP_OFFER " followed by any description, line breaks and spaces
/// included, is read as that whole description; so is a subscriber's "SDP_ANSWER ".
/// Exactly "STOP" is read as a stop for both.
pub proof fn lemma_sdp_requests(sdp: Seq<char>)
    ensures
        request_of(
            message_text(encode_utf8(seq!['S', 'D', 'P', '_', 'O', 'F', 'F', 'E', 'R', ' '] + sdp)),
            sdp_offer_word(),
        ) == ChannelRequestView::Sdp(sdp),
        request_of(
            message_text(encode_utf8(seq!['S', 'D', 'P', '_', 'A', 'N', 'S', 'W', 'E', 'R', ' '] + sdp)),
            sdp_answer_word(),
        ) == ChannelRequestView::Sdp(sdp),
        request_of(message_text(encode_utf8(seq!['S', 'T', 'O', 'P'])), sdp_offer_word()) == ChannelRequestView::Stop,
        request_of(message_text(encode_utf8(seq!['S', 'T', 'O', 'P'])), sdp_answer_word()) == ChannelRequestView::Stop,
{
    lemma_keyword_sdp(seq!['S', 'D', 'P', '_', 'O', 'F', 'F', 'E', 'R'], sdp);
    lemma_keyword_sdp(seq!['S', 'D', 'P', '_', 'A', 'N', 'S', 'W', 'E', 'R'], sdp);
    assert(seq!['S', 'D', 'P', '_', 'O', 'F', 'F', 'E', 'R', ' '] + sdp
        =~= seq!['S', 'D', 'P', '_', 'O', 'F', 'F', 'E', 'R'] + seq![' '] + sdp);
    assert(seq!['S', 'D', 'P', '_', 'A', 'N', 'S', 'W', 'E', 'R', ' '] + sdp
        =~= seq!['S', 'D', 'P', '_', 'A', 'N', 'S', 'W', 'E', 'R'] + seq![' '] + sdp);
    assert(sdp_offer_word() =~= seq!['S', 'D', 'P', '_', 'O', 'F', 'F', 'E', 'R']);
    assert(sdp_answer_word() =~= seq!['S', 'D', 'P', '_', 'A', 'N', 'S', 'W', 'E', 'R']);
    let stop = seq!['S', 'T', 'O', 'P'];
    encode_utf8_valid_utf8(stop);
    encode_utf8_decode_utf8(stop);
    assert(stop =~= stop_word());
    assert(!starts_with(stop, sdp_offer_word()));
    assert(!starts_with(stop, sdp_answer_word()));
}

proof fn lemma_keyword_sdp(keyword: Seq<char>, sdp: Seq<char>)
    requires
        forall|i: int| 0 <= i < keyword.len() ==> keyword[i] != ' ',
    ensures
        request_of(message_text(encode_utf8(keyword + seq![' '] + sdp)), keyword) == ChannelRequestView::Sdp(sdp),
{
    let t = keyword + seq![' '] + sdp;
    encode_utf8_valid_utf8(t);
    encode_utf8_decode_utf8(t);
    assert(t.take(keyword.len() as int) =~= keyword);
    assert(is_first_pos(t, ' ', keyword.len() as int));
    lemma_first_pos(t, ' ', keyword.len() as int);
    assert(t.skip(keyword.len() as int + 1) =~= sdp);
}

fn classify(bytes: &[u8], keyword: &str) -> (r: ChannelRequest)
    ensures
        r@ == request_of(message_text(bytes@), keyword@),
{
    let text = match utf8_text(bytes) {
        Some(t) => t,
        None => String::new(),
    };
    let stop = "STOP";
    proof {
        reveal_strlit("STOP");
        assert(stop@ =~= stop_word());
    }
    if has_prefix(text.as_str(), keyword) {
        match cut_once(text.as_str(), ' ') {
            Some((_, rest)) => ChannelRequest::Sdp(rest),
            None => ChannelRequest::Malformed,
        }
    } else if same_text(text.as_str(), stop) {
        ChannelRequest::Stop
    } else {
        ChannelRequest::Other
    }
}

/// A publisher's control message: "SDP_OFFER <sdp>" renegotiates, "STOP" closes.
pub fn publisher_request(bytes: &[u8]) -> (r: ChannelRequest)
    ensures
        r@ == request_of(message_text(bytes@), sdp_offer_word()),
{
    let k = "SDP_OFFER";
    proof {
        reveal_strlit("SDP_OFFER");
        assert(k@ =~= sdp_offer_word());
    }
    classify(bytes, k)
}

/// A subscriber's control message: "SDP_ANSWER <sdp>" completes a renegotiation.
pub fn subscriber_request(bytes: &[u8]) -> (r: ChannelRequest)
    ensures
        r@ == request_of(message_text(bytes@), sdp_answer_word()),
{
    let k = "SDP_ANSWER";
    proof {
        reveal_strlit("SDP_ANSWER");
        assert(k@ =~= sdp_answer_word());
    }
    classify(bytes, k)
}

/// What is sent back on a control message: "OK" to anything that is not a session
/// description or "STOP", so the browser knows it was received; nothing otherwise.
pub fn acknowledgement(r: &ChannelRequest) -> (a: Option<String>)
    ensures
        match r@ {
            ChannelRequestView::Other => a matches Some(t) && t@ == "OK"@,
            _ => a is None,
        },
{
    match r {
        ChannelRequest::Other => Some("OK".to_owned()),
        _ => None,
    }
}

pub open spec fn control_word() -> Seq<char> {
    seq!['c', 'o', 'n', 't', 'r', 'o', 'l']
}

/// Only the data channel labelled "control" carries signaling.
pub fn is_control_channel(label: &str) -> (r: bool)
    ensures
        r == (label@ == control_word()),
{
    let c = "control";
    proof {
        reveal_strlit("control");
        assert(c@ =~= control_word());
    }
    same_text(label, c)
}

/// "SDP_OFFER <sdp>", sent to a subscriber.
pub fn sdp_offer_message(sdp: &str) -> (r: String)
    ensures
        r@ == sdp_offer_word() + seq![' '] + sdp@,
{
    let k = "SDP_OFFER ";
    proof {
        reveal_strlit("SDP_OFFER ");
        assert(k@ =~= sdp_offer_word() + seq![' ']);
    }
    join2(k, sdp)
}

/// "SDP_ANSWER <sdp>", sent to a publisher.
pub fn sdp_answer_message(sdp: &str) -> (r: String)
    ensures
        r@ == sdp_answer_word() + seq![' '] + sdp@,
{
    let k = "SDP_ANSWER ";
    proof {
        reveal_strlit("SDP_ANSWER ");
        assert(k@ =~= sdp_answer_word() + seq![' ']);
    }
    join2(k, sdp)
}

/// Counts of the tracks a publisher has sent so far, in all and per kind.
#[derive(Clone, Copy, Debug, PartialEq, Eq, Structural)]
pub struct TrackCounter {
    pub tracks: u8,
    pub video: u8,
    pub audio: u8,
}

/// A new track of kind `kind`: its app id ("video<n>" or "audio<n>", counting per kind
/// from 0) and the number of tracks received so far, this one included.
pub open spec fn track_step(c: TrackCounter, kind: Seq<char>) -> (TrackCounter, Seq<char>, u8) {
    if kind == video_text() {
        (TrackCounter { tracks: (c.tracks + 1) as u8, video: c.video.wrapping_add(1), audio: c.audio }, kind + decimal(c.video as nat), (c.tracks + 1) as u8)
    } else {
        (TrackCounter { tracks: (c.tracks + 1) as u8, video: c.video, audio: c.audio.wrapping_add(1) }, kind + decimal(c.audio as nat), (c.tracks + 1) as u8)
    }
}

impl TrackCounter {
    pub fn new() -> (r: TrackCounter)
        ensures
            r.tracks == 0 && r.video == 0 && r.audio == 0,
    {
        TrackCounter { tracks: 0, video: 0, audio: 0 }
    }

    /// Counts a new track of kind "video" or "audio".
    pub fn on_track(&mut self, kind: &str) -> (r: (String, u8))
        requires
            old(self).tracks < 255,
            kind@ == video_text() || kind@ == audio_text(),
        ensures
            ({
                let (c, app_id, count) = track_step(*old(self), kind@);
                *final(self) == c && r.0@ == app_id && r.1 == count
            }),
    {
        let count = self.tracks + 1;
        self.tracks = count;
        let v = "video";
        proof {
            reveal_strlit("video");
            assert(v@ =~= video_text());
        }
        let n = if same_text(kind, v) {
            let n = self.video;
            self.video = self.video.wrapping_add(1);
            n
        } else {
            let n = self.audio;
            self.audio = self.audio.wrapping_add(1);
            n
        };
        let digits = decimal_text(n as u64);
        (join2(kind, digits.as_str()), count)
    }
}

/// Subscribers are told that a publisher joined once it has a track on every transceiver.
pub fn all_tracks_ready(count: u8, total: usize) -> (r: bool)
    ensures
        r == (count as int >= total as int),
{
    count as usize >= total
}

/// How many of `kinds` are `kind`.
pub open spec fn count_kind(kinds: Seq<Seq<char>>, kind: Seq<char>) -> nat
    decreases kinds.len(),
{
    if kinds.len() == 0 {
        0
    } else {
        count_kind(kinds.drop_last(), kind) + if kinds.last() == kind { 1nat } else { 0nat }
    }
}

/// The counter after tracks of `kinds` came in, in this order, from a new counter.
pub open spec fn counter_after(kinds: Seq<Seq<char>>) -> TrackCounter
    decreases kinds.len(),
{
    if kinds.len() == 0 {
        TrackCounter { tracks: 0, video: 0, audio: 0 }
    } else {
        track_step(counter_after(kinds.drop_last()), kinds.last()).0
    }
}

pub open spec fn video_or_audio(kinds: Seq<Seq<char>>) -> bool {
    forall|i: int| 0 <= i < kinds.len() ==> #[trigger] kinds[i] == video_text() || kinds[i] == audio_text()
}

proof fn lemma_counter_after(kinds: Seq<Seq<char>>)
    requires
        kinds.len() <= 255,
        video_or_audio(kinds),
    ensures
        counter_after(kinds).tracks == kinds.len(),
        counter_after(kinds).video == count_kind(kinds, video_text()),
        counter_after(kinds).audio == count_kind(kinds, audio_text()),
        count_kind(kinds, video_text()) + count_kind(kinds, audio_text()) == kinds.len(),
    decreases kinds.len(),
{
    reveal_strlit("video");
    if kinds.len() > 0 {
        let init = kinds.drop_last();
        assert(video_or_audio(init)) by {
            assert forall|i: int| 0 <= i < init.len() implies #[trigger] init[i] == video_text() || init[i] == audio_text() by {
                assert(init[i] == kinds[i]);
            }
        }
        lemma_counter_after(init);
        assert(kinds.last() == kinds[kinds.len() - 1]);
        assert(video_text() != audio_text()) by {
            assert(video_text()[0] != audio_text()[0]);
        }
    }
}

/// Over any run of at most 255 tracks, each "video" or "audio", counted from a new counter,
/// the track at position `k` is the `(k+1)`-th track in all, and its app id is its kind
/// followed by the number of earlier tracks of the same kind: video, audio, video give
/// "video0", "audio0", "video1".
pub proof fn lemma_track_ids(kinds: Seq<Seq<char>>, k: int)
    requires
        kinds.len() <= 255,
        video_or_audio(kinds),
        0 <= k < kinds.len(),
    ensures
        counter_after(kinds.take(k)).tracks < 255,
        ({
            let (_, app_id, count) = track_step(counter_after(kinds.take(k)), kinds[k]);
            &&& app_id == kinds[k] + decimal(count_kind(kinds.take(k), kinds[k]))
            &&& count == k + 1
        }),
{
    let pre = kinds.take(k);
    assert(video_or_audio(pre)) by {
        assert forall|i: int| 0 <= i < pre.len() implies #[trigger] pre[i] == video_text() || pre[i] == audio_text() by {
            assert(pre[i] == kinds[i]);
        }
    }
    lemma_counter_after(pre);
    assert(kinds[k] == video_text() || kinds[k] == audio_text());
}

}
