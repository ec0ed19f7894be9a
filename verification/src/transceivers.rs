//! Which remote tracks a subscriber's peer connection gains or drops when the
//! media published in its room changes.
use vstd::prelude::*;
use vstd::utf8::*;
use vstd::string::StringSliceAdditionalSpecFns;
use crate::text::{before_first, decimal, decimal_text, digit_char, join2, same_text, text_before};

verus! {

broadcast use vstd::utf8::encode_utf8_decode_utf8, vstd::utf8::encode_utf8_valid_utf8;

/// How many tracks of one kind (`mime`, e.g. "video") a publisher has announced in a room.
/// A room's counts are read from a hash into a vector (`parse_media_entries`), which keeps
/// each (user, kind) pair once (`distinct_media`).
pub struct MediaCount {
    pub user: String,
    pub mime: String,
    pub count: u8,
}

/// A track held by a subscriber, named by its publisher and its track id (e.g. "video0").
pub struct TrackKey {
    pub user: String,
    pub track_id: String,
}

#[derive(Clone, Copy, Debug, PartialEq, Eq, Structural)]
pub enum MediaKind {
    Video,
    Audio,
}

/// A track that the subscriber's peer connection must add.
pub struct TrackAddition {
    pub user: String,
    pub track_id: String,
    pub kind: MediaKind,
}

/// The tracks to add and the tracks to drop, each in the order in which to act on them.
pub struct TransceiverPlan {
    pub add: Vec<TrackAddition>,
    pub remove: Vec<TrackKey>,
}

impl View for MediaCount {
    type V = (Seq<char>, Seq<char>, nat);
    open spec fn view(&self) -> (Seq<char>, Seq<char>, nat) {
        (self.user@, self.mime@, self.count as nat)
    }
}

impl View for TrackKey {
    type V = (Seq<char>, Seq<char>);
    open spec fn view(&self) -> (Seq<char>, Seq<char>) {
        (self.user@, self.track_id@)
    }
}

impl View for TrackAddition {
    type V = (Seq<char>, Seq<char>, MediaKind);
    open spec fn view(&self) -> (Seq<char>, Seq<char>, MediaKind) {
        (self.user@, self.track_id@, self.kind)
    }
}

pub open spec fn video_text() -> Seq<char> {
    seq!['v', 'i', 'd', 'e', 'o']
}

pub open spec fn audio_text() -> Seq<char> {
    seq!['a', 'u', 'd', 'i', 'o']
}

pub open spec fn screen_suffix() -> Seq<char> {
    seq!['-', 's', 'c', 'r', 'e', 'e', 'n']
}

/// A user id of the form "ID+RANDOM" names the person "ID".
pub open spec fn base_id(user: Seq<char>) -> Seq<char> {
    before_first(user, '+')
}

/// Media of `publisher` is the subscriber's own (its camera or its screen share)
/// and is never pulled back to it.
pub open spec fn is_own_media(sub_id: Seq<char>, publisher: Seq<char>) -> bool {
    base_id(publisher) == sub_id || base_id(publisher) == sub_id + screen_suffix()
}

pub open spec fn track_id_of(mime: Seq<char>, index: nat) -> Seq<char> {
    mime + decimal(index)
}

pub open spec fn kind_of(mime: Seq<char>) -> MediaKind {
    if mime == video_text() { MediaKind::Video } else { MediaKind::Audio }
}

pub open spec fn known_kind(mime: Seq<char>) -> bool {
    mime == video_text() || mime == audio_text()
}

/// No (user, kind) pair is announced twice.
pub open spec fn distinct_media(media: Seq<(Seq<char>, Seq<char>, nat)>) -> bool {
    forall|i: int, j: int| 0 <= i < j < media.len() ==> (#[trigger] media[i]).0 != (#[trigger] media[j]).0
        || media[i].1 != media[j].1
}

pub open spec fn key_set(tracks: Seq<TrackKey>) -> Set<(Seq<char>, Seq<char>)> {
    Set::new(|k: (Seq<char>, Seq<char>)| exists|i: int| 0 <= i < tracks.len() && #[trigger] tracks[i]@ == k)
}

/// Additions for the first `n` track indices of one media entry.
pub open spec fn index_adds(
    e: (Seq<char>, Seq<char>, nat),
    tracks: Set<(Seq<char>, Seq<char>)>,
    n: nat,
) -> Seq<(Seq<char>, Seq<char>, MediaKind)>
    decreases n,
{
    if n == 0 {
        seq![]
    } else {
        let i = (n - 1) as nat;
        let rest = index_adds(e, tracks, i);
        if tracks.contains((e.0, track_id_of(e.1, i))) {
            rest
        } else {
            rest.push((e.0, track_id_of(e.1, i), kind_of(e.1)))
        }
    }
}

pub open spec fn entry_adds(
    sub_id: Seq<char>,
    e: (Seq<char>, Seq<char>, nat),
    tracks: Set<(Seq<char>, Seq<char>)>,
) -> Seq<(Seq<char>, Seq<char>, MediaKind)> {
    if is_own_media(sub_id, e.0) {
        seq![]
    } else {
        index_adds(e, tracks, e.2)
    }
}

/// The tracks to add: for each media entry in order that is not the subscriber's own,
/// each of its track indices in order whose track the subscriber does not hold yet.
pub open spec fn planned_adds(
    sub_id: Seq<char>,
    media: Seq<(Seq<char>, Seq<char>, nat)>,
    tracks: Set<(Seq<char>, Seq<char>)>,
) -> Seq<(Seq<char>, Seq<char>, MediaKind)>
    decreases media.len(),
{
    if media.len() == 0 {
        seq![]
    } else {
        planned_adds(sub_id, media.drop_last(), tracks) + entry_adds(sub_id, media.last(), tracks)
    }
}

/// Every track that the plan would add is of a known kind.
pub open spec fn kinds_known(
    sub_id: Seq<char>,
    media: Seq<(Seq<char>, Seq<char>, nat)>,
    tracks: Set<(Seq<char>, Seq<char>)>,
) -> bool {
    forall|j: int, i: nat|
        0 <= j < media.len() && !is_own_media(sub_id, #[trigger] media[j].0) && i < media[j].2
            && !tracks.contains((media[j].0, #[trigger] track_id_of(media[j].1, i)))
            ==> known_kind(media[j].1)
}

/// The kind part of a track id: the text of its first five bytes.
pub open spec fn mime_prefix(track_id: Seq<char>) -> Seq<char> {
    decode_utf8(encode_utf8(track_id).take(5))
}

pub open spec fn prefix_splittable(track_id: Seq<char>) -> bool {
    is_char_boundary(encode_utf8(track_id), 5)
}

pub open spec fn media_has(media: Seq<(Seq<char>, Seq<char>, nat)>, user: Seq<char>, mime: Seq<char>) -> bool {
    exists|i: int| 0 <= i < media.len() && #[trigger] media[i].0 == user && media[i].1 == mime
}

/// The held tracks to drop, in order: those whose publisher no longer announces media of their kind.
pub open spec fn planned_removals(
    media: Seq<(Seq<char>, Seq<char>, nat)>,
    senders: Seq<(Seq<char>, Seq<char>)>,
) -> Seq<(Seq<char>, Seq<char>)>
    decreases senders.len(),
{
    if senders.len() == 0 {
        seq![]
    } else {
        let rest = planned_removals(media, senders.drop_last());
        let k = senders.last();
        if media_has(media, k.0, mime_prefix(k.1)) {
            rest
        } else {
            rest.push(k)
        }
    }
}

fn holds_key(tracks: &Vec<TrackKey>, user: &str, track_id: &str) -> (r: bool)
    ensures
        r == key_set(tracks@).contains((user@, track_id@)),
{
    let mut i: usize = 0;
    while i < tracks.len()
        invariant
            i <= tracks.len(),
            forall|j: int| 0 <= j < i ==> tracks@[j]@ != (user@, track_id@),
        decreases tracks.len() - i,
    {
        if same_text(tracks[i].user.as_str(), user) && same_text(tracks[i].track_id.as_str(), track_id) {
            assert(tracks@[i as int]@ == (user@, track_id@));
            return true;
        }
        i = i + 1;
    }
    false
}

fn announces(media: &Vec<MediaCount>, user: &str, mime: &str) -> (r: bool)
    ensures
        r == media_has(media@.map_values(|m: MediaCount| m@), user@, mime@),
{
    let ghost mv = media@.map_values(|m: MediaCount| m@);
    let mut i: usize = 0;
    while i < media.len()
        invariant
            i <= media.len(),
            mv == media@.map_values(|m: MediaCount| m@),
            forall|j: int| 0 <= j < i ==> !(mv[j].0 == user@ && mv[j].1 == mime@),
        decreases media.len() - i,
    {
        if same_text(media[i].user.as_str(), user) && same_text(media[i].mime.as_str(), mime) {
            assert(mv[i as int].0 == user@);
            return true;
        }
        i = i + 1;
    }
    false
}

/// The id "ID" of a user named "ID+RANDOM" (the whole name when it holds no '+').
pub fn base_user_id(user: &str) -> (r: String)
    ensures
        r@ == base_id(user@),
{
    text_before(user, '+')
}

fn kind_text(mime: &str) -> (r: Option<MediaKind>)
    ensures
        r == (if known_kind(mime@) { Some(kind_of(mime@)) } else { None }),
{
    let v = "video";
    let a = "audio";
    proof {
        reveal_strlit("video");
        reveal_strlit("audio");
        assert(v@ =~= video_text());
        assert(a@ =~= audio_text());
    }
    if same_text(mime, v) {
        Some(MediaKind::Video)
    } else if same_text(mime, a) {
        Some(MediaKind::Audio)
    } else {
        None
    }
}

fn own_media(sub_id: &str, sub_screen: &str, publisher: &str) -> (r: bool)
    requires
        sub_screen@ == sub_id@ + screen_suffix(),
    ensures
        r == is_own_media(sub_id@, publisher@),
{
    let pub_id = base_user_id(publisher);
    same_text(pub_id.as_str(), sub_id) || same_text(pub_id.as_str(), sub_screen)
}

/// Whether `plan_transceiver_update` may be called on these inputs: every track it would add
/// is of a known kind, and every sent track's id can be cut after its fifth byte.
pub fn plan_inputs_ok(sub_user: &str, media: &Vec<MediaCount>, tracks: &Vec<TrackKey>, senders: &Vec<TrackKey>) -> (r: bool)
    ensures
        r == (kinds_known(base_id(sub_user@), media@.map_values(|m: MediaCount| m@), key_set(tracks@))
            && forall|i: int| 0 <= i < senders@.len() ==> prefix_splittable(#[trigger] senders@[i].track_id@)),
{
    let ghost mv = media@.map_values(|m: MediaCount| m@);
    let ghost ts = key_set(tracks@);
    let sub_id = base_user_id(sub_user);
    let screen = "-screen";
    proof { reveal_strlit("-screen"); }
    let sub_screen = join2(sub_id.as_str(), screen);
    let ghost sid = sub_id@;
    let mut j: usize = 0;
    while j < media.len()
        invariant
            j <= media.len(),
            mv == media@.map_values(|m: MediaCount| m@),
            ts == key_set(tracks@),
            sid == base_id(sub_user@),
            sid == sub_id@,
            sub_screen@ == sid + screen_suffix(),
            forall|jj: int, i: nat|
                0 <= jj < j && !is_own_media(sid, #[trigger] mv[jj].0) && i < mv[jj].2
                    && !ts.contains((mv[jj].0, #[trigger] track_id_of(mv[jj].1, i)))
                    ==> known_kind(mv[jj].1),
        decreases media.len() - j,
    {
        let e = &media[j];
        assert(mv[j as int] == e@);
        if !own_media(sub_id.as_str(), sub_screen.as_str(), e.user.as_str()) {
            let known = kind_text(e.mime.as_str()).is_some();
            let mut index: u8 = 0;
            while index < e.count
                invariant
                    index <= e.count,
                    mv == media@.map_values(|m: MediaCount| m@),
                    mv[j as int] == e@,
                    j < media.len(),
                    ts == key_set(tracks@),
                    known == known_kind(e@.1),
                    !is_own_media(sid, e@.0),
                    sid == base_id(sub_user@),
                    forall|i: nat| i < index && !ts.contains((e@.0, #[trigger] track_id_of(e@.1, i))) ==> known_kind(e@.1),
                decreases e.count - index,
            {
                let digits = decimal_text(index as u64);
                let track_id = join2(e.mime.as_str(), digits.as_str());
                assert(track_id@ == track_id_of(e@.1, index as nat));
                if !holds_key(tracks, e.user.as_str(), track_id.as_str()) && !known {
                    proof {
                        assert(!ts.contains((mv[j as int].0, track_id_of(mv[j as int].1, index as nat))));
                        assert(!is_own_media(sid, mv[j as int].0));
                        assert(!known_kind(mv[j as int].1));
                        assert(!kinds_known(sid, mv, ts));
                    }
                    return false;
                }
                index = index + 1;
            }
        }
        j = j + 1;
    }
    assert(kinds_known(sid, mv, ts));
    let mut i: usize = 0;
    while i < senders.len()
        invariant
            i <= senders.len(),
            forall|k: int| 0 <= k < i ==> prefix_splittable(#[trigger] senders@[k].track_id@),
        decreases senders.len() - i,
    {
        if !senders[i].track_id.as_str().is_char_boundary(5) {
            return false;
        }
        i = i + 1;
    }
    true
}

/// `plan_transceiver_update`, or `None` on inputs that `plan_inputs_ok` refuses.
pub fn try_plan_transceiver_update(
    sub_user: &str,
    media: &Vec<MediaCount>,
    tracks: &Vec<TrackKey>,
    senders: &Vec<TrackKey>,
) -> (r: Option<TransceiverPlan>)
    ensures
        match r {
            Some(plan) => kinds_known(base_id(sub_user@), media@.map_values(|m: MediaCount| m@), key_set(tracks@))
                && plan.add@.map_values(|a: TrackAddition| a@) == planned_adds(
                    base_id(sub_user@),
                    media@.map_values(|m: MediaCount| m@),
                    key_set(tracks@),
                )
                && plan.remove@.map_values(|k: TrackKey| k@) == planned_removals(
                    media@.map_values(|m: MediaCount| m@),
                    senders@.map_values(|k: TrackKey| k@),
                ),
            None => !(kinds_known(base_id(sub_user@), media@.map_values(|m: MediaCount| m@), key_set(tracks@))
                && forall|i: int| 0 <= i < senders@.len() ==> prefix_splittable(#[trigger] senders@[i].track_id@)),
        },
{
    if plan_inputs_ok(sub_user, media, tracks, senders) {
        Some(plan_transceiver_update(sub_user, media, tracks, senders))
    } else {
        None
    }
}

/// Plans how a subscriber's tracks follow the media announced in its room.
///
/// `media` is what the room announces, `tracks` the tracks the subscriber holds,
/// `senders` the tracks it sends through its peer connection. A subscriber is never
/// given its own media; a held track is dropped once its publisher no longer announces
/// media of its kind.
pub fn plan_transceiver_update(
    sub_user: &str,
    media: &Vec<MediaCount>,
    tracks: &Vec<TrackKey>,
    senders: &Vec<TrackKey>,
) -> (plan: TransceiverPlan)
    requires
        kinds_known(
            base_id(sub_user@),
            media@.map_values(|m: MediaCount| m@),
            key_set(tracks@),
        ),
        forall|i: int| 0 <= i < senders@.len() ==> prefix_splittable(#[trigger] senders@[i].track_id@),
    ensures
        plan.add@.map_values(|a: TrackAddition| a@) == planned_adds(
            base_id(sub_user@),
            media@.map_values(|m: MediaCount| m@),
            key_set(tracks@),
        ),
        plan.remove@.map_values(|k: TrackKey| k@) == planned_removals(
            media@.map_values(|m: MediaCount| m@),
            senders@.map_values(|k: TrackKey| k@),
        ),
{
    let ghost mv = media@.map_values(|m: MediaCount| m@);
    let ghost ts = key_set(tracks@);
    let sub_id = base_user_id(sub_user);
    let screen = "-screen";
    proof { reveal_strlit("-screen"); }
    let sub_screen = join2(sub_id.as_str(), screen);
    let ghost sid = sub_id@;
    let mut add: Vec<TrackAddition> = Vec::new();
    let mut j: usize = 0;
    while j < media.len()
        invariant
            j <= media.len(),
            mv == media@.map_values(|m: MediaCount| m@),
            ts == key_set(tracks@),
            sid == base_id(sub_user@),
            sid == sub_id@,
            sub_screen@ == sid + screen_suffix(),
            kinds_known(sid, mv, ts),
            add@.map_values(|a: TrackAddition| a@) == planned_adds(sid, mv.take(j as int), ts),
        decreases media.len() - j,
    {
        let e = &media[j];
        let ghost ev = mv[j as int];
        assert(ev == e@);
        assert(mv.take(j + 1).drop_last() =~= mv.take(j as int));
        assert(mv.take(j + 1).last() == ev);
        if !own_media(sub_id.as_str(), sub_screen.as_str(), e.user.as_str()) {
            let ghost base = add@.map_values(|a: TrackAddition| a@);
            let mut index: u8 = 0;
            while index < e.count
                invariant
                    index <= e.count,
                    ev == e@,
                    mv == media@.map_values(|m: MediaCount| m@),
                    ev == mv[j as int],
                    j < media.len(),
                    !is_own_media(sid, ev.0),
                    kinds_known(sid, mv, ts),
                    ts == key_set(tracks@),
                    add@.map_values(|a: TrackAddition| a@) == base + index_adds(ev, ts, index as nat),
                decreases e.count - index,
            {
                let digits = decimal_text(index as u64);
                let track_id = join2(e.mime.as_str(), digits.as_str());
                assert(track_id@ == track_id_of(ev.1, index as nat));
                if !holds_key(tracks, e.user.as_str(), track_id.as_str()) {
                    assert(!ts.contains((mv[j as int].0, track_id_of(mv[j as int].1, index as nat))));
                    assert(known_kind(mv[j as int].1));
                    let kind = match kind_text(e.mime.as_str()) {
                        Some(k) => k,
                        None => { assert(false); MediaKind::Video },
                    };
                    let ghost before = add@.map_values(|a: TrackAddition| a@);
                    add.push(TrackAddition { user: e.user.clone(), track_id, kind });
                    assert(add@.map_values(|a: TrackAddition| a@) =~= before.push((ev.0, track_id_of(ev.1, index as nat), kind_of(ev.1))));
                }
                index = index + 1;
            }
            assert(add@.map_values(|a: TrackAddition| a@) =~= planned_adds(sid, mv.take(j as int), ts) + entry_adds(sid, ev, ts));
        } else {
            assert(entry_adds(sid, ev, ts) =~= seq![]);
            assert(planned_adds(sid, mv.take(j as int), ts) + entry_adds(sid, ev, ts) =~= planned_adds(sid, mv.take(j as int), ts));
        }
        j = j + 1;
    }
    assert(mv.take(media.len() as int) =~= mv);

    let ghost sv = senders@.map_values(|k: TrackKey| k@);
    let mut remove: Vec<TrackKey> = Vec::new();
    let mut i: usize = 0;
    while i < senders.len()
        invariant
            i <= senders.len(),
            sv == senders@.map_values(|k: TrackKey| k@),
            mv == media@.map_values(|m: MediaCount| m@),
            forall|k: int| 0 <= k < senders@.len() ==> prefix_splittable(#[trigger] senders@[k].track_id@),
            remove@.map_values(|k: TrackKey| k@) == planned_removals(mv, sv.take(i as int)),
        decreases senders.len() - i,
    {
        let k = &senders[i];
        assert(prefix_splittable(senders@[i as int].track_id@));
        let (head, _tail) = k.track_id.as_str().split_at(5);
        proof {
            let b = encode_utf8(k.track_id@);
            assert(head.spec_bytes() =~= b.subrange(0, 5));
            assert(b.subrange(0, 5) =~= b.take(5));
            assert(decode_utf8(encode_utf8(head@)) == head@);
            assert(head@ == mime_prefix(k.track_id@));
        }
        assert(sv.take(i + 1).drop_last() =~= sv.take(i as int));
        assert(sv.take(i + 1).last() == k@);
        if !announces(media, k.user.as_str(), head) {
            let ghost before = remove@.map_values(|t: TrackKey| t@);
            remove.push(TrackKey { user: k.user.clone(), track_id: k.track_id.clone() });
            assert(remove@.map_values(|t: TrackKey| t@) =~= before.push(k@));
        }
        i = i + 1;
    }
    assert(sv.take(senders.len() as int) =~= sv);
    TransceiverPlan { add, remove }
}

pub open spec fn added_from(
    sub_id: Seq<char>,
    media: Seq<(Seq<char>, Seq<char>, nat)>,
    tracks: Set<(Seq<char>, Seq<char>)>,
    a: (Seq<char>, Seq<char>, MediaKind),
) -> bool {
    &&& !is_own_media(sub_id, a.0)
    &&& !tracks.contains((a.0, a.1))
    &&& exists|j: int, i: nat| 0 <= j < media.len() && i < media[j].2 && a.0 == media[j].0
        && #[trigger] track_id_of(media[j].1, i) == a.1 && a.2 == kind_of(media[j].1)
}

proof fn lemma_index_adds_fresh(
    sub_id: Seq<char>,
    media: Seq<(Seq<char>, Seq<char>, nat)>,
    j: int,
    tracks: Set<(Seq<char>, Seq<char>)>,
    n: nat,
)
    requires
        0 <= j < media.len(),
        !is_own_media(sub_id, media[j].0),
        n <= media[j].2,
    ensures
        forall|k: int| 0 <= k < index_adds(media[j], tracks, n).len()
            ==> added_from(sub_id, media, tracks, #[trigger] index_adds(media[j], tracks, n)[k]),
    decreases n,
{
    if n > 0 {
        let i = (n - 1) as nat;
        lemma_index_adds_fresh(sub_id, media, j, tracks, i);
        let rest = index_adds(media[j], tracks, i);
        let all = index_adds(media[j], tracks, n);
        assert forall|k: int| 0 <= k < all.len() implies added_from(sub_id, media, tracks, #[trigger] all[k]) by {
            if k < rest.len() {
                assert(all[k] == rest[k]);
            } else {
                assert(track_id_of(media[j].1, i) == all[k].1);
            }
        }
    }
}

/// Every track the plan adds comes from media that another user announces, is named by
/// that media's kind and one of its indices, and is not held yet.
pub proof fn lemma_planned_adds_fresh(
    sub_id: Seq<char>,
    media: Seq<(Seq<char>, Seq<char>, nat)>,
    tracks: Set<(Seq<char>, Seq<char>)>,
)
    ensures
        forall|k: int| 0 <= k < planned_adds(sub_id, media, tracks).len()
            ==> added_from(sub_id, media, tracks, #[trigger] planned_adds(sub_id, media, tracks)[k]),
    decreases media.len(),
{
    if media.len() > 0 {
        let front = media.drop_last();
        lemma_planned_adds_fresh(sub_id, front, tracks);
        let j = media.len() - 1;
        let head = planned_adds(sub_id, front, tracks);
        let tail = entry_adds(sub_id, media[j], tracks);
        if !is_own_media(sub_id, media[j].0) {
            lemma_index_adds_fresh(sub_id, media, j, tracks, media[j].2);
        }
        let all = planned_adds(sub_id, media, tracks);
        assert(all == head + tail);
        assert forall|k: int| 0 <= k < all.len() implies added_from(sub_id, media, tracks, #[trigger] all[k]) by {
            if k < head.len() {
                assert(all[k] == head[k]);
                assert(added_from(sub_id, front, tracks, head[k]));
                let (j2, i2) = choose|j2: int, i2: nat| 0 <= j2 < front.len() && i2 < front[j2].2 && head[k].0 == front[j2].0
                    && #[trigger] track_id_of(front[j2].1, i2) == head[k].1 && head[k].2 == kind_of(front[j2].1);
                assert(media[j2] == front[j2]);
                assert(track_id_of(media[j2].1, i2) == all[k].1);
            } else {
                assert(all[k] == tail[k - head.len()]);
            }
        }
    }
}

proof fn lemma_decimal_ascii(n: nat)
    ensures
        is_ascii_chars(decimal(n)),
    decreases n,
{
    if n >= 10 {
        lemma_decimal_ascii(n / 10);
        let d = decimal(n / 10);
        let s = d.push(digit_char(n % 10));
        assert forall|i| 0 <= i < s.len() implies '\0' <= #[trigger] s[i] <= '\u{7f}' by {
            if i < d.len() {
                assert(s[i] == d[i]);
            }
        }
    }
}

/// A track the plan adds under a known kind has that kind as its first five bytes, so it
/// is dropped exactly when its publisher no longer announces that kind.
pub proof fn lemma_added_track_kind(mime: Seq<char>, i: nat)
    requires
        known_kind(mime),
    ensures
        prefix_splittable(track_id_of(mime, i)),
        mime_prefix(track_id_of(mime, i)) == mime,
{
    let t = track_id_of(mime, i);
    lemma_decimal_ascii(i);
    assert(is_ascii_chars(mime));
    assert(is_ascii_chars(t)) by {
        assert forall|k| 0 <= k < t.len() implies '\0' <= #[trigger] t[k] <= '\u{7f}' by {
            if k < mime.len() {
                assert(t[k] == mime[k]);
            } else {
                assert(t[k] == decimal(i)[k - mime.len()]);
            }
        }
    }
    is_ascii_chars_encode_utf8(t);
    is_ascii_chars_encode_utf8(mime);
    let b = encode_utf8(t);
    assert(mime.len() == 5);
    assert(decimal(i).len() >= 1) by {
        reveal_with_fuel(decimal, 2);
    }
    assert(b.len() > 5);
    assert(b.take(5) =~= encode_utf8(mime)) by {
        assert forall|k| 0 <= k < 5 implies b.take(5)[k] == encode_utf8(mime)[k] by {
            assert(t[k] == mime[k]);
        }
    }
    is_char_boundary_iff_not_is_continuation_byte(b, 5);
    assert(!is_continuation_byte(b[5])) by {
        assert(t[5] as u8 == b[5]);
        assert('\0' <= t[5] <= '\u{7f}');
    }
}

pub open spec fn added_keys(adds: Seq<(Seq<char>, Seq<char>, MediaKind)>) -> Seq<(Seq<char>, Seq<char>)> {
    adds.map_values(|a: (Seq<char>, Seq<char>, MediaKind)| (a.0, a.1))
}

proof fn lemma_index_adds_complete(
    e: (Seq<char>, Seq<char>, nat),
    tracks: Set<(Seq<char>, Seq<char>)>,
    n: nat,
    i: nat,
)
    requires
        i < n,
        !tracks.contains((e.0, track_id_of(e.1, i))),
    ensures
        index_adds(e, tracks, n).contains((e.0, track_id_of(e.1, i), kind_of(e.1))),
    decreases n,
{
    let m = (n - 1) as nat;
    if i < m {
        lemma_index_adds_complete(e, tracks, m, i);
        let rest = index_adds(e, tracks, m);
        let k = choose|k: int| 0 <= k < rest.len() && rest[k] == (e.0, track_id_of(e.1, i), kind_of(e.1));
        assert(index_adds(e, tracks, n)[k] == rest[k]);
    } else {
        let all = index_adds(e, tracks, n);
        assert(all[all.len() - 1] == (e.0, track_id_of(e.1, i), kind_of(e.1)));
    }
}

proof fn lemma_planned_adds_complete(
    sub_id: Seq<char>,
    media: Seq<(Seq<char>, Seq<char>, nat)>,
    tracks: Set<(Seq<char>, Seq<char>)>,
    j: int,
    i: nat,
)
    requires
        0 <= j < media.len(),
        !is_own_media(sub_id, media[j].0),
        i < media[j].2,
        !tracks.contains((media[j].0, track_id_of(media[j].1, i))),
    ensures
        planned_adds(sub_id, media, tracks).contains((media[j].0, track_id_of(media[j].1, i), kind_of(media[j].1))),
    decreases media.len(),
{
    let front = media.drop_last();
    let head = planned_adds(sub_id, front, tracks);
    let all = planned_adds(sub_id, media, tracks);
    let x = (media[j].0, track_id_of(media[j].1, i), kind_of(media[j].1));
    if j < media.len() - 1 {
        assert(front[j] == media[j]);
        lemma_planned_adds_complete(sub_id, front, tracks, j, i);
        let k = choose|k: int| 0 <= k < head.len() && head[k] == x;
        assert(all[k] == head[k]);
    } else {
        lemma_index_adds_complete(media[j], tracks, media[j].2, i);
        let tail = index_adds(media[j], tracks, media[j].2);
        let k = choose|k: int| 0 <= k < tail.len() && tail[k] == x;
        assert(all[head.len() + k] == tail[k]);
    }
}

proof fn lemma_no_adds(
    sub_id: Seq<char>,
    media: Seq<(Seq<char>, Seq<char>, nat)>,
    tracks: Set<(Seq<char>, Seq<char>)>,
)
    requires
        forall|j: int, i: nat| 0 <= j < media.len() && !is_own_media(sub_id, #[trigger] media[j].0) && i < media[j].2
            ==> tracks.contains((media[j].0, #[trigger] track_id_of(media[j].1, i))),
    ensures
        planned_adds(sub_id, media, tracks) == Seq::<(Seq<char>, Seq<char>, MediaKind)>::empty(),
    decreases media.len(),
{
    if media.len() > 0 {
        let front = media.drop_last();
        assert forall|j: int, i: nat| 0 <= j < front.len() && !is_own_media(sub_id, #[trigger] front[j].0) && i < front[j].2
            implies tracks.contains((front[j].0, #[trigger] track_id_of(front[j].1, i))) by {
            assert(front[j] == media[j]);
        }
        lemma_no_adds(sub_id, front, tracks);
        let e = media.last();
        if !is_own_media(sub_id, e.0) {
            lemma_index_adds_none(e, tracks, e.2, media, media.len() - 1, sub_id);
        }
        assert(planned_adds(sub_id, media, tracks) =~= Seq::<(Seq<char>, Seq<char>, MediaKind)>::empty());
    }
}

proof fn lemma_index_adds_none(
    e: (Seq<char>, Seq<char>, nat),
    tracks: Set<(Seq<char>, Seq<char>)>,
    n: nat,
    media: Seq<(Seq<char>, Seq<char>, nat)>,
    j: int,
    sub_id: Seq<char>,
)
    requires
        0 <= j < media.len(),
        media[j] == e,
        !is_own_media(sub_id, e.0),
        n <= e.2,
        forall|jj: int, i: nat| 0 <= jj < media.len() && !is_own_media(sub_id, #[trigger] media[jj].0) && i < media[jj].2
            ==> tracks.contains((media[jj].0, #[trigger] track_id_of(media[jj].1, i))),
    ensures
        index_adds(e, tracks, n) == Seq::<(Seq<char>, Seq<char>, MediaKind)>::empty(),
    decreases n,
{
    if n > 0 {
        let i = (n - 1) as nat;
        lemma_index_adds_none(e, tracks, i, media, j, sub_id);
        assert(tracks.contains((media[j].0, track_id_of(media[j].1, i))));
    }
}

proof fn lemma_removals_complete(
    media: Seq<(Seq<char>, Seq<char>, nat)>,
    senders: Seq<(Seq<char>, Seq<char>)>,
    k: (Seq<char>, Seq<char>),
)
    requires
        senders.contains(k),
        !media_has(media, k.0, mime_prefix(k.1)),
    ensures
        planned_removals(media, senders).contains(k),
    decreases senders.len(),
{
    let front = senders.drop_last();
    let rest = planned_removals(media, front);
    let all = planned_removals(media, senders);
    if k == senders.last() {
        assert(all[all.len() - 1] == k);
    } else {
        let i = choose|i: int| 0 <= i < senders.len() && senders[i] == k;
        assert(i < senders.len() - 1);
        assert(front[i] == k);
        lemma_removals_complete(media, front, k);
        let m = choose|m: int| 0 <= m < rest.len() && rest[m] == k;
        assert(all[m] == rest[m]);
    }
}

proof fn lemma_no_removals(
    media: Seq<(Seq<char>, Seq<char>, nat)>,
    held: Seq<(Seq<char>, Seq<char>)>,
)
    requires
        forall|k: int| 0 <= k < held.len() ==> media_has(media, #[trigger] held[k].0, mime_prefix(held[k].1)),
    ensures
        planned_removals(media, held) == Seq::<(Seq<char>, Seq<char>)>::empty(),
    decreases held.len(),
{
    if held.len() > 0 {
        let front = held.drop_last();
        assert forall|k: int| 0 <= k < front.len() implies media_has(media, #[trigger] front[k].0, mime_prefix(front[k].1)) by {
            assert(front[k] == held[k]);
        }
        lemma_no_removals(media, front);
        assert(media_has(media, held[held.len() - 1].0, mime_prefix(held[held.len() - 1].1)));
    }
}

/// Once a subscriber has acted on a plan (dropped the tracks it names from what it holds and
/// sends, and added the tracks it names to both), a second plan over the same media, when
/// it may be made, changes nothing: it adds no track and drops none, whatever order the
/// sent tracks are then listed in.
pub proof fn lemma_plan_settles(
    sub_id: Seq<char>,
    media: Seq<(Seq<char>, Seq<char>, nat)>,
    tracks: Set<(Seq<char>, Seq<char>)>,
    senders: Seq<(Seq<char>, Seq<char>)>,
    tracks_after: Set<(Seq<char>, Seq<char>)>,
    senders_after: Seq<(Seq<char>, Seq<char>)>,
)
    requires
        kinds_known(sub_id, media, tracks),
        tracks_after == tracks.difference(planned_removals(media, senders).to_set())
            .union(added_keys(planned_adds(sub_id, media, tracks)).to_set()),
        forall|k: int| 0 <= k < senders_after.len() ==> {
            let x = #[trigger] senders_after[k];
            (senders.contains(x) && !planned_removals(media, senders).contains(x))
                || added_keys(planned_adds(sub_id, media, tracks)).contains(x)
        },
        kinds_known(sub_id, media, tracks_after),
    ensures
        planned_adds(sub_id, media, tracks_after) == Seq::<(Seq<char>, Seq<char>, MediaKind)>::empty(),
        planned_removals(media, senders_after) == Seq::<(Seq<char>, Seq<char>)>::empty(),
{
    let adds = planned_adds(sub_id, media, tracks);
    let added = added_keys(adds);
    let removed = planned_removals(media, senders);
    lemma_planned_adds_fresh(sub_id, media, tracks);
    assert forall|j: int, i: nat| 0 <= j < media.len() && !is_own_media(sub_id, #[trigger] media[j].0) && i < media[j].2
        implies tracks_after.contains((media[j].0, #[trigger] track_id_of(media[j].1, i))) by {
        let key = (media[j].0, track_id_of(media[j].1, i));
        if !tracks_after.contains(key) {
            assert(known_kind(media[j].1));
            lemma_added_track_kind(media[j].1, i);
            assert(media_has(media, key.0, mime_prefix(key.1)));
            if tracks.contains(key) {
                assert(removed.to_set().contains(key));
                assert(removed.contains(key));
                lemma_removals_announced_not(media, senders, key);
            } else {
                lemma_planned_adds_complete(sub_id, media, tracks, j, i);
                let k = choose|k: int| 0 <= k < adds.len() && adds[k] == (media[j].0, track_id_of(media[j].1, i), kind_of(media[j].1));
                assert(added[k] == key);
                assert(added.to_set().contains(key));
            }
        }
    }
    lemma_no_adds(sub_id, media, tracks_after);
    assert forall|k: int| 0 <= k < senders_after.len() implies media_has(media, #[trigger] senders_after[k].0, mime_prefix(senders_after[k].1)) by {
        let x = senders_after[k];
        if senders.contains(x) && !removed.contains(x) {
            if !media_has(media, x.0, mime_prefix(x.1)) {
                lemma_removals_complete(media, senders, x);
            }
        } else {
            let m = choose|m: int| 0 <= m < added.len() && added[m] == x;
            let a = adds[m];
            assert(x == (a.0, a.1));
            assert(added_from(sub_id, media, tracks, a));
            let (j, i) = choose|j: int, i: nat| 0 <= j < media.len() && i < media[j].2 && a.0 == media[j].0
                && #[trigger] track_id_of(media[j].1, i) == a.1 && a.2 == kind_of(media[j].1);
            assert(!tracks.contains((media[j].0, track_id_of(media[j].1, i))));
            assert(known_kind(media[j].1));
            lemma_added_track_kind(media[j].1, i);
        }
    }
    lemma_no_removals(media, senders_after);
}

/// What a plan drops is a sent track whose publisher no longer announces its kind.
proof fn lemma_removals_announced_not(
    media: Seq<(Seq<char>, Seq<char>, nat)>,
    senders: Seq<(Seq<char>, Seq<char>)>,
    k: (Seq<char>, Seq<char>),
)
    requires
        planned_removals(media, senders).contains(k),
    ensures
        !media_has(media, k.0, mime_prefix(k.1)),
    decreases senders.len(),
{
    let front = senders.drop_last();
    let rest = planned_removals(media, front);
    let all = planned_removals(media, senders);
    let m = choose|m: int| 0 <= m < all.len() && all[m] == k;
    if m < rest.len() {
        assert(rest[m] == k);
        lemma_removals_announced_not(media, front, k);
    }
}


proof fn lemma_decimal_len(n: nat)
    ensures
        decimal(n).len() >= 1,
        n >= 10 ==> decimal(n).len() >= 2,
    decreases n,
{
    if n >= 10 {
        lemma_decimal_len(n / 10);
    }
}

proof fn lemma_decimal_injective(a: nat, b: nat)
    requires
        decimal(a) == decimal(b),
    ensures
        a == b,
    decreases a,
{
    lemma_decimal_len(a);
    lemma_decimal_len(b);
    lemma_decimal_len(a / 10);
    lemma_decimal_len(b / 10);
    if a < 10 && b < 10 {
        assert(decimal(a)[0] == digit_char(a));
        assert(decimal(b)[0] == digit_char(b));
    } else if a >= 10 && b >= 10 {
        let da = decimal(a);
        assert(da.drop_last() =~= decimal(a / 10));
        assert(decimal(b).drop_last() =~= decimal(b / 10));
        assert(da.last() == digit_char(a % 10));
        assert(decimal(b).last() == digit_char(b % 10));
        assert(a % 10 == b % 10);
        lemma_decimal_injective(a / 10, b / 10);
    } else if a < 10 {
        assert(decimal(a).len() == 1);
    } else {
        assert(decimal(b).len() == 1);
    }
}

proof fn lemma_index_adds_shape(e: (Seq<char>, Seq<char>, nat), tracks: Set<(Seq<char>, Seq<char>)>, n: nat)
    ensures
        forall|k: int| 0 <= k < index_adds(e, tracks, n).len() ==> exists|i: nat| i < n
            && #[trigger] index_adds(e, tracks, n)[k] == (e.0, track_id_of(e.1, i), kind_of(e.1))
            && !tracks.contains((e.0, track_id_of(e.1, i))),
        forall|k1: int, k2: int| 0 <= k1 < k2 < index_adds(e, tracks, n).len()
            ==> (#[trigger] index_adds(e, tracks, n)[k1]).1 != (#[trigger] index_adds(e, tracks, n)[k2]).1,
    decreases n,
{
    if n > 0 {
        let m = (n - 1) as nat;
        lemma_index_adds_shape(e, tracks, m);
        let rest = index_adds(e, tracks, m);
        let all = index_adds(e, tracks, n);
        assert forall|k: int| 0 <= k < all.len() implies exists|i: nat| i < n
            && #[trigger] all[k] == (e.0, track_id_of(e.1, i), kind_of(e.1))
            && !tracks.contains((e.0, track_id_of(e.1, i))) by {
            if k < rest.len() {
                assert(all[k] == rest[k]);
            } else {
                assert(all[k] == (e.0, track_id_of(e.1, m), kind_of(e.1)));
            }
        }
        assert forall|k1: int, k2: int| 0 <= k1 < k2 < all.len() implies (#[trigger] all[k1]).1 != (#[trigger] all[k2]).1 by {
            assert(all[k1] == rest[k1]);
            if k2 < rest.len() {
                assert(all[k2] == rest[k2]);
            } else {
                let i = choose|i: nat| i < m && #[trigger] rest[k1] == (e.0, track_id_of(e.1, i), kind_of(e.1))
                    && !tracks.contains((e.0, track_id_of(e.1, i)));
                if all[k1].1 == all[k2].1 {
                    assert(track_id_of(e.1, i).skip(e.1.len() as int) =~= decimal(i));
                    assert(track_id_of(e.1, m).skip(e.1.len() as int) =~= decimal(m));
                    lemma_decimal_injective(i, m);
                }
            }
        }
    }
}

/// When no (user, kind) pair is announced twice, a plan adds no track twice.
pub proof fn lemma_planned_adds_distinct(
    sub_id: Seq<char>,
    media: Seq<(Seq<char>, Seq<char>, nat)>,
    tracks: Set<(Seq<char>, Seq<char>)>,
)
    requires
        distinct_media(media),
        kinds_known(sub_id, media, tracks),
    ensures
        forall|k1: int, k2: int| 0 <= k1 < k2 < planned_adds(sub_id, media, tracks).len()
            ==> (#[trigger] planned_adds(sub_id, media, tracks)[k1]).0 != (#[trigger] planned_adds(sub_id, media, tracks)[k2]).0
                || planned_adds(sub_id, media, tracks)[k1].1 != planned_adds(sub_id, media, tracks)[k2].1,
    decreases media.len(),
{
    if media.len() > 0 {
        let front = media.drop_last();
        let j = media.len() - 1;
        let e = media[j];
        assert(distinct_media(front)) by {
            assert forall|a: int, b: int| 0 <= a < b < front.len() implies (#[trigger] front[a]).0 != (#[trigger] front[b]).0
                || front[a].1 != front[b].1 by {
                assert(front[a] == media[a] && front[b] == media[b]);
            }
        }
        assert(kinds_known(sub_id, front, tracks)) by {
            assert forall|jj: int, i: nat|
                0 <= jj < front.len() && !is_own_media(sub_id, #[trigger] front[jj].0) && i < front[jj].2
                    && !tracks.contains((front[jj].0, #[trigger] track_id_of(front[jj].1, i)))
                implies known_kind(front[jj].1) by {
                assert(front[jj] == media[jj]);
            }
        }
        lemma_planned_adds_distinct(sub_id, front, tracks);
        lemma_planned_adds_fresh(sub_id, front, tracks);
        let head = planned_adds(sub_id, front, tracks);
        let tail = entry_adds(sub_id, e, tracks);
        let all = planned_adds(sub_id, media, tracks);
        assert(all == head + tail);
        if !is_own_media(sub_id, e.0) {
            lemma_index_adds_shape(e, tracks, e.2);
        }
        assert forall|k1: int, k2: int| 0 <= k1 < k2 < all.len() implies (#[trigger] all[k1]).0 != (#[trigger] all[k2]).0
            || all[k1].1 != all[k2].1 by {
            if k2 < head.len() {
                assert(all[k1] == head[k1] && all[k2] == head[k2]);
            } else if k1 >= head.len() {
                assert(all[k1] == tail[k1 - head.len()] && all[k2] == tail[k2 - head.len()]);
            } else if all[k1].0 == all[k2].0 && all[k1].1 == all[k2].1 {
                let a = head[k1];
                assert(all[k1] == a);
                let b = tail[k2 - head.len()];
                assert(all[k2] == b);
                assert(added_from(sub_id, front, tracks, a));
                let (ja, ia) = choose|ja: int, ia: nat| 0 <= ja < front.len() && ia < front[ja].2 && a.0 == front[ja].0
                    && #[trigger] track_id_of(front[ja].1, ia) == a.1 && a.2 == kind_of(front[ja].1);
                assert(front[ja] == media[ja]);
                assert(known_kind(media[ja].1));
                let ib = choose|ib: nat| ib < e.2 && #[trigger] tail[k2 - head.len()] == (e.0, track_id_of(e.1, ib), kind_of(e.1))
                    && !tracks.contains((e.0, track_id_of(e.1, ib)));
                assert(known_kind(media[j].1));
                assert(track_id_of(media[ja].1, ia).take(5) =~= media[ja].1);
                assert(track_id_of(e.1, ib).take(5) =~= e.1);
                assert(media[ja].0 == media[j].0 && media[ja].1 == media[j].1);
            }
        }
    }
}


/// A subscriber "ID+..." is given every track of media that a user announces whose id
/// (before any '+') is neither "ID" nor "ID-screen", once for each of its indices it does
/// not hold yet, under the kind named by the media.
pub proof fn lemma_others_media_planned(
    sub_user: Seq<char>,
    media: Seq<(Seq<char>, Seq<char>, nat)>,
    tracks: Set<(Seq<char>, Seq<char>)>,
    j: int,
    i: nat,
)
    requires
        0 <= j < media.len(),
        before_first(media[j].0, '+') != before_first(sub_user, '+'),
        before_first(media[j].0, '+') != before_first(sub_user, '+') + seq!['-', 's', 'c', 'r', 'e', 'e', 'n'],
        i < media[j].2,
        !tracks.contains((media[j].0, media[j].1 + decimal(i))),
    ensures
        planned_adds(base_id(sub_user), media, tracks).contains((
            media[j].0,
            media[j].1 + decimal(i),
            if media[j].1 == seq!['v', 'i', 'd', 'e', 'o'] { MediaKind::Video } else { MediaKind::Audio },
        )),
{
    assert(screen_suffix() =~= seq!['-', 's', 'c', 'r', 'e', 'e', 'n']);
    assert(base_id(sub_user) == before_first(sub_user, '+'));
    assert(!is_own_media(base_id(sub_user), media[j].0));
    lemma_planned_adds_complete(base_id(sub_user), media, tracks, j, i);
}

/// A subscriber "ID+..." is never given media of a user whose id (before any '+') is "ID"
/// or "ID-screen": its own camera and its own screen share.
pub proof fn lemma_own_media_not_planned(
    sub_user: Seq<char>,
    media: Seq<(Seq<char>, Seq<char>, nat)>,
    tracks: Set<(Seq<char>, Seq<char>)>,
)
    ensures
        forall|k: int| 0 <= k < planned_adds(base_id(sub_user), media, tracks).len() ==> {
            let a = #[trigger] planned_adds(base_id(sub_user), media, tracks)[k];
            &&& before_first(a.0, '+') != before_first(sub_user, '+')
            &&& before_first(a.0, '+') != before_first(sub_user, '+') + seq!['-', 's', 'c', 'r', 'e', 'e', 'n']
        },
{
    assert(screen_suffix() =~= seq!['-', 's', 'c', 'r', 'e', 'e', 'n']);
    lemma_planned_adds_fresh(base_id(sub_user), media, tracks);
}


/// A sent video or audio track "<kind><n>" of a user is dropped exactly when no media of
/// that user and kind is announced any more.
pub proof fn lemma_sent_track_dropped(
    media: Seq<(Seq<char>, Seq<char>, nat)>,
    senders: Seq<(Seq<char>, Seq<char>)>,
    x: int,
    mime: Seq<char>,
    n: nat,
)
    requires
        0 <= x < senders.len(),
        mime == seq!['v', 'i', 'd', 'e', 'o'] || mime == seq!['a', 'u', 'd', 'i', 'o'],
        senders[x].1 == mime + decimal(n),
    ensures
        planned_removals(media, senders).contains(senders[x]) <==> !exists|j: int| 0 <= j < media.len()
            && #[trigger] media[j].0 == senders[x].0 && media[j].1 == mime,
{
    let k = senders[x];
    lemma_added_track_kind(mime, n);
    assert(senders.contains(k));
    if planned_removals(media, senders).contains(k) {
        lemma_removals_announced_not(media, senders, k);
    } else if !media_has(media, k.0, mime_prefix(k.1)) {
        lemma_removals_complete(media, senders, k);
    }
}

}
