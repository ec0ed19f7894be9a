//! The names under which room state is kept in Redis and media travels over NATS, and the
//! reading of Redis replies back into room state.
use vstd::prelude::*;
use crate::text::{join2, split_once_at, cut_once, is_first_pos, lemma_first_pos, lemma_split_rejoin};
use crate::transceivers::{MediaCount, video_text, audio_text, distinct_media};

verus! {

/// How long room keys live in Redis after their last change: one day.
pub const KEY_TTL_SECS: i64 = 86400;

pub open spec fn hash_sep() -> Seq<char> {
    seq!['#']
}

pub open spec fn token_pub_word() -> Seq<char> {
    seq!['t', 'o', 'k', 'e', 'n', '#', 'p', 'u', 'b', '#']
}

pub open spec fn token_sub_word() -> Seq<char> {
    seq!['t', 'o', 'k', 'e', 'n', '#', 's', 'u', 'b', '#']
}

pub open spec fn room_word() -> Seq<char> {
    seq!['r', 'o', 'o', 'm', '#']
}

pub open spec fn media_word() -> Seq<char> {
    seq!['#', 'm', 'e', 'd', 'i', 'a']
}

pub open spec fn pub_list_word() -> Seq<char> {
    seq!['#', 'p', 'u', 'b', '_', 'l', 'i', 's', 't']
}

pub open spec fn sub_list_word() -> Seq<char> {
    seq!['#', 's', 'u', 'b', '_', 'l', 'i', 's', 't']
}

pub open spec fn rtc_word() -> Seq<char> {
    seq!['r', 't', 'c', '.']
}

fn cat3(a: &str, b: &str, c: &str) -> (r: String)
    ensures
        r@ == a@ + b@ + c@,
{
    let ab = join2(a, b);
    join2(ab.as_str(), c)
}

/// "token#pub#<room>#<user>": the publisher token of `user` in `room`.
pub fn pub_token_key(room: &str, user: &str) -> (r: String)
    ensures
        r@ == token_pub_word() + room@ + hash_sep() + user@,
{
    let w = "token#pub#";
    let h = "#";
    proof {
        reveal_strlit("token#pub#");
        reveal_strlit("#");
        assert(w@ =~= token_pub_word());
        assert(h@ =~= hash_sep());
    }
    let a = cat3(w, room, h);
    join2(a.as_str(), user)
}

/// "token#sub#<room>#<user>": the subscriber token of `user` in `room`.
pub fn sub_token_key(room: &str, user: &str) -> (r: String)
    ensures
        r@ == token_sub_word() + room@ + hash_sep() + user@,
{
    let w = "token#sub#";
    let h = "#";
    proof {
        reveal_strlit("token#sub#");
        reveal_strlit("#");
        assert(w@ =~= token_sub_word());
        assert(h@ =~= hash_sep());
    }
    let a = cat3(w, room, h);
    join2(a.as_str(), user)
}

/// "room#<room>#media": the hash of media counts of `room`.
pub fn media_key(room: &str) -> (r: String)
    ensures
        r@ == room_word() + room@ + media_word(),
{
    let w = "room#";
    let m = "#media";
    proof {
        reveal_strlit("room#");
        reveal_strlit("#media");
        assert(w@ =~= room_word());
        assert(m@ =~= media_word());
    }
    cat3(w, room, m)
}

/// "<user>#<mime>": the field of the media hash that counts `user`'s tracks of kind `mime`.
pub fn media_field(user: &str, mime: &str) -> (r: String)
    ensures
        r@ == user@ + hash_sep() + mime@,
{
    let h = "#";
    proof {
        reveal_strlit("#");
        assert(h@ =~= hash_sep());
    }
    cat3(user, h, mime)
}

/// The fields of `user`'s video and audio counts, dropped when the user stops publishing.
pub fn media_fields_of(user: &str) -> (r: (String, String))
    ensures
        r.0@ == user@ + hash_sep() + video_text(),
        r.1@ == user@ + hash_sep() + audio_text(),
{
    let v = "video";
    let a = "audio";
    proof {
        reveal_strlit("video");
        reveal_strlit("audio");
        assert(v@ =~= video_text());
        assert(a@ =~= audio_text());
    }
    (media_field(user, v), media_field(user, a))
}

/// "room#<room>#pub_list": the set of publishers of `room`.
pub fn pub_list_key(room: &str) -> (r: String)
    ensures
        r@ == room_word() + room@ + pub_list_word(),
{
    let w = "room#";
    let m = "#pub_list";
    proof {
        reveal_strlit("room#");
        reveal_strlit("#pub_list");
        assert(w@ =~= room_word());
        assert(m@ =~= pub_list_word());
    }
    cat3(w, room, m)
}

/// "room#<room>#sub_list": the set of subscribers of `room`.
pub fn sub_list_key(room: &str) -> (r: String)
    ensures
        r@ == room_word() + room@ + sub_list_word(),
{
    let w = "room#";
    let m = "#sub_list";
    proof {
        reveal_strlit("room#");
        reveal_strlit("#sub_list");
        assert(w@ =~= room_word());
        assert(m@ =~= sub_list_word());
    }
    cat3(w, room, m)
}

/// "rtc.<room>.<user>.<kind>.<app_id>": the NATS subject of one published track.
pub fn track_subject(room: &str, user: &str, kind: &str, app_id: &str) -> (r: String)
    ensures
        r@ == rtc_word() + room@ + seq!['.'] + user@ + seq!['.'] + kind@ + seq!['.'] + app_id@,
{
    let w = "rtc.";
    let d = ".";
    proof {
        reveal_strlit("rtc.");
        reveal_strlit(".");
        assert(w@ =~= rtc_word());
        assert(d@ =~= seq!['.']);
    }
    let a = cat3(w, room, d);
    let b = cat3(a.as_str(), user, d);
    let c = cat3(b.as_str(), kind, d);
    join2(c.as_str(), app_id)
}

/// A field of the media hash read as (user, kind, count): the field is "<user>#<kind>",
/// cut at its first '#'. Fields without '#' are not media counts.
pub open spec fn media_entry(field: Seq<char>, count: u8) -> Option<(Seq<char>, Seq<char>, nat)> {
    match split_once_at(field, '#') {
        Some((user, mime)) => Some((user, mime, count as nat)),
        None => None,
    }
}

pub open spec fn media_entries(raw: Seq<(Seq<char>, u8)>) -> Seq<(Seq<char>, Seq<char>, nat)>
    decreases raw.len(),
{
    if raw.len() == 0 {
        seq![]
    } else {
        let rest = media_entries(raw.drop_last());
        match media_entry(raw.last().0, raw.last().1) {
            Some(e) => rest.push(e),
            None => rest,
        }
    }
}

/// No field occurs twice, as in a hash.
pub open spec fn distinct_fields(raw: Seq<(Seq<char>, u8)>) -> bool {
    forall|i: int, j: int| 0 <= i < j < raw.len() ==> #[trigger] raw[i].0 != #[trigger] raw[j].0
}

proof fn lemma_media_entries_from(raw: Seq<(Seq<char>, u8)>)
    ensures
        forall|k: int| 0 <= k < media_entries(raw).len() ==> exists|i: int| 0 <= i < raw.len()
            && #[trigger] raw[i].0 == (#[trigger] media_entries(raw)[k]).0 + seq!['#'] + media_entries(raw)[k].1,
    decreases raw.len(),
{
    if raw.len() > 0 {
        let front = raw.drop_last();
        lemma_media_entries_from(front);
        let rest = media_entries(front);
        let all = media_entries(raw);
        assert forall|k: int| 0 <= k < all.len() implies exists|i: int| 0 <= i < raw.len()
            && #[trigger] raw[i].0 == (#[trigger] all[k]).0 + seq!['#'] + all[k].1 by {
            if k < rest.len() {
                assert(all[k] == rest[k]);
                let i = choose|i: int| 0 <= i < front.len() && #[trigger] front[i].0 == rest[k].0 + seq!['#'] + rest[k].1;
                assert(raw[i] == front[i]);
            } else {
                lemma_split_rejoin(raw.last().0, '#');
                assert(raw[raw.len() - 1] == raw.last());
            }
        }
    }
}

/// Distinct fields name distinct (user, kind) pairs.
proof fn lemma_media_entries_distinct(raw: Seq<(Seq<char>, u8)>)
    requires
        distinct_fields(raw),
    ensures
        distinct_media(media_entries(raw)),
    decreases raw.len(),
{
    if raw.len() > 0 {
        let front = raw.drop_last();
        assert(distinct_fields(front)) by {
            assert forall|i: int, j: int| 0 <= i < j < front.len() implies #[trigger] front[i].0 != #[trigger] front[j].0 by {
                assert(front[i] == raw[i] && front[j] == raw[j]);
            }
        }
        lemma_media_entries_distinct(front);
        lemma_media_entries_from(front);
        let rest = media_entries(front);
        let all = media_entries(raw);
        let last = raw.last();
        if let Some(e) = media_entry(last.0, last.1) {
            lemma_split_rejoin(last.0, '#');
            assert(all == rest.push(e));
            assert forall|i: int, j: int| 0 <= i < j < all.len() implies
                (#[trigger] all[i]).0 != (#[trigger] all[j]).0 || all[i].1 != all[j].1 by {
                if j < rest.len() {
                    assert(all[i] == rest[i] && all[j] == rest[j]);
                } else if all[i].0 == all[j].0 && all[i].1 == all[j].1 {
                    assert(all[i] == rest[i]);
                    let s = choose|s: int| 0 <= s < front.len() && #[trigger] front[s].0 == rest[i].0 + seq!['#'] + rest[i].1;
                    assert(raw[s] == front[s]);
                    assert(raw[s].0 == last.0);
                    assert(raw[raw.len() - 1] == last);
                }
            }
        }
    }
}

/// The media counts of a room, read from the fields and values of its media hash, in order.
/// Distinct fields, as a hash has, give distinct (user, kind) pairs.
pub fn parse_media_entries(raw: &Vec<(String, u8)>) -> (r: Vec<MediaCount>)
    ensures
        r@.map_values(|m: MediaCount| m@) == media_entries(raw@.map_values(|p: (String, u8)| (p.0@, p.1))),
        distinct_fields(raw@.map_values(|p: (String, u8)| (p.0@, p.1)))
            ==> distinct_media(r@.map_values(|m: MediaCount| m@)),
{
    proof {
        let rv = raw@.map_values(|p: (String, u8)| (p.0@, p.1));
        if distinct_fields(rv) {
            lemma_media_entries_distinct(rv);
        }
    }
    let ghost rv = raw@.map_values(|p: (String, u8)| (p.0@, p.1));
    let mut out: Vec<MediaCount> = Vec::new();
    let mut i: usize = 0;
    while i < raw.len()
        invariant
            i <= raw.len(),
            rv == raw@.map_values(|p: (String, u8)| (p.0@, p.1)),
            out@.map_values(|m: MediaCount| m@) == media_entries(rv.take(i as int)),
        decreases raw.len() - i,
    {
        assert(rv.take(i + 1).drop_last() =~= rv.take(i as int));
        assert(rv.take(i + 1).last() == (raw@[i as int].0@, raw@[i as int].1));
        match cut_once(raw[i].0.as_str(), '#') {
            Some((user, mime)) => {
                let ghost before = out@.map_values(|m: MediaCount| m@);
                out.push(MediaCount { user, mime, count: raw[i].1 });
                assert(out@.map_values(|m: MediaCount| m@) =~= before.push(out@[before.len() as int]@));
                assert(out@.map_values(|m: MediaCount| m@) =~= media_entries(rv.take(i + 1)));
            },
            None => {},
        }
        i = i + 1;
    }
    assert(rv.take(raw.len() as int) =~= rv);
    out
}

/// The names joined with ',' between them ("" for none).
pub open spec fn comma_joined(names: Seq<Seq<char>>) -> Seq<char>
    decreases names.len(),
{
    if names.len() == 0 {
        seq![]
    } else if names.len() == 1 {
        names[0]
    } else {
        comma_joined(names.drop_last()) + seq![','] + names.last()
    }
}

/// The listed users of a room as one line: "a,b,c".
pub fn join_users(users: &Vec<String>) -> (r: String)
    ensures
        r@ == comma_joined(users@.map_values(|s: String| s@)),
{
    let ghost uv = users@.map_values(|s: String| s@);
    let mut out = String::new();
    let comma = ",";
    proof {
        reveal_strlit(",");
        assert(comma@ =~= seq![',']);
    }
    let mut i: usize = 0;
    while i < users.len()
        invariant
            i <= users.len(),
            comma@ == seq![','],
            uv == users@.map_values(|s: String| s@),
            out@ == comma_joined(uv.take(i as int)),
        decreases users.len() - i,
    {
        assert(uv.take(i + 1).drop_last() =~= uv.take(i as int));
        assert(uv.take(i + 1).last() == users@[i as int]@);
        if i == 0 {
            out = users[i].clone();
            assert(uv.take(1) =~= seq![users@[0]@]);
        } else {
            let with_comma = join2(out.as_str(), comma);
            out = join2(with_comma.as_str(), users[i].as_str());
        }
        i = i + 1;
    }
    assert(uv.take(users.len() as int) =~= uv);
    out
}

/// A media count written under the field of a user whose name holds no '#' is read back
/// as that user's count of that kind.
pub proof fn lemma_media_field_read_back(user: Seq<char>, mime: Seq<char>, count: u8)
    requires
        forall|i: int| 0 <= i < user.len() ==> user[i] != '#',
    ensures
        media_entry(user + hash_sep() + mime, count) == Some((user, mime, count as nat)),
{
    let f = user + hash_sep() + mime;
    assert(is_first_pos(f, '#', user.len() as int));
    lemma_first_pos(f, '#', user.len() as int);
    assert(f.take(user.len() as int) =~= user);
    assert(f.skip(user.len() as int + 1) =~= mime);
}

/// Publisher tokens and subscriber tokens are never kept under the same key.
pub proof fn lemma_token_keys_differ(room1: Seq<char>, user1: Seq<char>, room2: Seq<char>, user2: Seq<char>)
    ensures
        token_pub_word() + room1 + hash_sep() + user1 != token_sub_word() + room2 + hash_sep() + user2,
{
    let a = token_pub_word() + room1 + hash_sep() + user1;
    let b = token_sub_word() + room2 + hash_sep() + user2;
    assert(a[6] == 'p');
    assert(b[6] == 's');
}

}
