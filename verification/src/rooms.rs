//! This instance's record of the rooms it serves: who publishes in each room and how to
//! reach each of its subscribers.
use vstd::prelude::*;
use crate::assoc::{
    assoc_view, distinct_keys, distinct_names, find_key, find_name, has_key, index_of_key,
    lemma_assoc_at, lemma_assoc_push, lemma_assoc_remove, lemma_names_push, lemma_names_remove,
    name_set,
};

verus! {

/// How to reach one subscriber; `N` is the handle through which it is notified.
pub struct PeerConnectionInfo<N> {
    pub notify_message: Option<N>,
}

/// One room: its publishers and its subscribers.
pub struct Room<N> {
    subs: Vec<(String, PeerConnectionInfo<N>)>,
    pubs: Vec<String>,
}

/// What a room holds: the names of its publishers, and for each subscriber its handle.
pub struct RoomView<N> {
    pub pubs: Set<Seq<char>>,
    pub subs: Map<Seq<char>, Option<N>>,
}

/// The rooms of this instance, each named.
///
/// Rooms, publishers and subscribers are keyed by their names. vstd gives `HashMap` and
/// `HashSet` their map and set behaviour only for keys known to obey its key model (integers,
/// `bool` and boxes of them), not for `String`, so a `HashMap<String, _>` would leave every
/// lookup and insertion here unproved. The collections are therefore vectors of distinct
/// names, with that distinctness as the type's invariant and a `Map`/`Set` view.
pub struct Rooms<N> {
    rooms: Vec<(String, Room<N>)>,
}

pub open spec fn notify_of<N>(p: PeerConnectionInfo<N>) -> Option<N> {
    p.notify_message
}

pub open spec fn empty_room<N>() -> RoomView<N> {
    RoomView { pubs: Set::empty(), subs: Map::empty() }
}

pub open spec fn has_peer<N>(r: RoomView<N>) -> bool {
    r.pubs != Set::<Seq<char>>::empty() || r.subs != Map::<Seq<char>, Option<N>>::empty()
}

/// No room is kept once its last publisher and subscriber are gone.
pub open spec fn rooms_occupied<N>(v: Map<Seq<char>, RoomView<N>>) -> bool {
    forall|r: Seq<char>| #[trigger] v.contains_key(r) ==> has_peer(v[r])
}

pub open spec fn room_or_empty<N>(v: Map<Seq<char>, RoomView<N>>, r: Seq<char>) -> RoomView<N> {
    if v.contains_key(r) { v[r] } else { empty_room() }
}

/// `r` kept if it still has a peer, dropped otherwise.
pub open spec fn settle<N>(v: Map<Seq<char>, RoomView<N>>, name: Seq<char>, r: RoomView<N>) -> Map<Seq<char>, RoomView<N>> {
    if has_peer(r) { v.insert(name, r) } else { v.remove(name) }
}

pub open spec fn with_publisher<N>(v: Map<Seq<char>, RoomView<N>>, room: Seq<char>, user: Seq<char>) -> Map<Seq<char>, RoomView<N>> {
    let r = room_or_empty(v, room);
    v.insert(room, RoomView { pubs: r.pubs.insert(user), subs: r.subs })
}

pub open spec fn without_publisher<N>(v: Map<Seq<char>, RoomView<N>>, room: Seq<char>, user: Seq<char>) -> Map<Seq<char>, RoomView<N>> {
    let r = room_or_empty(v, room);
    settle(v, room, RoomView { pubs: r.pubs.remove(user), subs: r.subs })
}

pub open spec fn with_subscriber<N>(v: Map<Seq<char>, RoomView<N>>, room: Seq<char>, user: Seq<char>, n: N) -> Map<Seq<char>, RoomView<N>> {
    let r = room_or_empty(v, room);
    v.insert(room, RoomView { pubs: r.pubs, subs: r.subs.insert(user, Some(n)) })
}

pub open spec fn without_subscriber<N>(v: Map<Seq<char>, RoomView<N>>, room: Seq<char>, user: Seq<char>) -> Map<Seq<char>, RoomView<N>> {
    let r = room_or_empty(v, room);
    settle(v, room, RoomView { pubs: r.pubs, subs: r.subs.remove(user) })
}

/// `got` holds the handle of every subscriber of `r` that has one, each once; `users` names them in the same order.
pub open spec fn lists_handles<N>(r: RoomView<N>, users: Seq<Seq<char>>, got: Seq<&N>) -> bool {
    &&& users.len() == got.len()
    &&& users.no_duplicates()
    &&& forall|i: int| 0 <= i < users.len() ==> r.subs.contains_key(#[trigger] users[i]) && r.subs[users[i]] == Some(*got[i])
    &&& forall|u: Seq<char>| r.subs.contains_key(u) && r.subs[u] is Some ==> users.contains(u)
}

impl<N> Room<N> {
    pub closed spec fn view(&self) -> RoomView<N> {
        RoomView { pubs: name_set(self.pubs@), subs: assoc_view(self.subs@, |p: PeerConnectionInfo<N>| notify_of(p)) }
    }

    closed spec fn wf(&self) -> bool {
        distinct_names(self.pubs@) && distinct_keys(self.subs@)
    }

    closed spec fn occupied(&self) -> bool {
        self.pubs@.len() > 0 || self.subs@.len() > 0
    }

    proof fn lemma_occupied(&self)
        requires
            self.wf(),
        ensures
            self.occupied() == has_peer(self.view()),
    {
        if self.pubs@.len() > 0 {
            assert(self.view().pubs.contains(self.pubs@[0]@));
        }
        if self.subs@.len() > 0 {
            lemma_assoc_at(self.subs@, |p: PeerConnectionInfo<N>| notify_of(p), 0);
        }
        if !self.occupied() {
            assert(self.view().pubs =~= Set::empty());
            assert(self.view().subs =~= Map::empty());
        }
    }

    fn new() -> (r: Room<N>)
        ensures
            r.wf(),
            r.view() == empty_room::<N>(),
    {
        let r = Room { subs: Vec::new(), pubs: Vec::new() };
        assert(r.view().pubs =~= Set::empty());
        assert(r.view().subs =~= Map::empty());
        r
    }
}

pub open spec fn room_view<N>(r: Room<N>) -> RoomView<N> {
    r.view()
}

impl<N> Rooms<N> {
    #[verifier::type_invariant]
    closed spec fn inv(&self) -> bool {
        &&& distinct_keys(self.rooms@)
        &&& forall|i: int| 0 <= i < self.rooms@.len() ==> (#[trigger] self.rooms@[i]).1.wf() && self.rooms@[i].1.occupied()
    }

    pub closed spec fn view(&self) -> Map<Seq<char>, RoomView<N>> {
        assoc_view(self.rooms@, |r: Room<N>| room_view(r))
    }

    proof fn lemma_view_occupied(&self)
        requires
            self.inv(),
        ensures
            rooms_occupied(self.view()),
    {
        assert forall|r: Seq<char>| #[trigger] self.view().contains_key(r) implies has_peer(self.view()[r]) by {
            let i = index_of_key(self.rooms@, r);
            lemma_assoc_at(self.rooms@, |r: Room<N>| room_view(r), i);
            self.rooms@[i].1.lemma_occupied();
        }
    }

    /// No rooms.
    pub fn new() -> (r: Rooms<N>)
        ensures
            r.view() == Map::<Seq<char>, RoomView<N>>::empty(),
    {
        let r = Rooms { rooms: Vec::new() };
        assert(r.view() =~= Map::empty());
        r
    }

    /// Takes the room named `room` out of `rooms`, or a new empty room when there is none.
    fn take_room(rooms: &mut Vec<(String, Room<N>)>, room: &str) -> (r: Room<N>)
        requires
            distinct_keys(old(rooms)@),
            forall|i: int| 0 <= i < old(rooms)@.len() ==> (#[trigger] old(rooms)@[i]).1.wf(),
        ensures
            distinct_keys(final(rooms)@),
            forall|i: int| 0 <= i < final(rooms)@.len() ==> (#[trigger] final(rooms)@[i]).1.wf(),
            forall|i: int| 0 <= i < final(rooms)@.len() ==> (#[trigger] final(rooms)@[i]).1.occupied()
                || !(forall|j: int| 0 <= j < old(rooms)@.len() ==> (#[trigger] old(rooms)@[j]).1.occupied()),
            !has_key(final(rooms)@, room@),
            r.wf(),
            r.view() == room_or_empty(assoc_view(old(rooms)@, |x: Room<N>| room_view(x)), room@),
            assoc_view(final(rooms)@, |x: Room<N>| room_view(x))
                == assoc_view(old(rooms)@, |x: Room<N>| room_view(x)).remove(room@),
    {
        let ghost f = |x: Room<N>| room_view(x);
        match find_key(rooms, room) {
            Some(i) => {
                proof {
                    lemma_assoc_at(old(rooms)@, f, i as int);
                    lemma_assoc_remove(old(rooms)@, f, i as int);
                }
                let (_, r) = rooms.remove(i);
                proof {
                    let s = old(rooms)@;
                    assert forall|j: int| 0 <= j < rooms@.len() implies (#[trigger] rooms@[j]).1.wf() by {
                        let j2 = if j < i { j } else { j + 1 };
                        assert(rooms@[j] == s[j2]);
                    }
                    assert forall|j: int| 0 <= j < rooms@.len() implies (#[trigger] rooms@[j]).1.occupied()
                        || !(forall|k: int| 0 <= k < s.len() ==> (#[trigger] s[k]).1.occupied()) by {
                        let j2 = if j < i { j } else { j + 1 };
                        assert(rooms@[j] == s[j2]);
                    }
                    assert(!has_key(rooms@, room@)) by {
                        if has_key(rooms@, room@) {
                            let j = choose|j: int| 0 <= j < rooms@.len() && #[trigger] rooms@[j].0@ == room@;
                            let j2 = if j < i { j } else { j + 1 };
                            assert(rooms@[j] == s[j2]);
                        }
                    }
                }
                r
            },
            None => {
                proof {
                    assert(assoc_view(rooms@, f).remove(room@) =~= assoc_view(rooms@, f));
                }
                Room::new()
            },
        }
    }

    /// Puts `r` back under the name `room` if it still has a peer, and drops it otherwise.
    fn put_room(rooms: &mut Vec<(String, Room<N>)>, room: &str, r: Room<N>)
        requires
            distinct_keys(old(rooms)@),
            !has_key(old(rooms)@, room@),
            forall|i: int| 0 <= i < old(rooms)@.len() ==> (#[trigger] old(rooms)@[i]).1.wf() && old(rooms)@[i].1.occupied(),
            r.wf(),
        ensures
            distinct_keys(final(rooms)@),
            forall|i: int| 0 <= i < final(rooms)@.len() ==> (#[trigger] final(rooms)@[i]).1.wf() && final(rooms)@[i].1.occupied(),
            assoc_view(final(rooms)@, |x: Room<N>| room_view(x))
                == settle(assoc_view(old(rooms)@, |x: Room<N>| room_view(x)), room@, r.view()),
    {
        let ghost f = |x: Room<N>| room_view(x);
        proof { r.lemma_occupied(); }
        if r.pubs.len() > 0 || r.subs.len() > 0 {
            let name = room.to_owned();
            proof { lemma_assoc_push(old(rooms)@, f, name, r); }
            rooms.push((name, r));
            proof {
                assert forall|i: int| 0 <= i < rooms@.len() implies (#[trigger] rooms@[i]).1.wf() && rooms@[i].1.occupied() by {
                    if i < old(rooms)@.len() {
                        assert(rooms@[i] == old(rooms)@[i]);
                    }
                }
            }
        } else {
            proof {
                assert(assoc_view(rooms@, f).remove(room@) =~= assoc_view(rooms@, f));
            }
        }
    }

    /// Records `user` as a publisher of `room`.
    pub fn add_publisher(&mut self, room: &str, user: &str)
        ensures
            final(self).view() == with_publisher(old(self).view(), room@, user@),
            rooms_occupied(final(self).view()),
    {
        proof { use_type_invariant(&*self); }
        let mut rooms: Vec<(String, Room<N>)> = Vec::new();
        std::mem::swap(&mut rooms, &mut self.rooms);
        let ghost v0 = assoc_view(rooms@, |x: Room<N>| room_view(x));
        let mut r = Self::take_room(&mut rooms, room);
        let ghost rv = r.view();
        match find_name(&r.pubs, user) {
            Some(_) => {
                assert(r.view().pubs =~= rv.pubs.insert(user@));
            },
            None => {
                let u = user.to_owned();
                proof { lemma_names_push(r.pubs@, u); }
                r.pubs.push(u);
            },
        }
        assert(r.view() == RoomView { pubs: rv.pubs.insert(user@), subs: rv.subs });
        proof { r.lemma_occupied(); }
        Self::put_room(&mut rooms, room, r);
        self.rooms = rooms;
        proof {
            use_type_invariant(&*self);
            self.lemma_view_occupied();
            assert(self.view() =~= with_publisher(v0, room@, user@));
        }
    }

    /// Forgets `user` as a publisher of `room`, and the room once nobody is left in it.
    pub fn remove_publisher(&mut self, room: &str, user: &str)
        ensures
            final(self).view() == without_publisher(old(self).view(), room@, user@),
            rooms_occupied(final(self).view()),
    {
        proof { use_type_invariant(&*self); }
        let mut rooms: Vec<(String, Room<N>)> = Vec::new();
        std::mem::swap(&mut rooms, &mut self.rooms);
        let ghost v0 = assoc_view(rooms@, |x: Room<N>| room_view(x));
        let mut r = Self::take_room(&mut rooms, room);
        let ghost rv = r.view();
        match find_name(&r.pubs, user) {
            Some(i) => {
                proof { lemma_names_remove(r.pubs@, i as int); }
                r.pubs.remove(i);
            },
            None => {
                assert(r.view().pubs =~= rv.pubs.remove(user@));
            },
        }
        assert(r.view() == RoomView { pubs: rv.pubs.remove(user@), subs: rv.subs });
        Self::put_room(&mut rooms, room, r);
        self.rooms = rooms;
        proof {
            use_type_invariant(&*self);
            self.lemma_view_occupied();
            assert(self.view() =~= without_publisher(v0, room@, user@));
        }
    }

    /// Records `n` as the handle through which subscriber `user` of `room` is notified.
    pub fn add_sub_notify(&mut self, room: &str, user: &str, n: N)
        ensures
            final(self).view() == with_subscriber(old(self).view(), room@, user@, n),
            rooms_occupied(final(self).view()),
    {
        proof { use_type_invariant(&*self); }
        let mut rooms: Vec<(String, Room<N>)> = Vec::new();
        std::mem::swap(&mut rooms, &mut self.rooms);
        let ghost v0 = assoc_view(rooms@, |x: Room<N>| room_view(x));
        let mut r = Self::take_room(&mut rooms, room);
        let ghost rv = r.view();
        let ghost g = |p: PeerConnectionInfo<N>| notify_of(p);
        match find_key(&r.subs, user) {
            Some(i) => {
                proof { lemma_assoc_remove(r.subs@, g, i as int); }
                r.subs.remove(i);
            },
            None => {
                assert(assoc_view(r.subs@, g).remove(user@) =~= assoc_view(r.subs@, g));
            },
        }
        let u = user.to_owned();
        let info = PeerConnectionInfo { notify_message: Some(n) };
        proof { lemma_assoc_push(r.subs@, g, u, info); }
        r.subs.push((u, info));
        assert(r.view().subs =~= rv.subs.insert(user@, Some(n)));
        assert(r.view() == RoomView { pubs: rv.pubs, subs: rv.subs.insert(user@, Some(n)) });
        proof { r.lemma_occupied(); }
        Self::put_room(&mut rooms, room, r);
        self.rooms = rooms;
        proof {
            use_type_invariant(&*self);
            self.lemma_view_occupied();
            assert(self.view() =~= with_subscriber(v0, room@, user@, n));
        }
    }

    /// Forgets subscriber `user` of `room`, and the room once nobody is left in it.
    pub fn remove_sub_notify(&mut self, room: &str, user: &str)
        ensures
            final(self).view() == without_subscriber(old(self).view(), room@, user@),
            rooms_occupied(final(self).view()),
    {
        proof { use_type_invariant(&*self); }
        let mut rooms: Vec<(String, Room<N>)> = Vec::new();
        std::mem::swap(&mut rooms, &mut self.rooms);
        let ghost v0 = assoc_view(rooms@, |x: Room<N>| room_view(x));
        let mut r = Self::take_room(&mut rooms, room);
        let ghost rv = r.view();
        let ghost g = |p: PeerConnectionInfo<N>| notify_of(p);
        match find_key(&r.subs, user) {
            Some(i) => {
                proof { lemma_assoc_remove(r.subs@, g, i as int); }
                r.subs.remove(i);
            },
            None => {
                assert(assoc_view(r.subs@, g).remove(user@) =~= assoc_view(r.subs@, g));
            },
        }
        assert(r.view() == RoomView { pubs: rv.pubs, subs: rv.subs.remove(user@) });
        Self::put_room(&mut rooms, room, r);
        self.rooms = rooms;
        proof {
            use_type_invariant(&*self);
            self.lemma_view_occupied();
            assert(self.view() =~= without_subscriber(v0, room@, user@));
        }
    }

    /// Whether this instance still serves anybody.
    pub fn has_peers(&self) -> (r: bool)
        ensures
            r == (self.view().dom() != Set::<Seq<char>>::empty()),
            r == (exists|room: Seq<char>| #[trigger] self.view().contains_key(room) && has_peer(self.view()[room])),
    {
        proof {
            use_type_invariant(self);
            self.lemma_view_occupied();
        }
        let r = self.rooms.len() > 0;
        proof {
            if r {
                lemma_assoc_at(self.rooms@, |x: Room<N>| room_view(x), 0);
                assert(self.view().dom().contains(self.rooms@[0].0@));
            } else {
                assert(self.view().dom() =~= Set::empty());
            }
        }
        r
    }

    /// The handles of the subscribers of `room` that have one; none when there is no such room.
    pub fn notify_targets(&self, room: &str) -> (r: Vec<&N>)
        ensures
            exists|users: Seq<Seq<char>>| lists_handles(room_or_empty(self.view(), room@), users, r@),
    {
        proof { use_type_invariant(self); }
        let ghost f = |x: Room<N>| room_view(x);
        let ghost g = |p: PeerConnectionInfo<N>| notify_of(p);
        let mut out: Vec<&N> = Vec::new();
        match find_key(&self.rooms, room) {
            None => {
                let ghost users: Seq<Seq<char>> = seq![];
                assert(lists_handles(room_or_empty(self.view(), room@), users, out@));
            },
            Some(i) => {
                let r = &self.rooms[i].1;
                proof { lemma_assoc_at(self.rooms@, f, i as int); }
                assert(r.wf());
                let ghost rv = r.view();
                assert(rv == room_or_empty(self.view(), room@));
                let ghost mut users: Seq<Seq<char>> = seq![];
                let mut j: usize = 0;
                while j < r.subs.len()
                    invariant
                        j <= r.subs.len(),
                        r.wf(),
                        rv == r.view(),
                        users.len() == out@.len(),
                        users.no_duplicates(),
                        forall|k: int| #![trigger users[k]] 0 <= k < users.len() ==> (exists|m: int| 0 <= m < j && #[trigger] r.subs@[m].0@ == users[k]),
                        forall|k: int| 0 <= k < users.len() ==> rv.subs.contains_key(#[trigger] users[k]) && rv.subs[users[k]] == Some(*out@[k]),
                        forall|m: int| 0 <= m < j && (#[trigger] r.subs@[m]).1.notify_message is Some ==> users.contains(r.subs@[m].0@),
                    decreases r.subs.len() - j,
                {
                    proof { lemma_assoc_at(r.subs@, g, j as int); }
                    match &r.subs[j].1.notify_message {
                        Some(n) => {
                            proof {
                                assert forall|k: int| 0 <= k < users.len() implies users[k] != r.subs@[j as int].0@ by {
                                    let m = choose|m: int| 0 <= m < j && #[trigger] r.subs@[m].0@ == users[k];
                                    assert(r.subs@[m].0@ != r.subs@[j as int].0@);
                                }
                                let ghost old_users = users;
                                assert forall|m: int| 0 <= m < j && (#[trigger] r.subs@[m]).1.notify_message is Some implies old_users.contains(r.subs@[m].0@) by {}
                                users = users.push(r.subs@[j as int].0@);
                                assert forall|k: int| #![trigger users[k]] 0 <= k < users.len() implies (exists|m: int| 0 <= m < j + 1 && #[trigger] r.subs@[m].0@ == users[k]) by {
                                    if k < users.len() - 1 {
                                        let m = choose|m: int| 0 <= m < j && #[trigger] r.subs@[m].0@ == users[k];
                                        assert(r.subs@[m].0@ == users[k]);
                                    } else {
                                        assert(r.subs@[j as int].0@ == users[k]);
                                    }
                                }
                                assert forall|m: int| 0 <= m < j + 1 && (#[trigger] r.subs@[m]).1.notify_message is Some implies users.contains(r.subs@[m].0@) by {
                                    if m < j {
                                        assert(old_users.contains(r.subs@[m].0@));
                                        let k = choose|k: int| 0 <= k < old_users.len() && old_users[k] == r.subs@[m].0@;
                                        assert(users[k] == old_users[k]);
                                    } else {
                                        assert(users[users.len() - 1] == r.subs@[m].0@);
                                    }
                                }
                            }
                            out.push(n);
                        },
                        None => {},
                    }
                    j = j + 1;
                }
                proof {
                    assert forall|u: Seq<char>| rv.subs.contains_key(u) && rv.subs[u] is Some implies users.contains(u) by {
                        let m = index_of_key(r.subs@, u);
                        lemma_assoc_at(r.subs@, g, m);
                        assert(r.subs@[m].1.notify_message is Some);
                    }
                    assert(lists_handles(rv, users, out@));
                }
            },
        }
        out
    }
}

/// A publisher who joins a room and leaves it again leaves the rooms as they were.
pub proof fn lemma_publisher_join_leave<N>(v: Map<Seq<char>, RoomView<N>>, room: Seq<char>, user: Seq<char>)
    requires
        rooms_occupied(v),
        !room_or_empty(v, room).pubs.contains(user),
    ensures
        without_publisher(with_publisher(v, room, user), room, user) == v,
{
    let r = room_or_empty(v, room);
    let w = with_publisher(v, room, user);
    assert(room_or_empty(w, room) == RoomView { pubs: r.pubs.insert(user), subs: r.subs });
    assert(r.pubs.insert(user).remove(user) =~= r.pubs);
    if v.contains_key(room) {
        assert(has_peer(v[room]));
        assert(without_publisher(w, room, user) =~= v);
    } else {
        assert(r.pubs =~= Set::empty());
        assert(!has_peer(RoomView { pubs: r.pubs, subs: r.subs }));
        assert(without_publisher(w, room, user) =~= v);
    }
}

/// A subscriber who registers in a room and leaves it again leaves the rooms as they were.
pub proof fn lemma_subscriber_join_leave<N>(v: Map<Seq<char>, RoomView<N>>, room: Seq<char>, user: Seq<char>, n: N)
    requires
        rooms_occupied(v),
        !room_or_empty(v, room).subs.contains_key(user),
    ensures
        without_subscriber(with_subscriber(v, room, user, n), room, user) == v,
{
    let r = room_or_empty(v, room);
    let w = with_subscriber(v, room, user, n);
    assert(room_or_empty(w, room) == RoomView { pubs: r.pubs, subs: r.subs.insert(user, Some(n)) });
    assert(r.subs.insert(user, Some(n)).remove(user) =~= r.subs);
    if v.contains_key(room) {
        assert(has_peer(v[room]));
        assert(without_subscriber(w, room, user) =~= v);
    } else {
        assert(r.subs =~= Map::empty());
        assert(!has_peer(RoomView { pubs: r.pubs, subs: r.subs }));
        assert(without_subscriber(w, room, user) =~= v);
    }
}


/// Recording a publisher makes it a publisher of its room, keeps everybody else in that
/// room, and leaves the other rooms as they were; forgetting it makes it no publisher of
/// its room, keeps everybody else there, and leaves the other rooms as they were.
pub proof fn lemma_publisher_membership<N>(
    v: Map<Seq<char>, RoomView<N>>,
    room: Seq<char>,
    user: Seq<char>,
    other: Seq<char>,
    someone: Seq<char>,
)
    ensures
        with_publisher(v, room, user).contains_key(room),
        with_publisher(v, room, user)[room].pubs.contains(user),
        !(without_publisher(v, room, user).contains_key(room) && without_publisher(v, room, user)[room].pubs.contains(user)),
        v.contains_key(room) && someone != user && v[room].pubs.contains(someone)
            ==> with_publisher(v, room, user)[room].pubs.contains(someone)
                && without_publisher(v, room, user).contains_key(room)
                && without_publisher(v, room, user)[room].pubs.contains(someone),
        v.contains_key(room) ==> with_publisher(v, room, user)[room].subs == v[room].subs,
        v.contains_key(room) && v[room].subs.len() > 0 ==> without_publisher(v, room, user).contains_key(room)
            && without_publisher(v, room, user)[room].subs == v[room].subs,
        other != room ==> with_publisher(v, room, user).contains_key(other) == v.contains_key(other)
            && without_publisher(v, room, user).contains_key(other) == v.contains_key(other),
        other != room && v.contains_key(other) ==> with_publisher(v, room, user)[other] == v[other]
            && without_publisher(v, room, user)[other] == v[other],
{
    let r = room_or_empty(v, room);
    if v.contains_key(room) && someone != user && v[room].pubs.contains(someone) {
        assert(r.pubs.remove(user).contains(someone));
    }
    if v.contains_key(room) && v[room].subs.len() > 0 {
        assert(v[room].subs.dom().len() > 0);
        let u = v[room].subs.dom().choose();
        assert(r.subs.contains_key(u));
        assert(r.subs != Map::<Seq<char>, Option<N>>::empty());
    }
}

/// Registering a subscriber with a handle makes that its handle in its room, keeps
/// everybody else in that room, and leaves the other rooms as they were; forgetting it
/// makes it no subscriber of its room, keeps everybody else there, and leaves the other
/// rooms as they were.
pub proof fn lemma_subscriber_membership<N>(
    v: Map<Seq<char>, RoomView<N>>,
    room: Seq<char>,
    user: Seq<char>,
    n: N,
    other: Seq<char>,
    someone: Seq<char>,
)
    ensures
        with_subscriber(v, room, user, n).contains_key(room),
        with_subscriber(v, room, user, n)[room].subs.contains_key(user),
        with_subscriber(v, room, user, n)[room].subs[user] == Some(n),
        !(without_subscriber(v, room, user).contains_key(room) && without_subscriber(v, room, user)[room].subs.contains_key(user)),
        v.contains_key(room) && someone != user && v[room].subs.contains_key(someone)
            ==> with_subscriber(v, room, user, n)[room].subs[someone] == v[room].subs[someone]
                && without_subscriber(v, room, user).contains_key(room)
                && without_subscriber(v, room, user)[room].subs.contains_key(someone)
                && without_subscriber(v, room, user)[room].subs[someone] == v[room].subs[someone],
        v.contains_key(room) ==> with_subscriber(v, room, user, n)[room].pubs == v[room].pubs,
        other != room ==> with_subscriber(v, room, user, n).contains_key(other) == v.contains_key(other)
            && without_subscriber(v, room, user).contains_key(other) == v.contains_key(other),
        other != room && v.contains_key(other) ==> with_subscriber(v, room, user, n)[other] == v[other]
            && without_subscriber(v, room, user)[other] == v[other],
{
    let r = room_or_empty(v, room);
    if v.contains_key(room) && someone != user && v[room].subs.contains_key(someone) {
        assert(r.subs.remove(user).contains_key(someone));
        assert(r.subs.remove(user) != Map::<Seq<char>, Option<N>>::empty());
    }
}

}
