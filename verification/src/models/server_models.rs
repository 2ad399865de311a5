//! The registry of rooms and sessions, and the messages it is driven by.

use crate::models::server_spec::{main_room, RegistryView};
use crate::models::text::{
    entered_notice, joined_notice, left_notice, visitors_notice, visitors_text,
};
use crate::state::count_visitor;
use bytes::Bytes;
use std::collections::HashMap;
use std::sync::atomic::AtomicUsize;
use std::sync::Arc;
use vstd::prelude::*;
use vstd::string::*;

verus! {

/// `bytes::Bytes`: a buffer of bytes, which this library carries through
/// without looking into it.
#[verifier::external_type_specification]
#[verifier::external_body]
pub struct ExBytes(Bytes);

/// The bytes that a `bytes::Bytes` holds.
pub uninterp spec fn contents(bytes: Bytes) -> Seq<u8>;

/// `Bytes::clone`: the clone holds the same bytes as the buffer it was made
/// from.
pub assume_specification[ <Bytes as Clone>::clone ](bytes: &Bytes) -> (copy: Bytes)
    ensures
        contents(copy) == contents(*bytes),
;

/// Text that the server sends to a session.
#[derive(Debug)]
pub struct Data(pub String);

/// Binary message from a client.
#[derive(Debug)]
pub struct BinaryMessage(pub Bytes);

impl Clone for BinaryMessage {
    fn clone(&self) -> (copy: Self)
        ensures
            contents(copy.0) == contents(self.0),
    {
        BinaryMessage(self.0.clone())
    }
}

/// What a session can be sent.
#[derive(Debug)]
pub enum MessageTypes {
    Text(Data),
    Binary(BinaryMessage),
}

/// A new session asks to be registered; `addr` is the channel on which it
/// wants to be reached.
#[derive(Debug)]
pub struct Connect<C> {
    pub addr: C,
}

/// A session is gone.
#[derive(Debug)]
pub struct Disconnect {
    pub id: usize,
}

/// Data that a session sends to a room.
#[derive(Debug)]
pub struct ClientData<T> {
    /// Id of the sending session.
    pub id: usize,
    /// What it sends.
    pub data: T,
    /// Name of the room.
    pub room: String,
}

/// Asks for the names of the rooms.
#[derive(Debug)]
pub struct ListRooms;

/// A session moves to a room, which is created if it does not exist.
#[derive(Debug)]
pub struct Join {
    pub id: usize,
    pub room_name: String,
}

/// One text and the sessions that it has to be delivered to.
#[derive(Debug)]
pub struct Broadcast {
    pub data: Data,
    pub to: Vec<usize>,
}

impl Broadcast {
    /// The broadcast carries `text` to each session of `audience` once, and
    /// to no other.
    pub open spec fn reaches(&self, audience: Set<usize>, text: Seq<char>) -> bool {
        &&& self.data.0@ == text
        &&& self.to@.no_duplicates()
        &&& self.to@.to_set() == audience
    }
}

/// What a registration results in.
#[derive(Debug)]
pub struct Registered {
    /// The id given to the new session.
    pub id: usize,
    /// The number of visitors, this one counted.
    pub visitors: usize,
    /// Tells those already in the default room that someone has joined.
    pub joined: Broadcast,
    /// Tells the default room, the new session included, the visitor count.
    pub total: Broadcast,
}

/// What a move to another room results in.
#[derive(Debug)]
pub struct Moved {
    /// Tells the others in the room that was left, if there was one.
    pub left: Option<Broadcast>,
    /// Tells the others in the room that was entered.
    pub entered: Broadcast,
}

/// A member and the index of the room it is in.
#[derive(Debug)]
struct Seat {
    id: usize,
    room: usize,
}

/// Manages the rooms and coordinates the sessions in them.
///
/// `C` is the type of the channel on which a session is reached. The registry
/// keeps it for the transport layer and never uses it itself.
#[derive(Debug)]
pub struct CanvasServer<C> {
    /// Room names, in the order in which the rooms were created.
    rooms: Vec<String>,
    /// Who is in which room. No id occurs twice.
    seats: Vec<Seat>,
    /// The channel of each registered session.
    sessions: HashMap<usize, C>,
    /// The id for the next registration.
    next_id: usize,
    /// Counts the registrations, for whoever shares it.
    visitor_count: Arc<AtomicUsize>,
}

/// The room names as sequences of characters.
spec fn names(rooms: Seq<String>) -> Seq<Seq<char>> {
    Seq::new(rooms.len(), |i: int| rooms[i]@)
}

/// Whether `id` has a seat.
spec fn seated(seats: Seq<Seat>, id: usize) -> bool {
    exists|k: int| 0 <= k < seats.len() && (#[trigger] seats[k]).id == id
}

/// Index of the seat of `id`, if it has one.
spec fn seat_of(seats: Seq<Seat>, id: usize) -> int {
    choose|k: int| 0 <= k < seats.len() && (#[trigger] seats[k]).id == id
}

/// No id has two seats.
spec fn distinct_ids(seats: Seq<Seat>) -> bool {
    forall|i: int, j: int|
        0 <= i < j < seats.len() ==> (#[trigger] seats[i]).id != (#[trigger] seats[j]).id
}

/// Every seat is in one of the first `count` rooms.
spec fn rooms_exist(seats: Seq<Seat>, count: nat) -> bool {
    forall|k: int| 0 <= k < seats.len() ==> (#[trigger] seats[k]).room < count
}

/// For each id that has a seat, the name of the room it is in.
spec fn placing(seats: Seq<Seat>, names: Seq<Seq<char>>) -> Map<usize, Seq<char>> {
    Map::new(
        |id: usize| seated(seats, id),
        |id: usize| names[seats[seat_of(seats, id)].room as int],
    )
}

/// The id on seat `k` is in the room of that seat.
proof fn lemma_seat(seats: Seq<Seat>, names: Seq<Seq<char>>, k: int)
    requires
        distinct_ids(seats),
        0 <= k < seats.len(),
    ensures
        seated(seats, seats[k].id),
        seat_of(seats, seats[k].id) == k,
        placing(seats, names).contains_key(seats[k].id),
        placing(seats, names)[seats[k].id] == names[seats[k].room as int],
{
    assert(seated(seats, seats[k].id));
    assert(seat_of(seats, seats[k].id) == k);
}

/// Index of the seat that `id` sits on.
fn find_seat(seats: &Vec<Seat>, id: usize) -> (r: Option<usize>)
    ensures
        match r {
            Some(k) => k < seats@.len() && seats@[k as int].id == id,
            None => !seated(seats@, id),
        },
{
    let mut k: usize = 0;
    while k < seats.len()
        invariant
            k <= seats@.len(),
            forall|j: int| 0 <= j < k ==> (#[trigger] seats@[j]).id != id,
        decreases seats@.len() - k,
    {
        if seats[k].id == id {
            return Some(k);
        }
        k += 1;
    }
    None
}

/// Index of the room called `name`.
fn find_room(rooms: &Vec<String>, name: &String) -> (r: Option<usize>)
    ensures
        match r {
            Some(i) => i < rooms@.len() && names(rooms@)[i as int] == name@,
            None => !names(rooms@).contains(name@),
        },
{
    let mut i: usize = 0;
    while i < rooms.len()
        invariant
            i <= rooms@.len(),
            forall|j: int| 0 <= j < i ==> (#[trigger] names(rooms@)[j]) != name@,
        decreases rooms@.len() - i,
    {
        if rooms[i] == *name {
            return Some(i);
        }
        i += 1;
    }
    None
}

/// Puts `id` into room number `room`, from wherever it was, and tells the
/// number of the room it was in.
fn seat(
    seats: &mut Vec<Seat>,
    id: usize,
    room: usize,
    Ghost(names): Ghost<Seq<Seq<char>>>,
) -> (was: Option<usize>)
    requires
        distinct_ids(old(seats)@),
        rooms_exist(old(seats)@, names.len()),
        room < names.len(),
    ensures
        distinct_ids(final(seats)@),
        rooms_exist(final(seats)@, names.len()),
        placing(final(seats)@, names) == placing(old(seats)@, names).insert(id, names[room as int]),
        match was {
            Some(r) => placing(old(seats)@, names).contains_key(id) && r < names.len()
                && placing(old(seats)@, names)[id] == names[r as int],
            None => !placing(old(seats)@, names).contains_key(id),
        },
{
    let found = find_seat(seats, id);
    match found {
        Some(k) => {
            let was = seats[k].room;
            seats.set(k, Seat { id, room });
            proof {
                let before = old(seats)@;
                let after = seats@;
                lemma_seat(before, names, k as int);
                assert(distinct_ids(after)) by {
                    assert forall|i: int| 0 <= i < after.len() implies (#[trigger] after[i]).id
                        == before[i].id by {}
                }
                assert forall|x: usize| seated(after, x) <==> seated(before, x) by {
                    if seated(after, x) {
                        assert(before[seat_of(after, x)].id == x);
                    }
                    if seated(before, x) {
                        assert(after[seat_of(before, x)].id == x);
                    }
                }
                assert forall|x: usize| seated(after, x) implies #[trigger] placing(after, names)[x]
                    == placing(before, names).insert(id, names[room as int])[x] by {
                    let c = seat_of(after, x);
                    lemma_seat(after, names, c);
                    lemma_seat(before, names, c);
                }
                assert(placing(after, names) =~= placing(before, names).insert(
                    id,
                    names[room as int],
                ));
            }
            Some(was)
        },
        None => {
            seats.push(Seat { id, room });
            proof {
                let before = old(seats)@;
                let after = seats@;
                let last = before.len() as int;
                assert(distinct_ids(after)) by {
                    assert forall|i: int| 0 <= i < last implies (#[trigger] after[i]).id
                        == before[i].id && before[i].id != id by {}
                }
                assert(after[last].id == id);
                assert forall|x: usize| seated(after, x) <==> (seated(before, x) || x == id) by {
                    if seated(after, x) && x != id {
                        assert(before[seat_of(after, x)].id == x);
                    }
                    if seated(before, x) {
                        assert(after[seat_of(before, x)].id == x);
                    }
                }
                assert forall|x: usize| seated(after, x) implies #[trigger] placing(after, names)[x]
                    == placing(before, names).insert(id, names[room as int])[x] by {
                    let c = seat_of(after, x);
                    lemma_seat(after, names, c);
                    if c < last {
                        lemma_seat(before, names, c);
                    }
                }
                assert(placing(after, names) =~= placing(before, names).insert(
                    id,
                    names[room as int],
                ));
            }
            None
        },
    }
}

/// Takes `id` out of the room it is in, and tells the number of that room.
fn unseat(seats: &mut Vec<Seat>, id: usize, Ghost(names): Ghost<Seq<Seq<char>>>) -> (was: Option<
    usize,
>)
    requires
        distinct_ids(old(seats)@),
        rooms_exist(old(seats)@, names.len()),
    ensures
        distinct_ids(final(seats)@),
        rooms_exist(final(seats)@, names.len()),
        placing(final(seats)@, names) == placing(old(seats)@, names).remove(id),
        match was {
            Some(r) => placing(old(seats)@, names).contains_key(id) && r < names.len()
                && placing(old(seats)@, names)[id] == names[r as int],
            None => !placing(old(seats)@, names).contains_key(id),
        },
{
    let found = find_seat(seats, id);
    match found {
        Some(k) => {
            let gone = seats.remove(k);
            proof {
                let before = old(seats)@;
                let after = seats@;
                // Where the seat at `i` was before the one at `k` went.
                let origin = |i: int| if i < k { i } else { i + 1 };
                lemma_seat(before, names, k as int);
                assert forall|i: int| 0 <= i < after.len() implies #[trigger] after[i]
                    == before[origin(i)] by {}
                assert forall|x: usize| seated(after, x) <==> (seated(before, x) && x != id) by {
                    if seated(after, x) {
                        assert(before[origin(seat_of(after, x))].id == x);
                    }
                    if seated(before, x) && x != id {
                        let c = seat_of(before, x);
                        assert(after[if c < k { c } else { c - 1 }].id == x);
                    }
                }
                assert forall|x: usize| seated(after, x) implies #[trigger] placing(after, names)[x]
                    == placing(before, names)[x] by {
                    let c = seat_of(after, x);
                    lemma_seat(after, names, c);
                    lemma_seat(before, names, origin(c));
                }
                assert(placing(after, names) =~= placing(before, names).remove(id));
            }
            Some(gone.room)
        },
        None => {
            assert(placing(seats@, names) =~= placing(seats@, names).remove(id));
            None
        },
    }
}

/// The members of room number `room`, but for `skip`; with `registered`,
/// only those of them that are registered.
fn occupants<C>(
    seats: &Vec<Seat>,
    sessions: &HashMap<usize, C>,
    room: usize,
    skip: Option<usize>,
    registered: bool,
    Ghost(names): Ghost<Seq<Seq<char>>>,
) -> (to: Vec<usize>)
    requires
        distinct_ids(seats@),
        rooms_exist(seats@, names.len()),
        names.no_duplicates(),
        room < names.len(),
    ensures
        to@.no_duplicates(),
        forall|id: usize|
            to@.contains(id) <==> placing(seats@, names).contains_key(id) && placing(
                seats@,
                names,
            )[id] == names[room as int] && (registered ==> sessions@.contains_key(id)) && skip
                != Some(id),
{
    let mut to: Vec<usize> = Vec::new();
    let mut k: usize = 0;
    while k < seats.len()
        invariant
            k <= seats@.len(),
            distinct_ids(seats@),
            to@.no_duplicates(),
            forall|i: int|
                #![trigger to@[i]]
                0 <= i < to@.len() ==> exists|j: int|
                    0 <= j < k && (#[trigger] seats@[j]).id == to@[i],
            forall|j: int|
                0 <= j < k && (#[trigger] seats@[j]).room == room && (registered
                    ==> sessions@.contains_key(seats@[j].id)) && skip != Some(seats@[j].id)
                    ==> to@.contains(seats@[j].id),
            forall|i: int|
                0 <= i < to@.len() ==> (registered ==> sessions@.contains_key(#[trigger] to@[i]))
                    && skip != Some(to@[i]) && seats@[seat_of(seats@, to@[i])].room == room,
        decreases seats@.len() - k,
    {
        let id = seats[k].id;
        let skipped = match skip {
            Some(s) => s == id,
            None => false,
        };
        if seats[k].room == room && !skipped && (!registered || sessions.contains_key(&id)) {
            proof {
                lemma_seat(seats@, names, k as int);
                assert forall|i: int| 0 <= i < to@.len() implies to@[i] != id by {
                    let j = choose|j: int| 0 <= j < k && (#[trigger] seats@[j]).id == to@[i];
                    assert(seats@[j].id != seats@[k as int].id);
                }
            }
            let ghost before = to@;
            to.push(id);
            proof {
                assert forall|j: int|
                    0 <= j < k + 1 && (#[trigger] seats@[j]).room == room && (registered
                        ==> sessions@.contains_key(seats@[j].id)) && skip != Some(
                        seats@[j].id,
                    ) implies to@.contains(seats@[j].id) by {
                    if j < k {
                        let i = choose|i: int| 0 <= i < before.len() && before[i] == seats@[j].id;
                        assert(to@[i] == seats@[j].id);
                    } else {
                        assert(to@[before.len() as int] == id);
                    }
                }
                assert forall|i: int| #![trigger to@[i]] 0 <= i < to@.len() implies exists|j: int|
                    0 <= j < k + 1 && (#[trigger] seats@[j]).id == to@[i] by {
                    if i < before.len() {
                        let j = choose|j: int| 0 <= j < k && (#[trigger] seats@[j]).id == before[i];
                        assert(seats@[j].id == to@[i]);
                    } else {
                        assert(seats@[k as int].id == to@[i]);
                    }
                }
            }
        }
        k += 1;
    }
    proof {
        let place = placing(seats@, names);
        assert forall|id: usize|
            to@.contains(id) <==> place.contains_key(id) && place[id] == names[room as int] && (
            registered ==> sessions@.contains_key(id)) && skip != Some(id) by {
            if to@.contains(id) {
                let i = choose|i: int| 0 <= i < to@.len() && to@[i] == id;
                let j = choose|j: int| 0 <= j < k && (#[trigger] seats@[j]).id == to@[i];
                lemma_seat(seats@, names, j);
            }
            if place.contains_key(id) && place[id] == names[room as int] && (registered
                ==> sessions@.contains_key(id)) && skip != Some(id) {
                let j = seat_of(seats@, id);
                lemma_seat(seats@, names, j);
            }
        }
    }
    to
}

impl<C> View for CanvasServer<C> {
    type V = RegistryView<C>;

    closed spec fn view(&self) -> RegistryView<C> {
        RegistryView {
            rooms: names(self.rooms@),
            room_of: placing(self.seats@, names(self.rooms@)),
            sessions: self.sessions@,
            next_id: self.next_id as nat,
        }
    }
}

impl<C> CanvasServer<C> {
    /// The representation is sound: no room name and no member occurs twice,
    /// the default room is the first, and every registered session has a
    /// seat and an id that was handed out.
    pub closed spec fn wf(&self) -> bool {
        &&& names(self.rooms@).no_duplicates()
        &&& self.rooms@.len() > 0
        &&& self.rooms@[0]@ == main_room()
        &&& distinct_ids(self.seats@)
        &&& rooms_exist(self.seats@, self.rooms@.len())
        &&& self.next_id >= 1
        &&& forall|id: usize| #[trigger]
            self.sessions@.contains_key(id) ==> 0 < id < self.next_id && seated(self.seats@, id)
    }

    /// A sound registry is one in which the registry's invariant holds.
    pub proof fn lemma_wf_inv(&self)
        requires
            self.wf(),
        ensures
            self@.inv(),
    {
        let v = self@;
        let ns = names(self.rooms@);
        let seats = self.seats@;
        let ids = seats.map_values(|s: Seat| s.id);
        assert(v.room_of.dom() =~= ids.to_set()) by {
            assert forall|id: usize| v.room_of.dom().contains(id) <==> ids.to_set().contains(
                id,
            ) by {
                if seated(seats, id) {
                    let k = seat_of(seats, id);
                    assert(ids[k] == id);
                }
                if ids.contains(id) {
                    let k = choose|k: int| 0 <= k < ids.len() && ids[k] == id;
                    assert(seats[k].id == id);
                }
            }
        }
        vstd::seq_lib::seq_to_set_is_finite(ids);
        assert forall|id: usize| #[trigger] v.room_of.contains_key(id) implies v.rooms.contains(
            v.room_of[id],
        ) by {
            let k = seat_of(seats, id);
            lemma_seat(seats, ns, k);
        }
    }

    /// A registry with the default room and nobody in it. Visitors are
    /// counted on `visitor_count`.
    pub fn new(visitor_count: Arc<AtomicUsize>) -> (server: CanvasServer<C>)
        ensures
            server.wf(),
            server@ == RegistryView::<C>::fresh(),
    {
        let mut rooms: Vec<String> = Vec::new();
        rooms.push(String::from_str("main"));
        let server = CanvasServer {
            rooms,
            seats: Vec::new(),
            sessions: HashMap::new(),
            next_id: 1,
            visitor_count,
        };
        server
    }

    /// Addresses `data` to the registered members of `room`, but for
    /// `skip_id`. A room that does not exist has no members.
    pub fn send_str_data(&self, room: &str, data: &str, skip_id: usize) -> (out: Broadcast)
        requires
            self.wf(),
        ensures
            out.reaches(self@.audience(room@, skip_id), data@),
    {
        let name = String::from_str(room);
        let text = String::from_str(data);
        match find_room(&self.rooms, &name) {
            Some(i) => self.notice(i, text, skip_id),
            None => {
                let to: Vec<usize> = Vec::new();
                proof {
                    self.lemma_wf_inv();
                    assert(to@.to_set() =~= self@.audience(room@, skip_id));
                }
                Broadcast { data: Data(text), to }
            },
        }
    }

    /// Addresses `text` to the registered members of room number `room`, but
    /// for `skip`.
    fn notice(&self, room: usize, text: String, skip: usize) -> (out: Broadcast)
        requires
            self.wf(),
            room < self.rooms@.len(),
        ensures
            out.reaches(self@.audience(names(self.rooms@)[room as int], skip), text@),
    {
        let to = occupants(
            &self.seats,
            &self.sessions,
            room,
            Some(skip),
            true,
            Ghost(names(self.rooms@)),
        );
        proof {
            assert(to@.to_set() =~= self@.audience(names(self.rooms@)[room as int], skip));
        }
        Broadcast { data: Data(text), to }
    }

    /// The ids in `room`, registered or not. A room that does not exist has
    /// none.
    pub fn members(&self, room: &str) -> (ids: Vec<usize>)
        requires
            self.wf(),
        ensures
            ids@.no_duplicates(),
            ids@.to_set() == self@.members(room@),
    {
        let name = String::from_str(room);
        match find_room(&self.rooms, &name) {
            Some(i) => {
                let ids = occupants(
                    &self.seats,
                    &self.sessions,
                    i,
                    None,
                    false,
                    Ghost(names(self.rooms@)),
                );
                ids
            },
            None => {
                let ids: Vec<usize> = Vec::new();
                proof {
                    self.lemma_wf_inv();
                }
                ids
            },
        }
    }

    /// The channel of a registered session.
    pub fn channel(&self, id: usize) -> (r: Option<&C>)
        requires
            self.wf(),
        ensures
            match r {
                Some(addr) => self@.sessions.contains_key(id) && *addr == self@.sessions[id],
                None => !self@.sessions.contains_key(id),
            },
    {
        self.sessions.get(&id)
    }

    /// Whether the ids are not used up, so that another session can register.
    pub fn has_free_id(&self) -> (b: bool)
        ensures
            b == self@.has_free_id(),
    {
        self.next_id < usize::MAX
    }

    /// Registers a session that is the `visitors`-th visitor: gives it the
    /// next id, keeps its channel and puts it into the default room. Those
    /// already there are told that someone has joined, and then the whole
    /// room, the new session included, is told the number of visitors.
    ///
    /// Nothing is registered, and nothing changes, once the ids are used up.
    pub fn register(&mut self, addr: C, visitors: usize) -> (r: Option<Registered>)
        requires
            old(self).wf(),
        ensures
            final(self).wf(),
            match r {
                Some(reg) => {
                    &&& old(self)@.has_free_id()
                    &&& reg.id == old(self)@.next_id
                    &&& reg.visitors == visitors
                    &&& final(self)@ == old(self)@.connect(addr)
                    &&& reg.joined.reaches(old(self)@.audience(main_room(), 0), joined_notice())
                    &&& reg.total.reaches(
                        final(self)@.audience(main_room(), 0),
                        visitors_notice(visitors as nat),
                    )
                },
                None => !old(self)@.has_free_id() && final(self)@ == old(self)@,
            },
    {
        if self.next_id == usize::MAX {
            return None;
        }
        let joined = self.notice(0, String::from_str("Someone has joined"), 0);
        let id = self.next_id;
        let ghost ns = names(self.rooms@);
        seat(&mut self.seats, id, 0, Ghost(ns));
        self.sessions.insert(id, addr);
        self.next_id = id + 1;
        proof {
            assert forall|x: usize| #[trigger] self.sessions@.contains_key(x) implies 0 < x
                < self.next_id && seated(self.seats@, x) by {
                assert(placing(self.seats@, ns).contains_key(x));
            }
        }
        let total = self.notice(0, visitors_text(visitors), 0);
        Some(Registered { id, visitors, joined, total })
    }

    /// Registers a session as `register` does, and counts it as a visitor on
    /// the shared counter. The number that the counter then shows is the one
    /// that the default room is told; as the counter is shared, it is whatever
    /// the counter gives.
    pub fn connect(&mut self, msg: Connect<C>) -> (r: Option<Registered>)
        requires
            old(self).wf(),
        ensures
            final(self).wf(),
            match r {
                Some(reg) => {
                    &&& old(self)@.has_free_id()
                    &&& reg.id == old(self)@.next_id
                    &&& final(self)@ == old(self)@.connect(msg.addr)
                    &&& reg.joined.reaches(old(self)@.audience(main_room(), 0), joined_notice())
                    &&& reg.total.reaches(
                        final(self)@.audience(main_room(), 0),
                        visitors_notice(reg.visitors as nat),
                    )
                },
                None => !old(self)@.has_free_id() && final(self)@ == old(self)@,
            },
    {
        if !self.has_free_id() {
            return None;
        }
        let visitors = count_visitor(&self.visitor_count);
        self.register(msg.addr, visitors)
    }

    /// Deregisters a session: forgets its channel and takes it out of its
    /// room, whose remaining members are told that someone has left. An id
    /// that is not registered changes nothing and tells nobody.
    pub fn disconnect(&mut self, msg: Disconnect) -> (r: Option<Broadcast>)
        requires
            old(self).wf(),
        ensures
            final(self).wf(),
            final(self)@ == old(self)@.disconnect(msg.id),
            match r {
                Some(left) => old(self)@.sessions.contains_key(msg.id) && left.reaches(
                    final(self)@.audience(old(self)@.room_of[msg.id], 0),
                    left_notice(),
                ),
                None => !old(self)@.sessions.contains_key(msg.id),
            },
    {
        let ghost ns = names(self.rooms@);
        match self.sessions.remove(&msg.id) {
            None => None,
            Some(_) => {
                let was = unseat(&mut self.seats, msg.id, Ghost(ns));
                proof {
                    assert forall|x: usize| #[trigger] self.sessions@.contains_key(x) implies 0 < x
                        < self.next_id && seated(self.seats@, x) by {
                        assert(placing(self.seats@, ns).contains_key(x));
                    }
                }
                match was {
                    Some(room) => Some(
                        self.notice(room, String::from_str("Someone disconnected"), 0),
                    ),
                    None => None,
                }
            },
        }
    }

    /// Relays what a session sends to the other registered members of the
    /// room it names.
    pub fn client_data(&self, msg: ClientData<String>) -> (out: Broadcast)
        requires
            self.wf(),
        ensures
            out.reaches(self@.audience(msg.room@, msg.id), msg.data@),
    {
        self.send_str_data(msg.room.as_str(), msg.data.as_str(), msg.id)
    }

    /// The names of the rooms, oldest first.
    pub fn list_rooms(&self, _msg: ListRooms) -> (list: Vec<String>)
        requires
            self.wf(),
        ensures
            list@.len() == self@.rooms.len(),
            forall|i: int| 0 <= i < list@.len() ==> (#[trigger] list@[i])@ == self@.rooms[i],
    {
        let mut list: Vec<String> = Vec::new();
        let mut i: usize = 0;
        while i < self.rooms.len()
            invariant
                i <= self.rooms@.len(),
                list@.len() == i,
                forall|j: int| 0 <= j < i ==> (#[trigger] list@[j])@ == self.rooms@[j]@,
            decreases self.rooms@.len() - i,
        {
            list.push(self.rooms[i].clone());
            i += 1;
        }
        list
    }

    /// Moves a session to a room, which is created if it does not exist. The
    /// session leaves the room it was in; the others there are told that
    /// someone has left, and the others in the room entered that someone has
    /// come.
    pub fn join(&mut self, msg: Join) -> (r: Moved)
        requires
            old(self).wf(),
        ensures
            final(self).wf(),
            final(self)@ == old(self)@.join(msg.id, msg.room_name@),
            match r.left {
                Some(left) => old(self)@.room_of.contains_key(msg.id) && left.reaches(
                    old(self)@.audience(old(self)@.room_of[msg.id], msg.id),
                    left_notice(),
                ),
                None => !old(self)@.room_of.contains_key(msg.id),
            },
            r.entered.reaches(final(self)@.audience(msg.room_name@, msg.id), entered_notice()),
    {
        let Join { id, room_name } = msg;
        let left = match find_seat(&self.seats, id) {
            Some(k) => {
                proof {
                    lemma_seat(self.seats@, names(self.rooms@), k as int);
                }
                Some(
                    self.notice(self.seats[k].room, String::from_str("Someone disconnected"), id),
                )
            },
            None => None,
        };
        let ghost before = names(self.rooms@);
        let room = match find_room(&self.rooms, &room_name) {
            Some(i) => i,
            None => {
                self.rooms.push(room_name);
                self.rooms.len() - 1
            },
        };
        let ghost ns = names(self.rooms@);
        proof {
            lemma_more_rooms(self.seats@, before, ns);
        }
        seat(&mut self.seats, id, room, Ghost(ns));
        proof {
            assert forall|x: usize| #[trigger] self.sessions@.contains_key(x) implies 0 < x
                < self.next_id && seated(self.seats@, x) by {
                assert(placing(self.seats@, ns).contains_key(x));
            }
            assert(self@ =~= old(self)@.join(msg.id, msg.room_name@));
        }
        let entered = self.notice(room, String::from_str("Someone connected"), id);
        Moved { left, entered }
    }
}

/// Rooms that are added at the end leave everyone where they are.
proof fn lemma_more_rooms(seats: Seq<Seat>, before: Seq<Seq<char>>, after: Seq<Seq<char>>)
    requires
        rooms_exist(seats, before.len()),
        before.len() <= after.len(),
        forall|i: int| 0 <= i < before.len() ==> before[i] == after[i],
    ensures
        rooms_exist(seats, after.len()),
        placing(seats, after) == placing(seats, before),
{
    assert forall|id: usize| seated(seats, id) implies #[trigger] placing(seats, after)[id]
        == placing(seats, before)[id] by {
        assert(seats[seat_of(seats, id)].room < before.len());
    }
    assert(placing(seats, after) =~= placing(seats, before));
}

} // verus!
