//! The registry as mathematics: what it holds, and what each operation makes
//! of it.

use vstd::prelude::*;

verus! {

/// Name of the room that every session is placed in when it registers.
pub open spec fn main_room() -> Seq<char> {
    "main"@
}

/// What a registry holds.
#[verifier::ext_equal]
pub struct RegistryView<C> {
    /// The names of the rooms, oldest first.
    pub rooms: Seq<Seq<char>>,
    /// For each id that is a member of a room, the room's name.
    pub room_of: Map<usize, Seq<char>>,
    /// For each registered session, its outbound channel.
    pub sessions: Map<usize, C>,
    /// The id that the next registration is given.
    pub next_id: nat,
}

impl<C> RegistryView<C> {
    /// A registry in which nothing has happened yet: the default room, empty.
    pub open spec fn fresh() -> Self {
        RegistryView {
            rooms: seq![main_room()],
            room_of: Map::empty(),
            sessions: Map::empty(),
            next_id: 1,
        }
    }

    /// What holds of every registry: room names are not repeated and the
    /// default room is the first of them; a member's room is one of the
    /// rooms; a registered session has an id that was handed out, which is
    /// never zero, and is a member of a room.
    pub open spec fn inv(self) -> bool {
        &&& self.rooms.no_duplicates()
        &&& self.rooms.len() > 0
        &&& self.rooms[0] == main_room()
        &&& self.room_of.dom().finite()
        &&& self.sessions.dom().finite()
        &&& 1 <= self.next_id <= usize::MAX
        &&& forall|id: usize| #[trigger]
            self.room_of.contains_key(id) ==> self.rooms.contains(self.room_of[id])
        &&& forall|id: usize| #[trigger]
            self.sessions.contains_key(id) ==> 0 < id < self.next_id && self.room_of.contains_key(
                id,
            )
    }

    /// The members of `room`. A room that does not exist has none.
    pub open spec fn members(self, room: Seq<char>) -> Set<usize> {
        Set::new(|id: usize| self.room_of.contains_key(id) && self.room_of[id] == room)
    }

    /// Whether `id` is a member of `room`.
    pub open spec fn is_member(self, id: usize, room: Seq<char>) -> bool {
        self.room_of.contains_key(id) && self.room_of[id] == room
    }

    /// The sessions that a message for `room` reaches: its members that are
    /// registered, but for `skip`.
    pub open spec fn audience(self, room: Seq<char>, skip: usize) -> Set<usize> {
        Set::new(
            |id: usize| self.is_member(id, room) && self.sessions.contains_key(id) && id != skip,
        )
    }

    /// The room names once `room` is among them.
    pub open spec fn rooms_with(self, room: Seq<char>) -> Seq<Seq<char>> {
        if self.rooms.contains(room) {
            self.rooms
        } else {
            self.rooms.push(room)
        }
    }

    /// Whether another session can be registered: the ids are not used up.
    pub open spec fn has_free_id(self) -> bool {
        self.next_id < usize::MAX
    }

    /// The registry after a session with channel `addr` has registered. It is
    /// given the next id and becomes a member of the default room.
    pub open spec fn connect(self, addr: C) -> Self {
        RegistryView {
            rooms: self.rooms,
            room_of: self.room_of.insert(self.next_id as usize, main_room()),
            sessions: self.sessions.insert(self.next_id as usize, addr),
            next_id: self.next_id + 1,
        }
    }

    /// The registry after `id` has deregistered: a registered session loses
    /// its channel and its place; for any other id nothing changes.
    pub open spec fn disconnect(self, id: usize) -> Self {
        if self.sessions.contains_key(id) {
            RegistryView {
                rooms: self.rooms,
                room_of: self.room_of.remove(id),
                sessions: self.sessions.remove(id),
                next_id: self.next_id,
            }
        } else {
            self
        }
    }

    /// The registry after `id` has moved to `room`, which exists from then on.
    pub open spec fn join(self, id: usize, room: Seq<char>) -> Self {
        RegistryView {
            rooms: self.rooms_with(room),
            room_of: self.room_of.insert(id, room),
            sessions: self.sessions,
            next_id: self.next_id,
        }
    }

    /// The registry after a registration has been asked for: it takes place
    /// as long as the ids are not used up.
    pub open spec fn register(self, addr: C) -> Self {
        if self.has_free_id() {
            self.connect(addr)
        } else {
            self
        }
    }

    /// The registry after `op`.
    pub open spec fn apply(self, op: Operation<C>) -> Self {
        match op {
            Operation::Connect(addr) => self.register(addr),
            Operation::Disconnect(id) => self.disconnect(id),
            Operation::Join(id, room) => self.join(id, room),
        }
    }

    /// The registry after `ops`, one after the other.
    pub open spec fn run(self, ops: Seq<Operation<C>>) -> Self
        decreases ops.len(),
    {
        if ops.len() == 0 {
            self
        } else {
            self.run(ops.drop_last()).apply(ops.last())
        }
    }

    /// The registry after sessions with the channels `addrs` have registered,
    /// one after the other.
    pub open spec fn connect_all(self, addrs: Seq<C>) -> Self
        decreases addrs.len(),
    {
        if addrs.len() == 0 {
            self
        } else {
            self.connect_all(addrs.drop_last()).connect(addrs.last())
        }
    }

    /// The invariant holds of a registry in which nothing has happened yet.
    pub proof fn lemma_fresh_inv()
        ensures
            Self::fresh().inv(),
    {
    }

    /// No operation breaks the invariant.
    pub proof fn lemma_apply_inv(self, op: Operation<C>)
        requires
            self.inv(),
        ensures
            self.apply(op).inv(),
    {
        let after = self.apply(op);
        match op {
            Operation::Connect(_) => {},
            Operation::Disconnect(_) => {},
            Operation::Join(id, room) => {
                let rooms = self.rooms_with(room);
                assert(rooms.contains(room)) by {
                    if !self.rooms.contains(room) {
                        assert(rooms[self.rooms.len() as int] == room);
                    }
                }
                assert forall|x: usize| #[trigger]
                    after.room_of.contains_key(x) implies rooms.contains(after.room_of[x]) by {
                    if x != id {
                        let i = choose|i: int|
                            0 <= i < self.rooms.len() && self.rooms[i] == self.room_of[x];
                        assert(rooms[i] == self.room_of[x]);
                    }
                }
            },
        }
    }

    /// No run of operations breaks the invariant.
    pub proof fn lemma_run_inv(self, ops: Seq<Operation<C>>)
        requires
            self.inv(),
        ensures
            self.run(ops).inv(),
        decreases ops.len(),
    {
        if ops.len() > 0 {
            self.lemma_run_inv(ops.drop_last());
            self.run(ops.drop_last()).lemma_apply_inv(ops.last());
        }
    }

    /// An id is a member of one room at most.
    pub proof fn lemma_one_room(self, id: usize, first: Seq<char>, second: Seq<char>)
        requires
            self.members(first).contains(id),
            self.members(second).contains(id),
        ensures
            first == second,
    {
    }

    /// A registration hands out an id that no registered session has, and
    /// that is not zero.
    pub proof fn lemma_connect_new_id(self, addr: C)
        requires
            self.inv(),
            self.has_free_id(),
        ensures
            !self.sessions.contains_key(self.next_id as usize),
            self.next_id as usize != 0,
            self.connect(addr).sessions.contains_key(self.next_id as usize),
            self.connect(addr).sessions[self.next_id as usize] == addr,
            self.connect(addr).members(main_room()).contains(self.next_id as usize),
    {
    }

    /// A message to a room reaches every registered member of that room but
    /// the sender, and nobody else: nobody outside the room, and never the
    /// sender.
    pub proof fn lemma_audience(self, room: Seq<char>, sender: usize)
        ensures
            self.audience(room, sender).subset_of(self.members(room)),
            !self.audience(room, sender).contains(sender),
            forall|id: usize|
                self.members(room).contains(id) && self.sessions.contains_key(id) && id != sender
                    ==> #[trigger] self.audience(room, sender).contains(id),
            forall|id: usize, other: Seq<char>|
                other != room && self.members(other).contains(id) ==> !self.audience(
                    room,
                    sender,
                ).contains(id),
    {
    }

    /// After a move the id is a member of the room it moved to and of no
    /// other, and a message to any other room no longer reaches it.
    pub proof fn lemma_join_one_room(self, id: usize, room: Seq<char>)
        ensures
            forall|r: Seq<char>| #[trigger]
                self.join(id, room).members(r).contains(id) <==> r == room,
            forall|r: Seq<char>, skip: usize|
                r != room ==> !(#[trigger] self.join(id, room).audience(r, skip)).contains(id),
    {
    }

    /// A session that has deregistered is a member of no room, and no message
    /// to any room reaches it.
    pub proof fn lemma_disconnect_leaves(self, id: usize)
        requires
            self.inv(),
        ensures
            !self.disconnect(id).sessions.contains_key(id),
            self.sessions.contains_key(id) ==> forall|r: Seq<char>|
                !(#[trigger] self.disconnect(id).members(r)).contains(id),
            forall|r: Seq<char>, skip: usize|
                !(#[trigger] self.disconnect(id).audience(r, skip)).contains(id),
    {
    }

    /// An id that has been handed out is not handed out again, so a session
    /// that is not registered stays so whatever happens.
    pub proof fn lemma_gone_for_good(self, id: usize, ops: Seq<Operation<C>>)
        requires
            self.inv(),
            id < self.next_id,
            !self.sessions.contains_key(id),
        ensures
            !self.run(ops).sessions.contains_key(id),
            id < self.run(ops).next_id,
        decreases ops.len(),
    {
        if ops.len() > 0 {
            self.lemma_gone_for_good(id, ops.drop_last());
            self.lemma_run_inv(ops.drop_last());
        }
    }

    /// Once a session has deregistered, no message reaches it any more,
    /// whatever happens in the registry afterwards.
    pub proof fn lemma_disconnected_gets_nothing(
        self,
        id: usize,
        ops: Seq<Operation<C>>,
        room: Seq<char>,
        skip: usize,
    )
        requires
            self.inv(),
            self.sessions.contains_key(id),
        ensures
            !self.disconnect(id).run(ops).audience(room, skip).contains(id),
    {
        self.lemma_apply_inv(Operation::Disconnect(id));
        self.disconnect(id).lemma_gone_for_good(id, ops);
    }

    /// When sessions register with a registry in which nothing has happened
    /// yet, each gets the next number, starting at one, and is a member of
    /// the default room, which has nobody else.
    pub proof fn lemma_connect_all(addrs: Seq<C>)
        requires
            addrs.len() < usize::MAX,
        ensures
            Self::fresh().connect_all(addrs).inv(),
            Self::fresh().connect_all(addrs).next_id == addrs.len() + 1,
            forall|id: usize|
                Self::fresh().connect_all(addrs).room_of.contains_key(id) <==> 1 <= id
                    <= addrs.len(),
            forall|id: usize|
                Self::fresh().connect_all(addrs).sessions.contains_key(id) <==> 1 <= id
                    <= addrs.len(),
            forall|id: usize|
                1 <= id <= addrs.len() ==> Self::fresh().connect_all(addrs).room_of[id]
                    == main_room() && Self::fresh().connect_all(addrs).sessions[id] == addrs[id
                    - 1],
            Self::fresh().connect_all(addrs).members(main_room()).finite(),
            Self::fresh().connect_all(addrs).members(main_room()).len() == addrs.len(),
        decreases addrs.len(),
    {
        let all = Self::fresh().connect_all(addrs);
        if addrs.len() == 0 {
            Self::lemma_fresh_inv();
            assert(all.members(main_room()) =~= Set::<usize>::empty());
        } else {
            let before = Self::fresh().connect_all(addrs.drop_last());
            Self::lemma_connect_all(addrs.drop_last());
            before.lemma_apply_inv(Operation::Connect(addrs.last()));
            let id = addrs.len() as usize;
            assert(all.members(main_room()) =~= before.members(main_room()).insert(id));
        }
    }

    /// The id that the registration number `i`, counted from zero, is given
    /// when sessions with the channels `addrs` register, one after the other,
    /// with a registry in which nothing has happened yet.
    pub open spec fn id_of(addrs: Seq<C>, i: int) -> usize {
        Self::fresh().connect_all(addrs.take(i)).next_id as usize
    }

    /// When sessions register one after the other with a registry in which
    /// nothing has happened yet, their ids differ from each other, each is
    /// registered with its own channel, and the default room has as many
    /// members as sessions have registered: these sessions.
    pub proof fn lemma_registrations(addrs: Seq<C>)
        requires
            addrs.len() < usize::MAX,
        ensures
            Self::fresh().connect_all(addrs).members(main_room()).finite(),
            Self::fresh().connect_all(addrs).members(main_room()).len() == addrs.len(),
            forall|i: int, j: int|
                0 <= i < j < addrs.len() ==> Self::id_of(addrs, i) != Self::id_of(addrs, j),
            forall|i: int|
                0 <= i < addrs.len() ==> {
                    let id = #[trigger] Self::id_of(addrs, i);
                    let all = Self::fresh().connect_all(addrs);
                    all.members(main_room()).contains(id) && all.sessions.contains_key(id)
                        && all.sessions[id] == addrs[i]
                },
    {
        Self::lemma_connect_all(addrs);
        assert forall|i: int| 0 <= i < addrs.len() implies #[trigger] Self::id_of(addrs, i) == i
            + 1 by {
            Self::lemma_connect_all(addrs.take(i));
        }
    }
}

/// What changes a registry.
pub enum Operation<C> {
    /// A session with the given channel registers.
    Connect(C),
    /// The session with the given id deregisters.
    Disconnect(usize),
    /// The given id moves to the given room.
    Join(usize, Seq<char>),
}

} // verus!
