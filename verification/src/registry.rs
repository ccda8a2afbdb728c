//! The registry: every room of the process, each under an identifier of its
//! own, and the two operations that change it, creating a room and joining one.

use crate::blackjack::{black_init, create_room, room_id_of, room_prefix};
use crate::room::{Room, RoomState, RoomView};
use vstd::prelude::*;
use vstd::string::StringExecFns;

verus! {

/// Some room of `rooms` has the identifier `id`.
pub open spec fn holds(rooms: Seq<RoomView>, id: Seq<char>) -> bool {
    exists|i: int| 0 <= i < rooms.len() && (#[trigger] rooms[i]).id == id
}

/// The place of a room with the identifier `id`, where `rooms` holds one.
pub open spec fn slot(rooms: Seq<RoomView>, id: Seq<char>) -> int {
    choose|i: int| 0 <= i < rooms.len() && (#[trigger] rooms[i]).id == id
}

/// No two rooms share an identifier.
pub open spec fn distinct_ids(rooms: Seq<RoomView>) -> bool {
    forall|i: int, j: int|
        0 <= i < j < rooms.len() ==> (#[trigger] rooms[i]).id != (#[trigger] rooms[j]).id
}

/// Every room is valid and no two share an identifier.
pub open spec fn valid_rooms(rooms: Seq<RoomView>) -> bool {
    &&& distinct_ids(rooms)
    &&& forall|i: int| 0 <= i < rooms.len() ==> (#[trigger] rooms[i]).valid()
}

/// `k` times the mark that tells a creator's later rooms from the first.
pub open spec fn marks(k: nat) -> Seq<char> {
    Seq::new(k, |i: int| '+')
}

/// The `k`-th identifier tried for a room of `creator`: the identifier made
/// of the creator's id, followed by `k` marks.
pub open spec fn candidate(creator: Seq<char>, k: nat) -> Seq<char> {
    room_id_of(creator) + marks(k)
}

/// `k` is the first candidate for `creator` that no room of `rooms` has.
pub open spec fn first_free(rooms: Seq<RoomView>, creator: Seq<char>, k: nat) -> bool {
    &&& !holds(rooms, candidate(creator, k))
    &&& forall|j: nat| j < k ==> holds(rooms, #[trigger] candidate(creator, j))
}

/// The identifier that the next room of `creator` gets: the one made of the
/// creator's id where that is free, else the first free one with marks added.
pub open spec fn fresh_id(rooms: Seq<RoomView>, creator: Seq<char>) -> Seq<char> {
    candidate(creator, choose|k: nat| first_free(rooms, creator, k))
}

/// `after` is `before` with one more room at its end: an open room of
/// `creator` called `name`, valid, under the fresh identifier.
pub open spec fn created(
    before: Seq<RoomView>,
    after: Seq<RoomView>,
    creator: Seq<char>,
    name: Seq<char>,
) -> bool {
    &&& after.len() == before.len() + 1
    &&& after.drop_last() == before
    &&& after.last().id == fresh_id(before, creator)
    &&& after.last().name == name
    &&& after.last().creator == creator
    &&& after.last().opponent is None
    &&& after.last().valid()
}

/// How an attempt to join ends, as plain values.
pub enum JoinOutcomeView {
    Joined(RoomView),
    RoomFull,
    RoomNotFound,
    SelfJoinRejected,
}

/// How an attempt to join ends. `Joined` carries the room as it is after the
/// joiner sat down.
#[derive(Debug)]
pub enum JoinOutcome {
    Joined(Room),
    RoomFull,
    RoomNotFound,
    SelfJoinRejected,
}

impl View for JoinOutcome {
    type V = JoinOutcomeView;

    open spec fn view(&self) -> JoinOutcomeView {
        match self {
            JoinOutcome::Joined(room) => JoinOutcomeView::Joined(room@),
            JoinOutcome::RoomFull => JoinOutcomeView::RoomFull,
            JoinOutcome::RoomNotFound => JoinOutcomeView::RoomNotFound,
            JoinOutcome::SelfJoinRejected => JoinOutcomeView::SelfJoinRejected,
        }
    }
}

/// What `joiner` gets when asking to join the room `id`. Asked in turn: is
/// there such a room, is it still open, is the joiner someone other than its
/// creator. The first "no" decides.
pub open spec fn join_result(
    rooms: Seq<RoomView>,
    id: Seq<char>,
    joiner: Seq<char>,
) -> JoinOutcomeView {
    if !holds(rooms, id) {
        JoinOutcomeView::RoomNotFound
    } else if rooms[slot(rooms, id)].opponent is Some {
        JoinOutcomeView::RoomFull
    } else if rooms[slot(rooms, id)].creator == joiner {
        JoinOutcomeView::SelfJoinRejected
    } else {
        JoinOutcomeView::Joined(rooms[slot(rooms, id)].seated(joiner))
    }
}

/// The rooms after `joiner` asked to join the room `id`: the joiner seated in
/// that room where the answer is `Joined`, nothing changed otherwise.
pub open spec fn after_join(
    rooms: Seq<RoomView>,
    id: Seq<char>,
    joiner: Seq<char>,
) -> Seq<RoomView> {
    match join_result(rooms, id, joiner) {
        JoinOutcomeView::Joined(room) => rooms.update(slot(rooms, id), room),
        _ => rooms,
    }
}

/// The rooms after a run of attempts to join, each a pair of room identifier
/// and joiner, made one after another.
pub open spec fn after_joins(
    rooms: Seq<RoomView>,
    attempts: Seq<(Seq<char>, Seq<char>)>,
) -> Seq<RoomView>
    decreases attempts.len(),
{
    if attempts.len() == 0 {
        rooms
    } else {
        after_join(
            after_joins(rooms, attempts.drop_last()),
            attempts.last().0,
            attempts.last().1,
        )
    }
}

/// `steps` are the states of a registry that starts empty and has one room
/// created in each step, the `i`-th for `creators[i]` under `names[i]`.
pub open spec fn creations(
    steps: Seq<Seq<RoomView>>,
    creators: Seq<Seq<char>>,
    names: Seq<Seq<char>>,
) -> bool {
    &&& steps.len() == creators.len() + 1
    &&& names.len() == creators.len()
    &&& steps[0].len() == 0
    &&& forall|i: int|
        0 <= i < creators.len() ==> created(
            #[trigger] steps[i],
            steps[i + 1],
            creators[i],
            names[i],
        )
}

/// The rooms of the process, in the order they were created.
#[derive(Debug)]
pub struct Registry {
    rooms: Vec<Room>,
}

impl View for Registry {
    type V = Seq<RoomView>;

    closed spec fn view(&self) -> Seq<RoomView> {
        self.rooms@.map_values(|room: Room| room@)
    }
}

impl Registry {
    /// Every room is valid and no two share an identifier. This holds of
    /// every registry there is.
    #[verifier::type_invariant]
    pub open spec fn wf(&self) -> bool {
        valid_rooms(self@)
    }

    /// A registry without rooms.
    pub fn new() -> (registry: Registry)
        ensures
            registry@ == Seq::<RoomView>::empty(),
            registry.wf(),
    {
        let registry = Registry { rooms: Vec::new() };
        assert(registry@ =~= Seq::<RoomView>::empty());
        registry
    }

    /// The number of rooms.
    pub fn len(&self) -> (n: usize)
        ensures
            n == self@.len(),
    {
        self.rooms.len()
    }

    /// The room at place `i`, counted from 0 in order of creation.
    pub fn get(&self, i: usize) -> (found: Option<&Room>)
        ensures
            match found {
                Some(room) => i < self@.len() && room@ == self@[i as int],
                None => i >= self@.len(),
            },
    {
        if i < self.rooms.len() {
            Some(&self.rooms[i])
        } else {
            None
        }
    }

    /// The place of the room with the identifier `id`, if there is one.
    fn position(&self, id: &String) -> (found: Option<usize>)
        ensures
            match found {
                Some(i) => i < self@.len() && self@[i as int].id == id@,
                None => !holds(self@, id@),
            },
    {
        let mut i: usize = 0;
        while i < self.rooms.len()
            invariant
                i <= self.rooms.len(),
                forall|j: int| 0 <= j < i ==> (#[trigger] self@[j]).id != id@,
            decreases self.rooms.len() - i,
        {
            if *self.rooms[i].id() == *id {
                return Some(i);
            }
            i += 1;
        }
        None
    }

    /// Whether some room has the identifier `room_id`.
    pub fn contains(&self, room_id: &str) -> (found: bool)
        ensures
            found == holds(self@, room_id@),
    {
        let id = String::from_str(room_id);
        self.position(&id).is_some()
    }

    /// The identifier for the next room of `creator_id`: candidates are tried
    /// in order, each one mark longer than the last, until one is free.
    fn next_id(&self, creator_id: &str) -> (id: String)
        ensures
            id@ == fresh_id(self@, creator_id@),
            !holds(self@, id@),
    {
        let mut id = create_room(creator_id);
        let ghost k: nat = 0;
        assert(id@ =~= candidate(creator_id@, 0));
        loop
            invariant
                id@ == candidate(creator_id@, k),
                forall|j: nat| j < k ==> holds(self@, #[trigger] candidate(creator_id@, j)),
            ensures
                first_free(self@, creator_id@, k),
                id@ == candidate(creator_id@, k),
            decreases as_long(self@, id@.len()),
        {
            if self.position(&id).is_none() {
                break;
            }
            proof {
                let i = choose|i: int| 0 <= i < self@.len() && (#[trigger] self@[i]).id == id@;
                lemma_fewer_longer(self@, id@.len(), i);
                reveal_strlit("+");
                assert(id@ + "+"@ =~= candidate(creator_id@, k + 1));
                k = k + 1;
            }
            id.append("+");
        }
        proof {
            lemma_first_free_is_fresh(self@, creator_id@, k);
        }
        id
    }

    /// Creates a room for `creator_id`, called `name`: it gets an identifier
    /// that no other room has and a fresh deal of the starting deck, is stored
    /// as the last room, open, and a copy of it is returned.
    pub fn create_room(&mut self, creator_id: &str, name: &str) -> (room: Room)
        ensures
            final(self).wf(),
            final(self)@ == old(self)@.push(room@),
            created(old(self)@, final(self)@, creator_id@, name@),
            !holds(old(self)@, room@.id),
    {
        proof {
            use_type_invariant(&*self);
        }
        let id = self.next_id(creator_id);
        let cards = black_init();
        let room = Room::open(id, String::from_str(name), String::from_str(creator_id), cards);
        let copy = room.snapshot();
        let mut rooms: Vec<Room> = Vec::new();
        proof {
            assert(rooms@.map_values(|room: Room| room@) =~= Seq::<RoomView>::empty());
        }
        std::mem::swap(&mut rooms, &mut self.rooms);
        rooms.push(room);
        proof {
            let stored = rooms@.map_values(|room: Room| room@);
            assert(stored =~= old(self)@.push(copy@));
            assert(stored.drop_last() =~= old(self)@);
            lemma_create_keeps_valid(old(self)@, stored, creator_id@, name@);
        }
        self.rooms = rooms;
        copy
    }

    /// Lets `joiner_id` ask for the second seat of the room `room_id`. The
    /// answer is `join_result`'s; only `Joined` changes the registry, by
    /// seating the joiner in that room, which is full from then on.
    pub fn try_join(&mut self, room_id: &str, joiner_id: &str) -> (outcome: JoinOutcome)
        ensures
            final(self).wf(),
            outcome@ == join_result(old(self)@, room_id@, joiner_id@),
            final(self)@ == after_join(old(self)@, room_id@, joiner_id@),
            outcome@ is RoomNotFound <==> !holds(old(self)@, room_id@),
            !(outcome@ is Joined) ==> final(self)@ == old(self)@,
    {
        proof {
            use_type_invariant(&*self);
        }
        let id = String::from_str(room_id);
        let joiner = String::from_str(joiner_id);
        match self.position(&id) {
            None => JoinOutcome::RoomNotFound,
            Some(i) => {
                proof {
                    lemma_slot_is(self@, id@, i as int);
                }
                if self.rooms[i].player2_id().is_some() {
                    JoinOutcome::RoomFull
                } else if *self.rooms[i].player1_id() == joiner {
                    JoinOutcome::SelfJoinRejected
                } else {
                    let mut rooms: Vec<Room> = Vec::new();
                    proof {
                        assert(rooms@.map_values(|room: Room| room@) =~= Seq::<RoomView>::empty());
                    }
                    std::mem::swap(&mut rooms, &mut self.rooms);
                    rooms[i].seat(joiner);
                    let copy = rooms[i].snapshot();
                    proof {
                        assert(rooms@.map_values(|room: Room| room@) =~= old(self)@.update(
                            i as int,
                            copy@,
                        ));
                        lemma_join_keeps_valid(old(self)@, room_id@, joiner_id@);
                    }
                    self.rooms = rooms;
                    JoinOutcome::Joined(copy)
                }
            },
        }
    }

    /// The room with the identifier `room_id`, where there is one.
    pub fn find_room(&self, room_id: &str) -> (found: Option<&Room>)
        ensures
            match found {
                Some(room) => holds(self@, room_id@) && room@ == self@[slot(self@, room_id@)],
                None => !holds(self@, room_id@),
            },
    {
        proof {
            use_type_invariant(self);
        }
        let id = String::from_str(room_id);
        match self.position(&id) {
            Some(i) => {
                proof {
                    lemma_slot_is(self@, id@, i as int);
                }
                Some(&self.rooms[i])
            },
            None => None,
        }
    }
}

/// How many rooms have an identifier of at least `n` characters.
spec fn as_long(rooms: Seq<RoomView>, n: nat) -> nat
    decreases rooms.len(),
{
    if rooms.len() == 0 {
        0
    } else {
        let before = as_long(rooms.drop_last(), n);
        if rooms.last().id.len() >= n {
            before + 1
        } else {
            before
        }
    }
}

/// Asking for one character more never leaves more rooms.
proof fn lemma_no_more_longer(rooms: Seq<RoomView>, n: nat)
    ensures
        as_long(rooms, n + 1) <= as_long(rooms, n),
    decreases rooms.len(),
{
    if rooms.len() > 0 {
        lemma_no_more_longer(rooms.drop_last(), n);
    }
}

/// A room whose identifier has exactly `n` characters is counted for `n` and
/// not for `n + 1`.
proof fn lemma_fewer_longer(rooms: Seq<RoomView>, n: nat, i: int)
    requires
        0 <= i < rooms.len(),
        rooms[i].id.len() == n,
    ensures
        as_long(rooms, n + 1) < as_long(rooms, n),
    decreases rooms.len(),
{
    if i == rooms.len() - 1 {
        lemma_no_more_longer(rooms.drop_last(), n);
    } else {
        assert(rooms.drop_last()[i] == rooms[i]);
        lemma_fewer_longer(rooms.drop_last(), n, i);
    }
}

/// The first free candidate is the one that `fresh_id` names.
pub proof fn lemma_first_free_is_fresh(rooms: Seq<RoomView>, creator: Seq<char>, k: nat)
    requires
        first_free(rooms, creator, k),
    ensures
        fresh_id(rooms, creator) == candidate(creator, k),
{
    let c = choose|c: nat| first_free(rooms, creator, c);
    if c < k {
        assert(holds(rooms, candidate(creator, c)));
    } else if k < c {
        assert(holds(rooms, candidate(creator, k)));
    }
}

/// Some candidate is free, whatever the rooms: the identifier that
/// `fresh_id` names is one that no room has.
pub proof fn lemma_fresh_id_is_free(rooms: Seq<RoomView>, creator: Seq<char>)
    ensures
        !holds(rooms, fresh_id(rooms, creator)),
        !holds(rooms, room_id_of(creator)) ==> fresh_id(rooms, creator) == room_id_of(creator),
{
    lemma_free_from(rooms, creator, 0);
    let k = choose|k: nat| first_free(rooms, creator, k);
    assert(first_free(rooms, creator, k));
    if !holds(rooms, room_id_of(creator)) {
        assert(candidate(creator, 0) =~= room_id_of(creator));
        lemma_first_free_is_fresh(rooms, creator, 0);
    }
}

/// Where every candidate before the `k`-th is taken, a free one follows.
proof fn lemma_free_from(rooms: Seq<RoomView>, creator: Seq<char>, k: nat)
    requires
        forall|j: nat| j < k ==> holds(rooms, #[trigger] candidate(creator, j)),
    ensures
        exists|c: nat| first_free(rooms, creator, c),
    decreases as_long(rooms, candidate(creator, k).len()),
{
    if holds(rooms, candidate(creator, k)) {
        let i = choose|i: int|
            0 <= i < rooms.len() && (#[trigger] rooms[i]).id == candidate(creator, k);
        lemma_fewer_longer(rooms, candidate(creator, k).len(), i);
        assert(candidate(creator, k + 1).len() == candidate(creator, k).len() + 1);
        lemma_free_from(rooms, creator, k + 1);
    } else {
        assert(first_free(rooms, creator, k));
    }
}

/// Joining changes no identifier and leaves the rooms valid.
pub proof fn lemma_join_keeps_valid(rooms: Seq<RoomView>, id: Seq<char>, joiner: Seq<char>)
    requires
        valid_rooms(rooms),
    ensures
        valid_rooms(after_join(rooms, id, joiner)),
        after_join(rooms, id, joiner).len() == rooms.len(),
        forall|i: int|
            0 <= i < rooms.len() ==> (#[trigger] after_join(rooms, id, joiner)[i]).id
                == rooms[i].id,
{
    let after = after_join(rooms, id, joiner);
    assert forall|i: int, j: int| 0 <= i < j < after.len() implies (#[trigger] after[i]).id != (
    #[trigger] after[j]).id by {
        assert(rooms[i].id != rooms[j].id);
    }
    assert forall|i: int| 0 <= i < after.len() implies (#[trigger] after[i]).valid() by {
        assert(rooms[i].valid());
    }
}

/// Among rooms with distinct identifiers, a room found under `id` is the one
/// that `slot` names.
pub proof fn lemma_slot_is(rooms: Seq<RoomView>, id: Seq<char>, i: int)
    requires
        distinct_ids(rooms),
        0 <= i < rooms.len(),
        rooms[i].id == id,
    ensures
        holds(rooms, id),
        slot(rooms, id) == i,
{
    let s = slot(rooms, id);
    assert(0 <= s < rooms.len() && rooms[s].id == id);
    if s < i {
        assert(rooms[s].id != rooms[i].id);
    } else if i < s {
        assert(rooms[i].id != rooms[s].id);
    }
}

/// A room that is added under an identifier that no room has keeps the rooms
/// valid, if it is valid itself.
pub proof fn lemma_create_keeps_valid(
    before: Seq<RoomView>,
    after: Seq<RoomView>,
    creator: Seq<char>,
    name: Seq<char>,
)
    requires
        valid_rooms(before),
        created(before, after, creator, name),
    ensures
        valid_rooms(after),
        !holds(before, after.last().id),
{
    lemma_fresh_id_is_free(before, creator);
    assert forall|i: int, j: int| 0 <= i < j < after.len() implies (#[trigger] after[i]).id != (
    #[trigger] after[j]).id by {
        assert(after[i] == before[i]);
        if j < before.len() {
            assert(after[j] == before[j]);
        }
    }
    assert forall|i: int| 0 <= i < after.len() implies (#[trigger] after[i]).valid() by {
        if i < before.len() {
            assert(after[i] == before[i]);
        }
    }
}

/// Two creators with the same first identifier are the same creator.
pub proof fn lemma_room_id_of_injective(a: Seq<char>, b: Seq<char>)
    requires
        room_id_of(a) == room_id_of(b),
    ensures
        a == b,
{
    let p = room_prefix();
    assert(a =~= room_id_of(a).subrange(p.len() as int, room_id_of(a).len() as int));
    assert(b =~= room_id_of(b).subrange(p.len() as int, room_id_of(b).len() as int));
}

/// After the first `n` steps of `creations` the registry holds `n` valid
/// rooms with `n` distinct identifiers, the `i`-th made by `creators[i]`;
/// where those creators are all different, each room has the identifier
/// made of its creator's id alone.
proof fn lemma_creations_upto(
    steps: Seq<Seq<RoomView>>,
    creators: Seq<Seq<char>>,
    names: Seq<Seq<char>>,
    n: int,
)
    requires
        creations(steps, creators, names),
        0 <= n <= creators.len(),
    ensures
        steps[n].len() == n,
        valid_rooms(steps[n]),
        forall|i: int| 0 <= i < n ==> (#[trigger] steps[n][i]).creator == creators[i],
        creators.no_duplicates() ==> forall|i: int|
            0 <= i < n ==> (#[trigger] steps[n][i]).id == room_id_of(creators[i]),
    decreases n,
{
    if n > 0 {
        lemma_creations_upto(steps, creators, names, n - 1);
        let before = steps[n - 1];
        let after = steps[n];
        assert(created(before, after, creators[n - 1], names[n - 1]));
        lemma_create_keeps_valid(before, after, creators[n - 1], names[n - 1]);
        assert forall|i: int| 0 <= i < n implies (#[trigger] after[i]).creator == creators[i] by {
            if i < n - 1 {
                assert(after[i] == before[i]);
            }
        }
        if creators.no_duplicates() {
            let base = room_id_of(creators[n - 1]);
            if holds(before, base) {
                let i = choose|i: int| 0 <= i < before.len() && (#[trigger] before[i]).id == base;
                lemma_room_id_of_injective(creators[i], creators[n - 1]);
            }
            lemma_fresh_id_is_free(before, creators[n - 1]);
            assert forall|i: int| 0 <= i < n implies (#[trigger] after[i]).id == room_id_of(
                creators[i],
            ) by {
                if i < n - 1 {
                    assert(after[i] == before[i]);
                }
            }
        }
    }
}

/// Creating rooms one after another in an empty registry, one for each of
/// `creators`, leaves as many rooms as there were creators, no two under the
/// same identifier. Where the creators are all different, the `i`-th room has
/// the identifier made of the `i`-th creator's id alone.
pub proof fn lemma_creations_give_distinct_rooms(
    steps: Seq<Seq<RoomView>>,
    creators: Seq<Seq<char>>,
    names: Seq<Seq<char>>,
)
    requires
        creations(steps, creators, names),
    ensures
        steps.last().len() == creators.len(),
        distinct_ids(steps.last()),
        valid_rooms(steps.last()),
        creators.no_duplicates() ==> forall|i: int|
            0 <= i < creators.len() ==> (#[trigger] steps.last()[i]).id == room_id_of(
                creators[i],
            ),
{
    lemma_creations_upto(steps, creators, names, creators.len() as int);
}

/// Asking for a room that does not exist gives `RoomNotFound`, whoever asks,
/// and changes nothing; no other request gives that answer.
pub proof fn lemma_unknown_room_not_found(rooms: Seq<RoomView>, id: Seq<char>, joiner: Seq<char>)
    ensures
        !holds(rooms, id) <==> join_result(rooms, id, joiner) is RoomNotFound,
        !holds(rooms, id) ==> after_join(rooms, id, joiner) == rooms,
{
}

/// The creator of an open room who asks to join it gets `SelfJoinRejected`,
/// and the room stays as it was.
pub proof fn lemma_self_join_rejected(rooms: Seq<RoomView>, id: Seq<char>, joiner: Seq<char>)
    requires
        holds(rooms, id),
        rooms[slot(rooms, id)].opponent is None,
        joiner == rooms[slot(rooms, id)].creator,
    ensures
        join_result(rooms, id, joiner) is SelfJoinRejected,
        after_join(rooms, id, joiner) == rooms,
{
}

/// A join that succeeds leaves the room full, with the joiner as opponent,
/// under the same identifier and at the same place.
pub proof fn lemma_joined_room_is_full(rooms: Seq<RoomView>, id: Seq<char>, joiner: Seq<char>)
    requires
        valid_rooms(rooms),
        join_result(rooms, id, joiner) is Joined,
    ensures
        holds(after_join(rooms, id, joiner), id),
        slot(after_join(rooms, id, joiner), id) == slot(rooms, id),
        after_join(rooms, id, joiner)[slot(rooms, id)].opponent == Some(joiner),
        after_join(rooms, id, joiner)[slot(rooms, id)].state() == RoomState::Full,
{
    lemma_join_keeps_valid(rooms, id, joiner);
    lemma_slot_is(after_join(rooms, id, joiner), id, slot(rooms, id));
}

/// Of two players, neither the creator, who ask one after the other for the
/// seat of the same open room, the first gets `Joined` and the second
/// `RoomFull`, whichever of the two comes first.
pub proof fn lemma_one_joiner_wins(
    rooms: Seq<RoomView>,
    id: Seq<char>,
    first: Seq<char>,
    second: Seq<char>,
)
    requires
        valid_rooms(rooms),
        holds(rooms, id),
        rooms[slot(rooms, id)].state() == RoomState::Open,
        first != rooms[slot(rooms, id)].creator,
        second != rooms[slot(rooms, id)].creator,
    ensures
        join_result(rooms, id, first) is Joined,
        join_result(after_join(rooms, id, first), id, second) is RoomFull,
        after_join(after_join(rooms, id, first), id, second) == after_join(rooms, id, first),
{
    lemma_joined_room_is_full(rooms, id, first);
}

/// A full room stays as it is under any run of further attempts to join, on
/// this room or on others, and whoever asks for its seat afterwards gets
/// `RoomFull`.
pub proof fn lemma_full_stays_full(
    rooms: Seq<RoomView>,
    id: Seq<char>,
    attempts: Seq<(Seq<char>, Seq<char>)>,
    joiner: Seq<char>,
)
    requires
        valid_rooms(rooms),
        holds(rooms, id),
        rooms[slot(rooms, id)].state() == RoomState::Full,
    ensures
        valid_rooms(after_joins(rooms, attempts)),
        holds(after_joins(rooms, attempts), id),
        slot(after_joins(rooms, attempts), id) == slot(rooms, id),
        after_joins(rooms, attempts)[slot(rooms, id)] == rooms[slot(rooms, id)],
        join_result(after_joins(rooms, attempts), id, joiner) is RoomFull,
    decreases attempts.len(),
{
    if attempts.len() > 0 {
        let earlier = after_joins(rooms, attempts.drop_last());
        let (other, who) = attempts.last();
        lemma_full_stays_full(rooms, id, attempts.drop_last(), joiner);
        lemma_join_keeps_valid(earlier, other, who);
        let later = after_join(earlier, other, who);
        let s = slot(rooms, id);
        if join_result(earlier, other, who) is Joined {
            assert(earlier[slot(earlier, other)].opponent is None);
            assert(slot(earlier, other) != s);
        }
        assert(later[s] == earlier[s]);
        lemma_slot_is(later, id, s);
    }
}

} // verus!
