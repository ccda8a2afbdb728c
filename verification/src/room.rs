//! A room: one table for two players, with the cards dealt for it.

use crate::blackjack::{
    apart, lemma_parts_apart, lemma_rearranged_no_duplicates, lemma_starting_deck_distinct,
    starting_deck, BlackjackInit,
};
use vstd::prelude::*;

verus! {

/// Whether a second player can still sit down.
#[derive(Clone, Copy, Debug, PartialEq, Eq, Structural)]
pub enum RoomState {
    Open,
    Full,
}

/// What a room holds, as plain values.
pub struct RoomView {
    pub id: Seq<char>,
    pub name: Seq<char>,
    pub creator: Seq<char>,
    pub opponent: Option<Seq<char>>,
    pub hand_1: Seq<u8>,
    pub hand_2: Seq<u8>,
    pub pile: Seq<u8>,
}

impl RoomView {
    /// Open while nobody has joined, full from then on.
    pub open spec fn state(self) -> RoomState {
        if self.opponent is None {
            RoomState::Open
        } else {
            RoomState::Full
        }
    }

    /// The cards of the room: both hands, then the draw pile.
    pub open spec fn cards(self) -> Seq<u8> {
        self.hand_1 + self.hand_2 + self.pile
    }

    /// Each hand has two cards; hands and pile together are the starting deck,
    /// every card once; and the creator is not their own opponent.
    pub open spec fn valid(self) -> bool {
        &&& self.hand_1.len() == 2
        &&& self.hand_2.len() == 2
        &&& self.cards().to_multiset() == starting_deck().to_multiset()
        &&& self.opponent != Some(self.creator)
    }

    /// The same room with `joiner` seated as the opponent.
    pub open spec fn seated(self, joiner: Seq<char>) -> RoomView {
        RoomView { opponent: Some(joiner), ..self }
    }
}

/// The characters of an optional id.
pub open spec fn id_view(id: Option<String>) -> Option<Seq<char>> {
    match id {
        Some(s) => Some(s@),
        None => None,
    }
}

/// A table: its identifier and display name, the connection that created it,
/// the one that joined (if any), both hands and the draw pile.
#[derive(Debug)]
pub struct Room {
    id: String,
    name: String,
    player1_id: String,
    player2_id: Option<String>,
    deck: Vec<u8>,
    deck_1: Vec<u8>,
    deck_2: Vec<u8>,
}

impl View for Room {
    type V = RoomView;

    closed spec fn view(&self) -> RoomView {
        RoomView {
            id: self.id@,
            name: self.name@,
            creator: self.player1_id@,
            opponent: id_view(self.player2_id),
            hand_1: self.deck_1@,
            hand_2: self.deck_2@,
            pile: self.deck@,
        }
    }
}

impl Room {
    /// The room keeps its cards and its players apart as `RoomView::valid`
    /// says. This holds of every room there is.
    #[verifier::type_invariant]
    pub open spec fn wf(&self) -> bool {
        self@.valid()
    }

    /// An open room for `player1_id`, holding the deal `init`.
    pub(crate) fn open(id: String, name: String, player1_id: String, init: BlackjackInit) -> (room: Room)
        requires
            init.partitions(starting_deck()),
        ensures
            room@ == (RoomView {
                id: id@,
                name: name@,
                creator: player1_id@,
                opponent: None,
                hand_1: init.par_1@,
                hand_2: init.par_2@,
                pile: init.restante@,
            }),
            room.wf(),
    {
        Room {
            id,
            name,
            player1_id,
            player2_id: None,
            deck: init.restante,
            deck_1: init.par_1,
            deck_2: init.par_2,
        }
    }

    /// Seats `joiner` as the opponent of an open room that someone else made.
    pub(crate) fn seat(&mut self, joiner: String)
        requires
            old(self)@.opponent is None,
            joiner@ != old(self)@.creator,
        ensures
            final(self)@ == old(self)@.seated(joiner@),
            final(self).wf(),
    {
        proof {
            use_type_invariant(&*self);
        }
        self.player2_id = Some(joiner);
    }

    /// The room's identifier.
    pub fn id(&self) -> (id: &String)
        ensures
            id@ == self@.id,
    {
        &self.id
    }

    /// The room's display name.
    pub fn name(&self) -> (name: &String)
        ensures
            name@ == self@.name,
    {
        &self.name
    }

    /// The connection that created the room.
    pub fn player1_id(&self) -> (creator: &String)
        ensures
            creator@ == self@.creator,
    {
        &self.player1_id
    }

    /// The connection that joined the room, if one has.
    pub fn player2_id(&self) -> (opponent: &Option<String>)
        ensures
            id_view(*opponent) == self@.opponent,
    {
        &self.player2_id
    }

    /// The draw pile.
    pub fn deck(&self) -> (pile: &Vec<u8>)
        ensures
            pile@ == self@.pile,
    {
        &self.deck
    }

    /// The creator's hand.
    pub fn deck_1(&self) -> (hand: &Vec<u8>)
        ensures
            hand@ == self@.hand_1,
    {
        &self.deck_1
    }

    /// The opponent's hand, dealt when the room was created.
    pub fn deck_2(&self) -> (hand: &Vec<u8>)
        ensures
            hand@ == self@.hand_2,
    {
        &self.deck_2
    }

    /// Whether a second player can still join.
    pub fn state(&self) -> (state: RoomState)
        ensures
            state == self@.state(),
    {
        if self.player2_id.is_none() {
            RoomState::Open
        } else {
            RoomState::Full
        }
    }

    /// A copy of the room, field for field.
    pub fn snapshot(&self) -> (copy: Room)
        ensures
            copy@ == self@,
    {
        proof {
            use_type_invariant(self);
        }
        let player2_id = match &self.player2_id {
            Some(id) => Some(id.clone()),
            None => None,
        };
        let deck = self.deck.clone();
        let deck_1 = self.deck_1.clone();
        let deck_2 = self.deck_2.clone();
        assert(deck@ =~= self.deck@);
        assert(deck_1@ =~= self.deck_1@);
        assert(deck_2@ =~= self.deck_2@);
        let copy = Room {
            id: self.id.clone(),
            name: self.name.clone(),
            player1_id: self.player1_id.clone(),
            player2_id,
            deck,
            deck_1,
            deck_2,
        };
        copy
    }
}

/// In a valid room the draw pile has seven cards, every card has a value from
/// 1 to 11, no value lies twice on the table, and so no two of the hands and
/// the pile share a card.
pub proof fn lemma_valid_room_cards(room: RoomView)
    requires
        room.valid(),
    ensures
        room.pile.len() == 7,
        room.cards().len() == 11,
        room.cards().no_duplicates(),
        forall|i: int| 0 <= i < 11 ==> 1 <= #[trigger] room.cards()[i] <= 11,
        apart(room.hand_1, room.hand_2),
        apart(room.hand_1, room.pile),
        apart(room.hand_2, room.pile),
{
    let cards = room.cards();
    lemma_starting_deck_distinct();
    cards.to_multiset_ensures();
    starting_deck().to_multiset_ensures();
    lemma_rearranged_no_duplicates(starting_deck(), cards);
    lemma_parts_apart(room.hand_1, room.hand_2, room.pile);
    assert forall|i: int| 0 <= i < 11 implies 1 <= #[trigger] cards[i] <= 11 by {
        assert(cards.contains(cards[i]));
        assert(cards.to_multiset().count(cards[i]) > 0);
        assert(starting_deck().to_multiset().count(cards[i]) > 0);
        assert(starting_deck().contains(cards[i]));
    }
}

} // verus!
