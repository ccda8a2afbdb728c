//! Dealing: a deck is shuffled, its first four cards become two hands of two,
//! and what is left is the draw pile.

use rand::prelude::SliceRandom;
use rand::rngs::StdRng;
use rand::SeedableRng;
use vstd::prelude::*;
use vstd::seq_lib::*;
use vstd::string::StringExecFns;

verus! {

/// The text every room identifier starts with.
pub open spec fn room_prefix() -> Seq<char> {
    "room_"@
}

/// The identifier derived from a creator's connection id alone.
pub open spec fn room_id_of(player1_id: Seq<char>) -> Seq<char> {
    room_prefix() + player1_id
}

/// The deck every table starts from: one card of each value from 1 to 11.
pub open spec fn starting_deck() -> Seq<u8> {
    seq![1u8, 2u8, 3u8, 4u8, 5u8, 6u8, 7u8, 8u8, 9u8, 10u8, 11u8]
}

/// `cards` followed by `rest` holds exactly the cards of `deck`, each as often
/// as `deck` does: nothing is lost and nothing is dealt twice.
pub open spec fn conserves(deck: Seq<u8>, cards: Seq<u8>, rest: Seq<u8>) -> bool {
    (cards + rest).to_multiset() == deck.to_multiset()
}

/// No card value of `a` is a card value of `b`.
pub open spec fn apart(a: Seq<u8>, b: Seq<u8>) -> bool {
    forall|i: int, j: int| 0 <= i < a.len() && 0 <= j < b.len() ==> a[i] != b[j]
}

/// The order in which a deck comes back from a shuffle driven by the standard
/// generator seeded with `seed`.
pub uninterp spec fn seeded_order(deck: Seq<u8>, seed: u64) -> Seq<u8>;

/// Two hands of two cards and the draw pile that was left after dealing them.
#[derive(Debug)]
pub struct BlackjackInit {
    pub par_1: Vec<u8>,
    pub par_2: Vec<u8>,
    pub restante: Vec<u8>,
}

impl BlackjackInit {
    /// All the cards of the deal, hands first, in the order they were drawn.
    pub open spec fn cards(&self) -> Seq<u8> {
        self.par_1@ + self.par_2@ + self.restante@
    }

    /// Both hands hold two cards, and hands and draw pile together are the
    /// cards of `deck`, each exactly as often as in `deck`.
    pub open spec fn partitions(&self, deck: Seq<u8>) -> bool {
        &&& self.par_1@.len() == 2
        &&& self.par_2@.len() == 2
        &&& self.cards().to_multiset() == deck.to_multiset()
    }

    /// No card value lies in two of the three parts.
    pub open spec fn parts_apart(&self) -> bool {
        &&& apart(self.par_1@, self.par_2@)
        &&& apart(self.par_1@, self.restante@)
        &&& apart(self.par_2@, self.restante@)
    }

    /// The deal that takes the cards of `order` as they lie: the first two to
    /// the first hand, the next two to the second, the others to the pile.
    pub open spec fn cut_from(&self, order: Seq<u8>) -> bool {
        &&& self.par_1@ == order.subrange(0, 2)
        &&& self.par_2@ == order.subrange(2, 4)
        &&& self.restante@ == order.subrange(4, order.len() as int)
    }

    /// Lays out four drawn cards as two hands, beside the pile they left.
    pub fn from_draw(pares: [u8; 4], restante: Vec<u8>) -> (init: BlackjackInit)
        ensures
            init.cut_from(pares@ + restante@),
            init.cards() == pares@ + restante@,
    {
        let init = BlackjackInit {
            par_1: vec![pares[0], pares[1]],
            par_2: vec![pares[2], pares[3]],
            restante,
        };
        assert(init.par_1@ =~= (pares@ + restante@).subrange(0, 2));
        assert(init.par_2@ =~= (pares@ + restante@).subrange(2, 4));
        assert(init.restante@ =~= (pares@ + restante@).subrange(
            4,
            (pares@ + restante@).len() as int,
        ));
        assert(init.cards() =~= pares@ + restante@);
        init
    }
}

/// Shuffles with `SliceRandom::shuffle` of `rand`, driven by the thread's
/// generator from `rand::rng`. The method only swaps elements of the slice,
/// so all that is claimed is that the deck comes back rearranged: the same
/// cards, each as often as before. Which arrangement is left open.
#[verifier::external_body]
fn shuffle(deck: &mut Vec<u8>)
    ensures
        final(deck)@.to_multiset() == old(deck)@.to_multiset(),
{
    deck.shuffle(&mut rand::rng());
}

/// Shuffles with `SliceRandom::shuffle` of `rand`, driven by a `StdRng` made
/// by `SeedableRng::seed_from_u64`. The generator depends on the seed alone
/// and the shuffle on the generator and the slice, so the arrangement that
/// comes back is a function of deck and seed; as above it is a rearrangement.
#[verifier::external_body]
fn shuffle_seeded(deck: &mut Vec<u8>, seed: u64)
    ensures
        final(deck)@ == seeded_order(old(deck)@, seed),
        final(deck)@.to_multiset() == old(deck)@.to_multiset(),
{
    let mut rng = StdRng::seed_from_u64(seed);
    deck.shuffle(&mut rng);
}

/// Builds the identifier of the room that `player1_id` opens: the prefix
/// followed by the creator's id, unchanged.
pub fn create_room(player1_id: &str) -> (room_id: String)
    ensures
        room_id@ == room_id_of(player1_id@),
{
    let room_id = String::from_str("room_").concat(player1_id);
    room_id
}

/// A fresh copy of the starting deck, in ascending order.
pub fn full_deck() -> (deck: Vec<u8>)
    ensures
        deck@ == starting_deck(),
{
    let deck: Vec<u8> = vec![1, 2, 3, 4, 5, 6, 7, 8, 9, 10, 11];
    assert(deck@ =~= starting_deck());
    deck
}

/// Takes the first four cards off the deck, in order, and leaves the others
/// in place.
pub fn draw_four(deck: &mut Vec<u8>) -> (pares: [u8; 4])
    requires
        old(deck)@.len() >= 4,
    ensures
        pares@ == old(deck)@.subrange(0, 4),
        final(deck)@ == old(deck)@.subrange(4, old(deck)@.len() as int),
{
    let pares: [u8; 4] = [deck[0], deck[1], deck[2], deck[3]];
    let rest = deck.split_off(4);
    *deck = rest;
    assert(pares@ =~= old(deck)@.subrange(0, 4));
    pares
}

/// Shuffles the deck and draws two pairs from it: the four cards returned and
/// the cards left in `deck` are together exactly the cards that `deck` held.
pub fn sort_cards(deck: &mut Vec<u8>) -> (pares: [u8; 4])
    requires
        old(deck)@.len() >= 4,
    ensures
        conserves(old(deck)@, pares@, final(deck)@),
        final(deck)@.len() == old(deck)@.len() - 4,
        old(deck)@.no_duplicates() ==> (pares@ + final(deck)@).no_duplicates(),
{
    shuffle(deck);
    proof {
        old(deck)@.to_multiset_ensures();
        deck@.to_multiset_ensures();
    }
    let ghost shuffled = deck@;
    let pares = draw_four(deck);
    proof {
        assert(pares@ + deck@ =~= shuffled);
        lemma_rearranged_no_duplicates(old(deck)@, shuffled);
    }
    pares
}

/// Deals `deck`: after a shuffle the first two cards are the first hand, the
/// next two the second hand, the others the draw pile. No card is lost or
/// dealt twice; which arrangement the shuffle picks is left to chance.
pub fn deal(deck: Vec<u8>) -> (init: BlackjackInit)
    requires
        deck@.len() >= 4,
    ensures
        init.partitions(deck@),
        init.restante@.len() == deck@.len() - 4,
        deck@.no_duplicates() ==> init.cards().no_duplicates() && init.parts_apart(),
{
    let mut pile = deck;
    let pares = sort_cards(&mut pile);
    let init = BlackjackInit::from_draw(pares, pile);
    proof {
        lemma_parts_apart(init.par_1@, init.par_2@, init.restante@);
    }
    init
}

/// Deals `deck` as `deal` does, with the shuffle driven by `seed`: the same
/// deck and seed always give the same hands and pile.
pub fn deal_seeded(deck: Vec<u8>, seed: u64) -> (init: BlackjackInit)
    requires
        deck@.len() >= 4,
    ensures
        init.cut_from(seeded_order(deck@, seed)),
        init.partitions(deck@),
        init.restante@.len() == deck@.len() - 4,
        deck@.no_duplicates() ==> init.cards().no_duplicates() && init.parts_apart(),
{
    let mut pile = deck;
    shuffle_seeded(&mut pile, seed);
    proof {
        deck@.to_multiset_ensures();
        pile@.to_multiset_ensures();
        lemma_rearranged_no_duplicates(deck@, pile@);
    }
    let ghost order = pile@;
    let pares = draw_four(&mut pile);
    assert(pares@ + pile@ =~= order);
    let init = BlackjackInit::from_draw(pares, pile);
    proof {
        lemma_parts_apart(init.par_1@, init.par_2@, init.restante@);
    }
    init
}

/// Deals the starting deck for a table: two hands of two and a pile of seven,
/// all eleven values present once.
pub fn black_init() -> (init: BlackjackInit)
    ensures
        init.partitions(starting_deck()),
        init.restante@.len() == 7,
        init.cards().no_duplicates(),
        init.parts_apart(),
{
    let total_deck = full_deck();
    proof {
        lemma_starting_deck_distinct();
    }
    deal(total_deck)
}

/// The starting deck holds eleven cards, no value twice, each from 1 to 11.
pub proof fn lemma_starting_deck_distinct()
    ensures
        starting_deck().len() == 11,
        starting_deck().no_duplicates(),
        forall|i: int| 0 <= i < 11 ==> 1 <= #[trigger] starting_deck()[i] <= 11,
{
    assert forall|i: int| 0 <= i < 11 implies #[trigger] starting_deck()[i] == i + 1 by {}
}

/// Where three sequences laid end to end hold no value twice, no two of them
/// share a value.
pub proof fn lemma_parts_apart(a: Seq<u8>, b: Seq<u8>, c: Seq<u8>)
    ensures
        (a + b + c).no_duplicates() ==> apart(a, b) && apart(a, c) && apart(b, c),
{
    let all = a + b + c;
    if all.no_duplicates() {
        assert forall|i: int, j: int| 0 <= i < a.len() && 0 <= j < b.len() implies a[i]
            != b[j] by {
            assert(all[i] == a[i] && all[a.len() + j] == b[j]);
        }
        assert forall|i: int, j: int| 0 <= i < a.len() && 0 <= j < c.len() implies a[i]
            != c[j] by {
            assert(all[i] == a[i] && all[a.len() + b.len() + j] == c[j]);
        }
        assert forall|i: int, j: int| 0 <= i < b.len() && 0 <= j < c.len() implies b[i]
            != c[j] by {
            assert(all[a.len() + i] == b[i] && all[a.len() + b.len() + j] == c[j]);
        }
    }
}

/// A rearrangement of a sequence without duplicates has none either.
pub proof fn lemma_rearranged_no_duplicates(before: Seq<u8>, after: Seq<u8>)
    requires
        before.to_multiset() == after.to_multiset(),
    ensures
        before.no_duplicates() ==> after.no_duplicates(),
{
    if before.no_duplicates() {
        before.lemma_multiset_has_no_duplicates();
        after.lemma_multiset_has_no_duplicates_conv();
    }
}

} // verus!
