use std::collections::VecDeque;

use rand::seq::SliceRandom;
use vstd::prelude::*;

verus! {

/// Number of cards in a full deck.
pub const DECK_SIZE: u8 = 52;

/// A card suit; suits carry no ordering and only matter for flushes.
#[derive(Clone, Copy, Debug, PartialEq, Eq, Structural)]
pub enum Suit {
    Spade,
    Club,
    Diamond,
    Heart,
}

/// A card rank: 1 is the ace, 11, 12 and 13 are jack, queen and king.
pub type Rank = u8;

/// Value of a rank in the ace-high order: the ace is worth 14.
pub open spec fn rank_value(r: Rank) -> u8 {
    if r == 1 {
        14
    } else {
        r
    }
}

pub open spec fn valid_rank(r: Rank) -> bool {
    1 <= r <= 13
}

/// The suit a deck index stands for.
pub open spec fn suit_of_index(i: u8) -> Suit {
    if i % 4 == 0 {
        Suit::Spade
    } else if i % 4 == 1 {
        Suit::Club
    } else if i % 4 == 2 {
        Suit::Diamond
    } else {
        Suit::Heart
    }
}

/// A playing card. Cards compare by rank alone, the ace being highest.
#[derive(Clone, Copy, Debug)]
pub struct Card {
    pub rank: Rank,
    pub suit: Suit,
}

impl Card {
    pub open spec fn wf(self) -> bool {
        valid_rank(self.rank)
    }

    /// The position of this card in the ace-high order.
    pub open spec fn value(self) -> u8 {
        rank_value(self.rank)
    }

    /// The card that a deck index stands for.
    pub open spec fn of_index(i: u8) -> Card {
        Card { rank: (i / 4 + 1) as u8, suit: suit_of_index(i) }
    }

    pub fn new(rank: Rank, suit: Suit) -> (c: Card)
        requires
            valid_rank(rank),
        ensures
            c.rank == rank,
            c.suit == suit,
            c.wf(),
    {
        Card { rank, suit }
    }

    /// The card's value in the ace-high order.
    pub fn value_of(&self) -> (v: u8)
        ensures
            v == self.value(),
    {
        if self.rank == 1 {
            14
        } else {
            self.rank
        }
    }

    /// The value of a rank in the ace-high order.
    pub fn value_of_rank(rank: Rank) -> (v: u8)
        ensures
            v == rank_value(rank),
    {
        if rank == 1 {
            14
        } else {
            rank
        }
    }

    /// The name of a rank as shown to a player.
    pub fn display_rank(rank: Rank) -> (s: String)
        requires
            valid_rank(rank),
        ensures
            s@ == rank_name(rank),
    {
        let name: &str = match rank {
            1 => "Ace",
            2 => "2",
            3 => "3",
            4 => "4",
            5 => "5",
            6 => "6",
            7 => "7",
            8 => "8",
            9 => "9",
            10 => "10",
            11 => "Jack",
            12 => "Queen",
            _ => "King",
        };
        name.to_owned()
    }
}

impl Card {
    /// Compares cards by rank alone, the ace highest; suits do not count.
    pub fn cmp(&self, other: &Card) -> (o: std::cmp::Ordering)
        requires
            self.wf(),
            other.wf(),
        ensures
            o == (if self.value() < other.value() {
                std::cmp::Ordering::Less
            } else if self.value() > other.value() {
                std::cmp::Ordering::Greater
            } else {
                std::cmp::Ordering::Equal
            }),
    {
        if self.rank == 1 {
            if other.rank == 1 {
                return std::cmp::Ordering::Equal;
            }
            return std::cmp::Ordering::Greater;
        }
        if other.rank == 1 {
            return std::cmp::Ordering::Less;
        }
        if self.rank < other.rank {
            std::cmp::Ordering::Less
        } else if self.rank > other.rank {
            std::cmp::Ordering::Greater
        } else {
            std::cmp::Ordering::Equal
        }
    }
}

impl PartialEq for Card {
    /// Two cards are equal when they have the same rank.
    fn eq(&self, other: &Card) -> (r: bool) {
        self.rank == other.rank
    }
}

impl vstd::std_specs::cmp::PartialEqSpecImpl for Card {
    open spec fn obeys_eq_spec() -> bool {
        true
    }

    open spec fn eq_spec(&self, other: &Card) -> bool {
        self.rank == other.rank
    }
}

/// The display name of each rank.
pub open spec fn rank_name(r: Rank) -> Seq<char> {
    if r == 1 {
        "Ace"@
    } else if r == 2 {
        "2"@
    } else if r == 3 {
        "3"@
    } else if r == 4 {
        "4"@
    } else if r == 5 {
        "5"@
    } else if r == 6 {
        "6"@
    } else if r == 7 {
        "7"@
    } else if r == 8 {
        "8"@
    } else if r == 9 {
        "9"@
    } else if r == 10 {
        "10"@
    } else if r == 11 {
        "Jack"@
    } else if r == 12 {
        "Queen"@
    } else {
        "King"@
    }
}

fn suit_from_index(i: u8) -> (s: Suit)
    ensures
        s == suit_of_index(i),
{
    let m = i % 4;
    if m == 0 {
        Suit::Spade
    } else if m == 1 {
        Suit::Club
    } else if m == 2 {
        Suit::Diamond
    } else {
        Suit::Heart
    }
}

/// Relies on rand's `SliceRandom::shuffle` with `thread_rng`: it reorders the
/// slice in place by swaps, so the same items stay, in some order.
#[verifier::external_body]
fn shuffle(v: &mut Vec<u8>)
    ensures
        final(v)@.len() == old(v)@.len(),
        final(v)@.to_multiset() == old(v)@.to_multiset(),
{
    v.shuffle(&mut rand::thread_rng());
}

/// The indices `0..n` in order.
pub open spec fn index_range(n: nat) -> Seq<u8> {
    Seq::new(n, |i: int| i as u8)
}

/// A deck of cards, held as indices into the sorted 52-card deck and
/// drawn from the front.
#[derive(Debug)]
pub struct Deck {
    cards: VecDeque<u8>,
}

impl Clone for Deck {
    fn clone(&self) -> (d: Deck)
        ensures
            d@ == self@,
    {
        Deck { cards: self.cards.clone() }
    }
}

impl View for Deck {
    type V = Seq<u8>;

    closed spec fn view(&self) -> Seq<u8> {
        self.cards@
    }
}

impl Deck {
    pub open spec fn wf(&self) -> bool {
        forall|i: int| 0 <= i < self@.len() ==> #[trigger] self@[i] < DECK_SIZE
    }

    /// A freshly shuffled deck of all 52 cards.
    pub fn new() -> (d: Deck)
        ensures
            d.wf(),
            d@.len() == 52,
            d@.to_multiset() == index_range(52).to_multiset(),
    {
        let mut order: Vec<u8> = Vec::new();
        let mut i: u8 = 0;
        while i < DECK_SIZE
            invariant
                i <= DECK_SIZE,
                order@ == index_range(i as nat),
            decreases DECK_SIZE - i,
        {
            order.push(i);
            i = i + 1;
            assert(order@ =~= index_range(i as nat));
        }
        let ghost fresh = order@;
        shuffle(&mut order);
        proof {
            broadcast use vstd::seq_lib::group_to_multiset_ensures;

            assert forall|k: int| 0 <= k < order@.len() implies #[trigger] order@[k] < DECK_SIZE by {
                assert(order@.to_multiset().count(order@[k]) > 0);
                assert(fresh.contains(order@[k]));
            }
        }
        Deck::from_indices(order)
    }

    /// A deck holding the given card indices, the first one on top.
    pub fn from_indices(order: Vec<u8>) -> (d: Deck)
        requires
            forall|i: int| 0 <= i < order@.len() ==> #[trigger] order@[i] < DECK_SIZE,
        ensures
            d.wf(),
            d@ == order@,
    {
        let mut cards: VecDeque<u8> = VecDeque::new();
        let mut i: usize = 0;
        while i < order.len()
            invariant
                i <= order@.len(),
                cards@ == order@.subrange(0, i as int),
            decreases order@.len() - i,
        {
            cards.push_back(order[i]);
            i = i + 1;
            assert(cards@ =~= order@.subrange(0, i as int));
        }
        assert(cards@ =~= order@);
        Deck { cards }
    }

    /// The card indices left in the deck, top first.
    pub fn indices(&self) -> (v: Vec<u8>)
        ensures
            v@ == self@,
    {
        let mut v: Vec<u8> = Vec::new();
        let mut i: usize = 0;
        while i < self.cards.len()
            invariant
                i <= self@.len(),
                v@ == self@.subrange(0, i as int),
            decreases self@.len() - i,
        {
            v.push(self.cards[i]);
            i = i + 1;
            assert(v@ =~= self@.subrange(0, i as int));
        }
        assert(v@ =~= self@);
        v
    }

    pub fn len(&self) -> (n: usize)
        ensures
            n == self@.len(),
    {
        self.cards.len()
    }

    /// Draws the top card of the deck.
    pub fn random_card(&mut self) -> (c: Card)
        requires
            old(self).wf(),
            old(self)@.len() > 0,
        ensures
            final(self).wf(),
            c == Card::of_index(old(self)@[0]),
            c.wf(),
            final(self)@ == old(self)@.subrange(1, old(self)@.len() as int),
    {
        let ghost before = self@;
        let index = match self.cards.pop_front() {
            Some(i) => i,
            None => 0,
        };
        assert(index == before[0] && index < DECK_SIZE);
        assert(forall|k: int| 0 <= k < self@.len() ==> self@[k] == before[k + 1]);
        Card::new(index / 4 + 1, suit_from_index(index))
    }
}

} // verus!
