use vstd::prelude::*;

use crate::card::{rank_value, Card, Rank};
use crate::hand::Hand;

verus! {

/// The ten poker hand categories, best first, each carrying the rank data
/// that breaks ties against a hand of the same category.
#[derive(Clone, Copy, Debug, Eq)]
pub enum HandType {
    RoyalFlush,
    /// Rank of the highest card of the straight (5 for the wheel, 1 for broadway).
    StraightFlush(Rank),
    /// Rank of the four cards.
    FourOfAKind(Rank),
    /// Rank of the three cards, then rank of the pair.
    FullHouse(Rank, Rank),
    Flush,
    /// Rank of the highest card of the straight (5 for the wheel, 1 for broadway).
    Straight(Rank),
    /// Rank of the three cards.
    ThreeOfAKind(Rank),
    /// Ranks of the higher pair, then of the lower pair.
    TwoPair(Rank, Rank),
    /// Rank of the pair.
    OnePair(Rank),
    /// Rank of the highest card.
    HighCard(Rank),
}

/// Position of a category in the ranking: 1 is the royal flush, 10 the high card.
pub open spec fn ranking(t: HandType) -> u8 {
    match t {
        HandType::RoyalFlush => 1,
        HandType::StraightFlush(_) => 2,
        HandType::FourOfAKind(_) => 3,
        HandType::FullHouse(_, _) => 4,
        HandType::Flush => 5,
        HandType::Straight(_) => 6,
        HandType::ThreeOfAKind(_) => 7,
        HandType::TwoPair(_, _) => 8,
        HandType::OnePair(_) => 9,
        HandType::HighCard(_) => 10,
    }
}

/// Five cards sorted ascending in the ace-high order.
pub open spec fn sorted_hand(s: Seq<Card>) -> bool {
    &&& s.len() == 5
    &&& forall|i: int| 0 <= i < 5 ==> (#[trigger] s[i]).wf()
    &&& forall|i: int, j: int| 0 <= i <= j < 5 ==> #[trigger] s[i].value() <= #[trigger] s[j].value()
}

pub open spec fn is_flush(s: Seq<Card>) -> bool {
    forall|i: int| 0 <= i < 5 ==> (#[trigger] s[i]).suit == s[0].suit
}

/// Each card is one above the previous one in the ace-high order.
pub open spec fn consecutive(s: Seq<Card>) -> bool {
    forall|i: int| 1 <= i < 5 ==> (#[trigger] s[i]).value() == s[i - 1].value() + 1
}

/// The ace-low straight 2, 3, 4, 5, ace.
pub open spec fn is_wheel(s: Seq<Card>) -> bool {
    &&& s[0].rank == 2
    &&& s[1].rank == 3
    &&& s[2].rank == 4
    &&& s[3].rank == 5
    &&& s[4].rank == 1
}

/// The rank of the straight's highest card, if the sorted hand is a straight.
pub open spec fn straight_high(s: Seq<Card>) -> Option<Rank> {
    if consecutive(s) {
        Some(s[4].rank)
    } else if is_wheel(s) {
        Some(5)
    } else {
        None
    }
}

pub open spec fn same_rank(s: Seq<Card>, i: int, j: int) -> bool {
    s[i].rank == s[j].rank
}

/// The rank of `x` equal cards (3 or 4) of a sorted hand, the highest such run first.
pub open spec fn of_a_kind(s: Seq<Card>, x: int) -> Option<Rank> {
    if same_rank(s, 4, 4 - (x - 1)) {
        Some(s[4].rank)
    } else if x <= 4 && same_rank(s, 3, 3 - (x - 1)) {
        Some(s[3].rank)
    } else if x <= 3 && same_rank(s, 2, 2 - (x - 1)) {
        Some(s[2].rank)
    } else {
        None
    }
}

/// The highest position `p < n` where card `p` pairs with card `p - 1`.
pub open spec fn highest_pair_below(s: Seq<Card>, n: int) -> Option<int> {
    if n > 4 && same_rank(s, 4, 3) {
        Some(4)
    } else if n > 3 && same_rank(s, 3, 2) {
        Some(3)
    } else if n > 2 && same_rank(s, 2, 1) {
        Some(2)
    } else if n > 1 && same_rank(s, 1, 0) {
        Some(1)
    } else {
        None
    }
}

/// The category of a sorted five-card hand: the first one that matches,
/// from the best down.
pub open spec fn classify(s: Seq<Card>) -> HandType {
    if is_flush(s) && straight_high(s) == Some(1u8) {
        HandType::RoyalFlush
    } else if is_flush(s) && straight_high(s) is Some {
        HandType::StraightFlush(straight_high(s)->0)
    } else if of_a_kind(s, 4) is Some {
        HandType::FourOfAKind(of_a_kind(s, 4)->0)
    } else if same_rank(s, 0, 2) && same_rank(s, 3, 4) {
        HandType::FullHouse(s[0].rank, s[3].rank)
    } else if same_rank(s, 0, 1) && same_rank(s, 2, 4) {
        HandType::FullHouse(s[2].rank, s[0].rank)
    } else if is_flush(s) {
        HandType::Flush
    } else if straight_high(s) is Some {
        HandType::Straight(straight_high(s)->0)
    } else if of_a_kind(s, 3) is Some {
        HandType::ThreeOfAKind(of_a_kind(s, 3)->0)
    } else {
        match highest_pair_below(s, 5) {
            Some(p) => match highest_pair_below(s, p) {
                Some(q) => HandType::TwoPair(s[p].rank, s[q].rank),
                None => HandType::OnePair(s[p].rank),
            },
            None => HandType::HighCard(s[4].rank),
        }
    }
}

impl PartialEq for HandType {
    /// Two hand types are equal when they are the same category.
    fn eq(&self, other: &HandType) -> (r: bool) {
        self.get_ranking() == other.get_ranking()
    }
}

impl vstd::std_specs::cmp::PartialEqSpecImpl for HandType {
    open spec fn obeys_eq_spec() -> bool {
        true
    }

    open spec fn eq_spec(&self, other: &HandType) -> bool {
        ranking(*self) == ranking(*other)
    }
}

fn x_of_a_kind(cards: &[Card; 5], x: usize) -> (r: Option<Rank>)
    requires
        x == 3 || x == 4,
    ensures
        r == of_a_kind(cards@, x as int),
{
    let mut i: usize = 4;
    while i >= x - 1
        invariant
            x == 3 || x == 4,
            x - 2 <= i <= 4,
            i < 4 ==> !same_rank(cards@, 4, 4 - (x - 1)),
            i < 3 ==> !(x <= 4 && same_rank(cards@, 3, 3 - (x - 1))),
            i < 2 ==> !(x <= 3 && same_rank(cards@, 2, 2 - (x - 1))),
        decreases i,
    {
        if cards[i].rank == cards[i - (x - 1)].rank {
            return Some(cards[i].rank);
        }
        i = i - 1;
    }
    None
}

/// Whether all cards share the first card's suit.
fn flush_of(cards: &[Card; 5]) -> (r: bool)
    ensures
        r == is_flush(cards@),
{
    let mut all_same = true;
    let mut k: usize = 1;
    while k < 5
        invariant
            1 <= k <= 5,
            all_same == (forall|i: int| 0 <= i < k ==> (#[trigger] cards@[i]).suit == cards@[0].suit),
        decreases 5 - k,
    {
        if cards[k].suit != cards[0].suit {
            all_same = false;
        }
        k = k + 1;
    }
    all_same
}

/// The rank of the straight's highest card, if the sorted cards form a straight.
fn straight_rank_of(cards: &[Card; 5]) -> (r: Option<Rank>)
    requires
        sorted_hand(cards@),
    ensures
        r == straight_high(cards@),
{
    if cards[4].rank == 1 {
        // with an ace only the wheel and broadway are straights
        if cards[0].rank == 2 && cards[1].rank == 3 && cards[2].rank == 4 && cards[3].rank == 5 {
            assert(!consecutive(cards@)) by {
                assert(cards@[4].value() != cards@[3].value() + 1);
            }
            Some(5)
        } else if cards[0].rank == 10 && cards[1].rank == 11 && cards[2].rank == 12 && cards[3].rank
            == 13 {
            Some(1)
        } else {
            proof {
                if consecutive(cards@) {
                    assert(cards@[3].value() == 13);
                    assert(cards@[2].value() == 12);
                    assert(cards@[1].value() == 11);
                    assert(cards@[0].value() == 10);
                }
            }
            None
        }
    } else {
        assert forall|j: int| 0 <= j < 5 implies #[trigger] cards@[j].rank != 1 by {
            assert(cards@[j].value() <= cards@[4].value());
        }
        let mut run = true;
        let mut i: usize = 1;
        while i < 5
            invariant
                1 <= i <= 5,
                sorted_hand(cards@),
                forall|j: int| 0 <= j < 5 ==> #[trigger] cards@[j].rank != 1,
                run == (forall|j: int| 1 <= j < i ==> (#[trigger] cards@[j]).value() == cards@[j - 1].value() + 1),
            decreases 5 - i,
        {
            if cards[i].rank != cards[i - 1].rank + 1 {
                run = false;
            }
            i = i + 1;
        }
        if run {
            Some(cards[4].rank)
        } else {
            None
        }
    }
}

/// Two pair, one pair or high card, scanning neighbours from the top.
fn pairs_of(cards: &[Card; 5]) -> (t: HandType)
    ensures
        t == (match highest_pair_below(cards@, 5) {
            Some(p) => match highest_pair_below(cards@, p) {
                Some(q) => HandType::TwoPair(cards@[p].rank, cards@[q].rank),
                None => HandType::OnePair(cards@[p].rank),
            },
            None => HandType::HighCard(cards@[4].rank),
        }),
{
    let ghost s = cards@;
    let ghost top = highest_pair_below(s, 5);
    let mut prev_pair: Option<Rank> = None;
    let mut i: usize = 4;
    while i >= 1
        invariant
            0 <= i <= 4,
            s == cards@,
            top == highest_pair_below(s, 5),
            prev_pair is None <==> (top is None || top->0 <= i),
            prev_pair is Some ==> (top is Some && prev_pair == Some(s[top->0].rank) && (
            highest_pair_below(s, top->0) is None || highest_pair_below(s, top->0)->0 <= i)),
        decreases i,
    {
        if cards[i].rank == cards[i - 1].rank {
            match prev_pair {
                Some(r) => {
                    return HandType::TwoPair(r, cards[i].rank);
                },
                None => {
                    prev_pair = Some(cards[i].rank);
                },
            }
        }
        i = i - 1;
    }
    if let Some(r) = prev_pair {
        return HandType::OnePair(r);
    }
    HandType::HighCard(cards[4].rank)
}

impl HandType {
    /// Classifies a hand into the first category, from the best down, that
    /// its cards match.
    pub fn get_hand(hand: Hand) -> (t: HandType)
        requires
            sorted_hand(hand@),
        ensures
            t == classify(hand@),
    {
        let cards = hand.cards();
        let is_flush_hand = flush_of(&cards);
        let straight_rank = straight_rank_of(&cards);
        if is_flush_hand {
            if let Some(r) = straight_rank {
                if r == 1 {
                    return HandType::RoyalFlush;
                }
                return HandType::StraightFlush(r);
            }
        }
        if let Some(r) = x_of_a_kind(&cards, 4) {
            return HandType::FourOfAKind(r);
        }
        // two possible shapes: [A, A, A, B, B] or [B, B, A, A, A]
        if cards[0].rank == cards[2].rank && cards[3].rank == cards[4].rank {
            return HandType::FullHouse(cards[0].rank, cards[3].rank);
        }
        if cards[0].rank == cards[1].rank && cards[2].rank == cards[4].rank {
            return HandType::FullHouse(cards[2].rank, cards[0].rank);
        }
        if is_flush_hand {
            return HandType::Flush;
        }
        if let Some(r) = straight_rank {
            return HandType::Straight(r);
        }
        if let Some(r) = x_of_a_kind(&cards, 3) {
            return HandType::ThreeOfAKind(r);
        }
        pairs_of(&cards)
    }

    /// Position of the category in the ranking: 1 is the best, 10 the worst.
    pub fn get_ranking(self) -> (r: u8)
        ensures
            r == ranking(self),
    {
        match self {
            HandType::RoyalFlush => 1,
            HandType::StraightFlush(_) => 2,
            HandType::FourOfAKind(_) => 3,
            HandType::FullHouse(_, _) => 4,
            HandType::Flush => 5,
            HandType::Straight(_) => 6,
            HandType::ThreeOfAKind(_) => 7,
            HandType::TwoPair(_, _) => 8,
            HandType::OnePair(_) => 9,
            HandType::HighCard(_) => 10,
        }
    }

    /// Orders categories: the better category is the greater one.
    pub fn cmp(&self, other: &HandType) -> (o: std::cmp::Ordering)
        ensures
            o == category_order(*self, *other),
    {
        let a = self.get_ranking();
        let b = other.get_ranking();
        if a < b {
            std::cmp::Ordering::Greater
        } else if a > b {
            std::cmp::Ordering::Less
        } else {
            std::cmp::Ordering::Equal
        }
    }
}

/// The order of categories: a smaller ranking is a better category.
pub open spec fn category_order(a: HandType, b: HandType) -> std::cmp::Ordering {
    if ranking(a) < ranking(b) {
        std::cmp::Ordering::Greater
    } else if ranking(a) > ranking(b) {
        std::cmp::Ordering::Less
    } else {
        std::cmp::Ordering::Equal
    }
}

} // verus!

verus! {

/// How many of the five cards have rank `r`.
pub open spec fn rank_count(s: Seq<Card>, r: Rank) -> int {
    (if s[0].rank == r { 1int } else { 0 }) + (if s[1].rank == r { 1int } else { 0 }) + (if s[2].rank
        == r { 1int } else { 0 }) + (if s[3].rank == r { 1int } else { 0 }) + (if s[4].rank == r {
        1int
    } else {
        0
    })
}

/// What each category says of the cards: the ranks it names occur as often
/// as the category requires (at least four times for four of a kind, as
/// nothing stops a hand from holding the same card twice), and the other
/// cards do not pair up further.
pub open spec fn category_describes(t: HandType, s: Seq<Card>) -> bool {
    match t {
        HandType::RoyalFlush => is_flush(s) && consecutive(s) && s[4].rank == 1,
        HandType::StraightFlush(r) => is_flush(s) && straight_high(s) == Some(r) && r != 1,
        HandType::FourOfAKind(r) => rank_count(s, r) >= 4,
        HandType::FullHouse(t, p) => rank_count(s, t) == 3 && rank_count(s, p) == 2,
        HandType::Flush => is_flush(s) && straight_high(s) is None && forall|i: int|
            0 <= i < 5 ==> rank_count(s, #[trigger] s[i].rank) <= 3,
        HandType::Straight(r) => !is_flush(s) && straight_high(s) == Some(r),
        HandType::ThreeOfAKind(r) => rank_count(s, r) == 3 && forall|i: int|
            0 <= i < 5 && #[trigger] s[i].rank != r ==> rank_count(s, s[i].rank) == 1,
        HandType::TwoPair(a, b) => rank_count(s, a) == 2 && rank_count(s, b) == 2 && rank_value(a)
            > rank_value(b),
        HandType::OnePair(r) => rank_count(s, r) == 2 && forall|i: int|
            0 <= i < 5 && #[trigger] s[i].rank != r ==> rank_count(s, s[i].rank) == 1,
        HandType::HighCard(r) => !is_flush(s) && straight_high(s) is None && r == s[4].rank
            && forall|i: int| 0 <= i < 5 ==> rank_count(s, #[trigger] s[i].rank) == 1,
    }
}

/// Every sorted five-card hand falls in exactly one category, and that
/// category describes its cards.
pub proof fn lemma_category_describes_cards(s: Seq<Card>)
    requires
        sorted_hand(s),
    ensures
        category_describes(classify(s), s),
{
    assert(s[0].value() <= s[1].value() && s[1].value() <= s[2].value() && s[2].value() <= s[3].value()
        && s[3].value() <= s[4].value());
    assert(s[0].wf() && s[1].wf() && s[2].wf() && s[3].wf() && s[4].wf());
    if same_rank(s, 4, 1) {
        assert(s[2].value() == s[4].value() && s[3].value() == s[4].value());
        assert(s[2].rank == s[4].rank && s[3].rank == s[4].rank);
    } else if same_rank(s, 3, 0) {
        assert(s[1].value() == s[3].value() && s[2].value() == s[3].value());
        assert(s[1].rank == s[3].rank && s[2].rank == s[3].rank);
    }
}

} // verus!
