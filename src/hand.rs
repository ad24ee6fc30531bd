use std::cmp::Ordering;

use itertools::Itertools;
use vstd::prelude::*;

use crate::card::{rank_value, Card, Rank};
use crate::hand_type::{classify, ranking, sorted_hand, HandType};

verus! {

/// The values of the cards whose rank is neither `a` nor `b`, from the
/// highest to the lowest (for an ascending `s`).
pub open spec fn values_desc_except(s: Seq<Card>, a: Rank, b: Rank) -> Seq<u8>
    decreases s.len(),
{
    if s.len() == 0 {
        seq![]
    } else {
        let rest = values_desc_except(s.drop_first(), a, b);
        if s[0].rank != a && s[0].rank != b {
            rest.push(s[0].value())
        } else {
            rest
        }
    }
}

/// What breaks a tie between two hands of the same category, most
/// significant first: the category's ranks, then the kickers high to low.
pub open spec fn tie_break_key(t: HandType, s: Seq<Card>) -> Seq<u8> {
    match t {
        HandType::RoyalFlush => seq![],
        HandType::StraightFlush(r) => seq![rank_value(r)],
        HandType::FourOfAKind(r) => seq![rank_value(r)] + values_desc_except(s, r, r),
        HandType::FullHouse(t, p) => seq![rank_value(t), rank_value(p)],
        HandType::Flush => values_desc_except(s, 0, 0),
        HandType::Straight(r) => seq![rank_value(r)],
        HandType::ThreeOfAKind(r) => seq![rank_value(r)] + values_desc_except(s, r, r),
        HandType::TwoPair(a, b) => seq![rank_value(a), rank_value(b)] + values_desc_except(s, a, b),
        HandType::OnePair(r) => seq![rank_value(r)] + values_desc_except(s, r, r),
        HandType::HighCard(_) => values_desc_except(s, 0, 0),
    }
}

/// The strength of a hand: its category (10 for a royal flush down to 1 for
/// a high card), then its tie-break key.
pub open spec fn strength(t: HandType, s: Seq<Card>) -> Seq<u8> {
    seq![(11 - ranking(t)) as u8] + tie_break_key(t, s)
}

/// Lexicographic order on sequences of values; a proper prefix is smaller.
pub open spec fn lex_order(a: Seq<u8>, b: Seq<u8>) -> Ordering
    decreases a.len(),
{
    if a.len() == 0 || b.len() == 0 {
        if a.len() < b.len() {
            Ordering::Less
        } else if a.len() > b.len() {
            Ordering::Greater
        } else {
            Ordering::Equal
        }
    } else if a[0] < b[0] {
        Ordering::Less
    } else if a[0] > b[0] {
        Ordering::Greater
    } else {
        lex_order(a.drop_first(), b.drop_first())
    }
}

/// The comparator's order on hands.
pub open spec fn hand_order(a: Hand, b: Hand) -> Ordering {
    lex_order(strength(a.category(), a@), strength(b.category(), b@))
}

pub open spec fn reversed(o: Ordering) -> Ordering {
    match o {
        Ordering::Less => Ordering::Greater,
        Ordering::Equal => Ordering::Equal,
        Ordering::Greater => Ordering::Less,
    }
}

/// Five cards kept sorted ascending in the ace-high order, with their
/// category computed once at construction.
#[derive(Clone, Copy, Debug)]
pub struct Hand {
    cards: [Card; 5],
    hand_type: HandType,
}

impl View for Hand {
    type V = Seq<Card>;

    closed spec fn view(&self) -> Seq<Card> {
        self.cards@
    }
}

/// Sorts cards ascending in the ace-high order by inserting each in turn.
fn sort_cards(cards: &[Card; 5]) -> (r: [Card; 5])
    requires
        forall|i: int| 0 <= i < 5 ==> (#[trigger] cards@[i]).wf(),
    ensures
        sorted_hand(r@),
        r@.to_multiset() == cards@.to_multiset(),
        sorted_hand(cards@) ==> r@ == cards@,
{
    broadcast use vstd::seq_lib::group_to_multiset_ensures;

    let mut sorted: Vec<Card> = Vec::new();
    let mut k: usize = 0;
    while k < 5
        invariant
            0 <= k <= 5,
            sorted@.len() == k,
            forall|i: int| 0 <= i < 5 ==> (#[trigger] cards@[i]).wf(),
            forall|i: int| 0 <= i < k ==> (#[trigger] sorted@[i]).wf(),
            forall|i: int, j: int|
                0 <= i <= j < k ==> #[trigger] sorted@[i].value() <= #[trigger] sorted@[j].value(),
            sorted@.to_multiset() == cards@.subrange(0, k as int).to_multiset(),
            sorted_hand(cards@) ==> sorted@ == cards@.subrange(0, k as int),
        decreases 5 - k,
    {
        let c = cards[k];
        let v = c.value_of();
        let mut pos: usize = 0;
        while pos < sorted.len() && sorted[pos].value_of() <= v
            invariant
                0 <= pos <= sorted@.len(),
                forall|i: int| 0 <= i < pos ==> (#[trigger] sorted@[i]).value() <= v,
                sorted@.len() == k,
                k < 5,
                v == cards@[k as int].value(),
                sorted_hand(cards@) ==> sorted@ == cards@.subrange(0, k as int),
            decreases sorted@.len() - pos,
        {
            pos = pos + 1;
        }
        let ghost before = sorted@;
        sorted.insert(pos, c);
        proof {
            assert(sorted@ == before.insert(pos as int, c));
            assert(cards@.subrange(0, k + 1) =~= cards@.subrange(0, k as int).push(c));
            vstd::seq_lib::to_multiset_insert(before, pos as int, c);
            vstd::seq_lib::to_multiset_build(cards@.subrange(0, k as int), c);
            if sorted_hand(cards@) {
                assert(pos == k) by {
                    if pos < k {
                        assert(before[pos as int] == cards@[pos as int]);
                        assert(cards@[pos as int].value() <= cards@[k as int].value());
                    }
                }
                assert(sorted@ =~= cards@.subrange(0, k + 1));
            }
            assert(sorted@.to_multiset() == cards@.subrange(0, k + 1).to_multiset());
            assert forall|i: int, j: int| 0 <= i <= j < k + 1 implies #[trigger] sorted@[i].value()
                <= #[trigger] sorted@[j].value() by {
                if i < pos && j > pos {
                    assert(before[i].value() <= v);
                } else if i == pos && j > pos {
                    assert(before[pos as int].value() > v || pos == before.len());
                    assert(before[pos as int].value() <= before[j - 1].value());
                } else if i < pos && j == pos {
                    assert(before[i].value() <= v);
                } else if i > pos {
                    assert(before[i - 1].value() <= before[j - 1].value());
                }
            }
        }
        k = k + 1;
    }
    let r = [sorted[0], sorted[1], sorted[2], sorted[3], sorted[4]];
    assert(r@ =~= sorted@);
    assert(cards@.subrange(0, 5) =~= cards@);
    r
}

impl Hand {
    /// The category stored with the hand.
    pub closed spec fn category(&self) -> HandType {
        self.hand_type
    }

    pub open spec fn wf(&self) -> bool {
        &&& sorted_hand(self@)
        &&& self.category() == classify(self@)
    }

    /// A hand of the given cards, sorted, with its category.
    pub fn new(cards: [Card; 5]) -> (h: Hand)
        requires
            forall|i: int| 0 <= i < 5 ==> (#[trigger] cards@[i]).wf(),
        ensures
            h.wf(),
            h@.to_multiset() == cards@.to_multiset(),
            sorted_hand(cards@) ==> h@ == cards@,
    {
        let sorted = sort_cards(&cards);
        let unclassified = Hand { cards: sorted, hand_type: HandType::HighCard(sorted[4].rank) };
        let hand_type = HandType::get_hand(unclassified);
        Hand { cards: sorted, hand_type }
    }

    pub fn cards(&self) -> (c: [Card; 5])
        ensures
            c@ == self@,
    {
        self.cards
    }

    /// The ranks of the cards, ascending in the ace-high order.
    pub fn get_ranks_array(self) -> (r: [Rank; 5])
        ensures
            forall|i: int| 0 <= i < 5 ==> #[trigger] r@[i] == self@[i].rank,
    {
        [self.cards[0].rank, self.cards[1].rank, self.cards[2].rank, self.cards[3].rank, self.cards[4].rank]
    }

    /// The hand's category.
    pub fn get_hand_type(self) -> (t: HandType)
        requires
            self.wf(),
        ensures
            t == classify(self@),
    {
        self.hand_type
    }
}

/// The values of the cards whose rank is neither `a` nor `b`, high to low.
fn values_desc_without(cards: &[Card; 5], a: Rank, b: Rank) -> (v: Vec<u8>)
    ensures
        v@ == values_desc_except(cards@, a, b),
{
    let mut out: Vec<u8> = Vec::new();
    let mut i: usize = 5;
    assert(cards@.subrange(5, 5) =~= Seq::<Card>::empty());
    while i > 0
        invariant
            0 <= i <= 5,
            out@ == values_desc_except(cards@.subrange(i as int, 5), a, b),
        decreases i,
    {
        let c = cards[i - 1];
        assert(cards@.subrange(i - 1, 5).drop_first() =~= cards@.subrange(i as int, 5));
        if c.rank != a && c.rank != b {
            out.push(c.value_of());
        }
        i = i - 1;
    }
    assert(cards@.subrange(0, 5) =~= cards@);
    out
}

/// Compares two sequences of values lexicographically.
fn compare_values(a: &Vec<u8>, b: &Vec<u8>) -> (o: Ordering)
    ensures
        o == lex_order(a@, b@),
{
    let mut i: usize = 0;
    assert(a@.subrange(0, a@.len() as int) =~= a@);
    assert(b@.subrange(0, b@.len() as int) =~= b@);
    while i < a.len() && i < b.len()
        invariant
            i <= a@.len(),
            i <= b@.len(),
            lex_order(a@, b@) == lex_order(a@.subrange(i as int, a@.len() as int), b@.subrange(i as int, b@.len() as int)),
        decreases a@.len() - i,
    {
        if a[i] < b[i] {
            return Ordering::Less;
        }
        if a[i] > b[i] {
            return Ordering::Greater;
        }
        assert(a@.subrange(i as int, a@.len() as int).drop_first() =~= a@.subrange(i + 1, a@.len() as int));
        assert(b@.subrange(i as int, b@.len() as int).drop_first() =~= b@.subrange(i + 1, b@.len() as int));
        i = i + 1;
    }
    if a.len() < b.len() {
        Ordering::Less
    } else if a.len() > b.len() {
        Ordering::Greater
    } else {
        Ordering::Equal
    }
}

impl Hand {
    /// The tie-break key of the hand within its category.
    pub fn tie_break_values(&self) -> (v: Vec<u8>)
        ensures
            v@ == tie_break_key(self.category(), self@),
    {
        let cards = self.cards;
        match self.hand_type {
            HandType::RoyalFlush => Vec::new(),
            HandType::StraightFlush(r) | HandType::Straight(r) => {
                let mut v = Vec::new();
                v.push(Card::value_of_rank(r));
                assert(v@ =~= seq![rank_value(r)]);
                v
            },
            HandType::FourOfAKind(r) | HandType::ThreeOfAKind(r) | HandType::OnePair(r) => {
                let mut v = Vec::new();
                v.push(Card::value_of_rank(r));
                let mut rest = values_desc_without(&cards, r, r);
                v.append(&mut rest);
                assert(v@ =~= seq![rank_value(r)] + values_desc_except(cards@, r, r));
                v
            },
            HandType::FullHouse(t, p) => {
                let mut v = Vec::new();
                v.push(Card::value_of_rank(t));
                v.push(Card::value_of_rank(p));
                assert(v@ =~= seq![rank_value(t), rank_value(p)]);
                v
            },
            HandType::TwoPair(a, b) => {
                let mut v = Vec::new();
                v.push(Card::value_of_rank(a));
                v.push(Card::value_of_rank(b));
                let mut rest = values_desc_without(&cards, a, b);
                v.append(&mut rest);
                assert(v@ =~= seq![rank_value(a), rank_value(b)] + values_desc_except(cards@, a, b));
                v
            },
            HandType::Flush | HandType::HighCard(_) => values_desc_without(&cards, 0, 0),
        }
    }

    /// Compares two hands: first by category, then by the category's tie-break.
    pub fn cmp(&self, other: &Hand) -> (o: Ordering)
        ensures
            o == hand_order(*self, *other),
    {
        let self_hand_type = self.hand_type;
        let other_hand_type = other.hand_type;
        let hand_type_cmp = self_hand_type.cmp(&other_hand_type);
        let ghost sa = strength(self.category(), self@);
        let ghost sb = strength(other.category(), other@);
        assert(sa.drop_first() =~= tie_break_key(self.category(), self@));
        assert(sb.drop_first() =~= tie_break_key(other.category(), other@));
        assert(sa.len() > 0 && sb.len() > 0);
        assert(sa[0] == 11 - ranking(self.category()));
        assert(sb[0] == 11 - ranking(other.category()));
        assert(lex_order(sa, sb) == if sa[0] < sb[0] {
            Ordering::Less
        } else if sa[0] > sb[0] {
            Ordering::Greater
        } else {
            lex_order(sa.drop_first(), sb.drop_first())
        });
        match hand_type_cmp {
            Ordering::Equal => {},
            _ => {
                return hand_type_cmp;
            },
        }
        // same category: break the tie
        let a = self.tie_break_values();
        let b = other.tie_break_values();
        compare_values(&a, &b)
    }
}

proof fn lemma_lex_reverse(a: Seq<u8>, b: Seq<u8>)
    ensures
        lex_order(a, b) == reversed(lex_order(b, a)),
    decreases a.len(),
{
    if a.len() > 0 && b.len() > 0 && a[0] == b[0] {
        lemma_lex_reverse(a.drop_first(), b.drop_first());
    }
}

proof fn lemma_lex_equal(a: Seq<u8>, b: Seq<u8>)
    ensures
        lex_order(a, b) == Ordering::Equal <==> a == b,
    decreases a.len(),
{
    if a.len() > 0 && b.len() > 0 && a[0] == b[0] {
        lemma_lex_equal(a.drop_first(), b.drop_first());
        if a.drop_first() == b.drop_first() {
            assert(a =~= seq![a[0]] + a.drop_first());
            assert(b =~= seq![b[0]] + b.drop_first());
        }
    }
    if a == b && a.len() > 0 {
        assert(a.drop_first() == b.drop_first());
    }
    if a.len() == 0 && b.len() == 0 {
        assert(a =~= b);
    }
}

proof fn lemma_lex_transitive(a: Seq<u8>, b: Seq<u8>, c: Seq<u8>)
    requires
        lex_order(a, b) != Ordering::Greater,
        lex_order(b, c) != Ordering::Greater,
    ensures
        lex_order(a, c) != Ordering::Greater,
        lex_order(a, b) == Ordering::Less || lex_order(b, c) == Ordering::Less ==> lex_order(a, c)
            == Ordering::Less,
    decreases a.len(),
{
    if a.len() > 0 && b.len() > 0 && c.len() > 0 && a[0] == b[0] && b[0] == c[0] {
        lemma_lex_transitive(a.drop_first(), b.drop_first(), c.drop_first());
    }
}

/// The comparator is antisymmetric: comparing the other way round gives the
/// reversed result, so exactly one of less, equal and greater holds.
pub proof fn lemma_hand_order_antisymmetric(a: Hand, b: Hand)
    ensures
        hand_order(a, b) == reversed(hand_order(b, a)),
{
    lemma_lex_reverse(strength(a.category(), a@), strength(b.category(), b@));
}

/// The comparator is transitive, for "at most" and for "less".
pub proof fn lemma_hand_order_transitive(a: Hand, b: Hand, c: Hand)
    requires
        hand_order(a, b) != Ordering::Greater,
        hand_order(b, c) != Ordering::Greater,
    ensures
        hand_order(a, c) != Ordering::Greater,
        hand_order(a, b) == Ordering::Less || hand_order(b, c) == Ordering::Less ==> hand_order(a, c)
            == Ordering::Less,
{
    lemma_lex_transitive(
        strength(a.category(), a@),
        strength(b.category(), b@),
        strength(c.category(), c@),
    );
}

/// Hands compare equal exactly when they have the same category and the
/// same tie-break key.
pub proof fn lemma_hand_order_equal(a: Hand, b: Hand)
    requires
        a.wf(),
        b.wf(),
    ensures
        hand_order(a, b) == Ordering::Equal <==> (ranking(a.category()) == ranking(b.category())
            && tie_break_key(a.category(), a@) == tie_break_key(b.category(), b@)),
{
    let sa = strength(a.category(), a@);
    let sb = strength(b.category(), b@);
    lemma_lex_equal(sa, sb);
    assert(sa.drop_first() =~= tie_break_key(a.category(), a@));
    assert(sb.drop_first() =~= tie_break_key(b.category(), b@));
    if sa == sb {
        assert(sa[0] == sb[0]);
    }
    if ranking(a.category()) == ranking(b.category()) && tie_break_key(a.category(), a@)
        == tie_break_key(b.category(), b@) {
        assert(sa =~= sb);
    }
}

/// Classifying again gives the same category: two valid hands holding the
/// same sorted cards (as `Hand::new` makes of a hand's own cards) have one
/// category, the one `classify` gives.
pub proof fn lemma_reclassify(h: Hand, again: Hand)
    requires
        h.wf(),
        again.wf(),
        again@ == h@,
    ensures
        again.category() == h.category(),
        h.category() == classify(h@),
{
}

/// A better category always wins, whatever the cards: royal flush, straight
/// flush, four of a kind, full house, flush, straight, three of a kind, two
/// pair, one pair, high card.
pub proof fn lemma_better_category_wins(a: Hand, b: Hand)
    requires
        ranking(a.category()) < ranking(b.category()),
    ensures
        hand_order(a, b) == Ordering::Greater,
        hand_order(b, a) == Ordering::Less,
{
    let sa = strength(a.category(), a@);
    let sb = strength(b.category(), b@);
    assert(sa[0] > sb[0]);
    assert(sb[0] < sa[0]);
}

/// One-pair hands with pairs of the same rank are ordered by their three
/// other cards, compared from the highest down.
pub proof fn lemma_one_pair_kickers(a: Hand, b: Hand, r: Rank)
    requires
        a.category() == HandType::OnePair(r),
        b.category() == HandType::OnePair(r),
    ensures
        hand_order(a, b) == lex_order(values_desc_except(a@, r, r), values_desc_except(b@, r, r)),
{
    let sa = strength(a.category(), a@);
    let sb = strength(b.category(), b@);
    let ka = values_desc_except(a@, r, r);
    let kb = values_desc_except(b@, r, r);
    assert(sa.drop_first() =~= seq![rank_value(r)] + ka);
    assert(sb.drop_first() =~= seq![rank_value(r)] + kb);
    assert((seq![rank_value(r)] + ka).drop_first() =~= ka);
    assert((seq![rank_value(r)] + kb).drop_first() =~= kb);
    assert(sa[0] == sb[0]);
    assert(hand_order(a, b) == lex_order(sa.drop_first(), sb.drop_first()));
    let ta = seq![rank_value(r)] + ka;
    let tb = seq![rank_value(r)] + kb;
    assert(ta[0] == tb[0]);
    assert(lex_order(ta, tb) == lex_order(ta.drop_first(), tb.drop_first()));
}

impl PartialEq for Hand {
    /// Two hands are equal when neither beats the other.
    fn eq(&self, other: &Hand) -> (r: bool) {
        match self.cmp(other) {
            Ordering::Equal => true,
            _ => false,
        }
    }
}

impl vstd::std_specs::cmp::PartialEqSpecImpl for Hand {
    open spec fn obeys_eq_spec() -> bool {
        true
    }

    open spec fn eq_spec(&self, other: &Hand) -> bool {
        hand_order(*self, *other) == Ordering::Equal
    }
}

/// `sel` picks `k` distinct positions below `n`, in increasing order.
pub open spec fn is_selection(sel: Seq<usize>, n: nat, k: nat) -> bool {
    &&& sel.len() == k
    &&& forall|i: int| 0 <= i < k ==> #[trigger] sel[i] < n
    &&& forall|i: int, j: int| 0 <= i < j < k ==> #[trigger] sel[i] < #[trigger] sel[j]
}

/// The cards at the selected positions.
pub open spec fn picked(cards: Seq<Card>, sel: Seq<usize>) -> Seq<Card> {
    sel.map_values(|p: usize| cards[p as int])
}

/// `h` is the hand made of the cards at the selected positions.
#[verifier::opaque]
pub open spec fn made_of(h: Hand, cards: Seq<Card>, sel: Seq<usize>) -> bool {
    &&& h.wf()
    &&& h@.to_multiset() == picked(cards, sel).to_multiset()
}

/// `h` is the hand made of five of the seven cards.
pub open spec fn made_of_five(h: Hand, cards: Seq<Card>) -> bool {
    exists|sel: Seq<usize>| is_selection(sel, 7, 5) && made_of(h, cards, sel)
}

/// `hands` holds one hand per selection of five of the seven cards, in the
/// order of `sels`, which lists every selection once.
#[verifier::opaque]
pub open spec fn one_hand_per_selection(hands: Seq<Hand>, cards: Seq<Card>, sels: Seq<Seq<usize>>) -> bool {
    &&& sels.len() == hands.len()
    &&& forall|i: int| 0 <= i < sels.len() ==> is_selection(#[trigger] sels[i], 7, 5)
    &&& forall|i: int| 0 <= i < sels.len() ==> made_of(#[trigger] hands[i], cards, sels[i])
    &&& forall|i: int, j: int| 0 <= i < j < sels.len() ==> #[trigger] sels[i] != #[trigger] sels[j]
    &&& forall|sel: Seq<usize>| is_selection(sel, 7, 5) ==> sels.contains(sel)
}

/// The seven cards a player can use: two hole cards, then five community cards.
pub open spec fn seven_cards(hole: Seq<Card>, community: Seq<Card>) -> Seq<Card> {
    hole + community
}

/// Relies on itertools' `Itertools::combinations` over the range `0..n`: it
/// yields every `k`-element selection of positions, each one increasing and
/// each once, and nothing else.
#[verifier::external_body]
fn position_combinations(n: usize, k: usize) -> (r: Vec<Vec<usize>>)
    ensures
        forall|i: int| 0 <= i < r@.len() ==> is_selection(#[trigger] r@[i]@, n as nat, k as nat),
        forall|i: int, j: int| 0 <= i < j < r@.len() ==> #[trigger] r@[i]@ != #[trigger] r@[j]@,
        forall|sel: Seq<usize>|
            is_selection(sel, n as nat, k as nat) ==> exists|i: int|
                0 <= i < r@.len() && #[trigger] r@[i]@ == sel,
{
    (0..n).combinations(k).collect()
}

impl Hand {
    /// Every hand that five of the seven cards make.
    pub fn get_all_hands(hole: [Card; 2], community: [Card; 5]) -> (hands: Vec<Hand>)
        requires
            forall|i: int| 0 <= i < 2 ==> (#[trigger] hole@[i]).wf(),
            forall|i: int| 0 <= i < 5 ==> (#[trigger] community@[i]).wf(),
        ensures
            forall|i: int| 0 <= i < hands@.len() ==> (#[trigger] hands@[i]).wf(),
            forall|i: int|
                0 <= i < hands@.len() ==> made_of_five(#[trigger] hands@[i], seven_cards(hole@, community@)),
            forall|sel: Seq<usize>|
                is_selection(sel, 7, 5) ==> exists|i: int|
                    0 <= i < hands@.len() && made_of(#[trigger] hands@[i], seven_cards(hole@, community@), sel),
            exists|sels: Seq<Seq<usize>>| one_hand_per_selection(hands@, seven_cards(hole@, community@), sels),
    {
        let ghost all = seven_cards(hole@, community@);
        let mut cards: Vec<Card> = Vec::new();
        cards.push(hole[0]);
        cards.push(hole[1]);
        let mut c: usize = 0;
        while c < 5
            invariant
                0 <= c <= 5,
                cards@ == hole@ + community@.subrange(0, c as int),
            decreases 5 - c,
        {
            cards.push(community[c]);
            c = c + 1;
            assert(cards@ =~= hole@ + community@.subrange(0, c as int));
        }
        assert(cards@ =~= all);
        assert forall|i: int| 0 <= i < 7 implies (#[trigger] all[i]).wf() by {
            if i >= 2 {
                assert(all[i] == community@[i - 2]);
            }
        }
        let combos = position_combinations(7, 5);
        let mut hands: Vec<Hand> = Vec::new();
        let mut i: usize = 0;
        while i < combos.len()
            invariant
                0 <= i <= combos@.len(),
                hands@.len() == i,
                cards@ == all,
                all.len() == 7,
                forall|p: int| 0 <= p < 7 ==> (#[trigger] all[p]).wf(),
                forall|j: int| 0 <= j < combos@.len() ==> is_selection(#[trigger] combos@[j]@, 7, 5),
                forall|j: int| 0 <= j < i ==> made_of(#[trigger] hands@[j], all, combos@[j]@),
                forall|j: int| 0 <= j < i ==> (#[trigger] hands@[j]).wf(),
            decreases combos@.len() - i,
        {
            let sel = &combos[i];
            assert(is_selection(sel@, 7, 5));
            let five = [cards[sel[0]], cards[sel[1]], cards[sel[2]], cards[sel[3]], cards[sel[4]]];
            assert(five@ =~= picked(all, sel@));
            let h = Hand::new(five);
            proof {
                reveal(made_of);
            }
            hands.push(h);
            i = i + 1;
        }
        assert forall|j: int| 0 <= j < hands@.len() implies made_of_five(#[trigger] hands@[j], all) by {
            assert(is_selection(combos@[j]@, 7, 5));
            assert(made_of(hands@[j], all, combos@[j]@));
        }
        assert forall|sel: Seq<usize>| is_selection(sel, 7, 5) implies exists|j: int|
            0 <= j < hands@.len() && made_of(#[trigger] hands@[j], all, sel) by {
            let j = choose|j: int| 0 <= j < combos@.len() && #[trigger] combos@[j]@ == sel;
            assert(made_of(hands@[j], all, sel));
        }
        let ghost sels = combos@.map_values(|v: Vec<usize>| v@);
        assert forall|sel: Seq<usize>| is_selection(sel, 7, 5) implies sels.contains(sel) by {
            let j = choose|j: int| 0 <= j < combos@.len() && #[trigger] combos@[j]@ == sel;
            assert(sels[j] == sel);
        }
        assert forall|i: int, j: int| 0 <= i < j < sels.len() implies #[trigger] sels[i] != #[trigger] sels[j] by {
            assert(combos@[i]@ != combos@[j]@);
        }
        assert(one_hand_per_selection(hands@, all, sels)) by {
            reveal(one_hand_per_selection);
        }
        hands
    }

    /// The greatest of the hands under the comparator (the last one among equals).
    pub fn best_of(hands: &Vec<Hand>) -> (best: Hand)
        requires
            hands@.len() > 0,
            forall|i: int| 0 <= i < hands@.len() ==> (#[trigger] hands@[i]).wf(),
        ensures
            best.wf(),
            exists|i: int| 0 <= i < hands@.len() && hands@[i] == best,
            forall|i: int| 0 <= i < hands@.len() ==> hand_order(#[trigger] hands@[i], best) != Ordering::Greater,
    {
        let mut best = hands[0];
        proof {
            hand_order_reflexive(best);
        }
        let ghost mut at: int = 0;
        let mut i: usize = 1;
        while i < hands.len()
            invariant
                1 <= i <= hands@.len(),
                forall|j: int| 0 <= j < hands@.len() ==> (#[trigger] hands@[j]).wf(),
                0 <= at < hands@.len(),
                hands@[at] == best,
                forall|j: int| 0 <= j < i ==> hand_order(#[trigger] hands@[j], best) != Ordering::Greater,
            decreases hands@.len() - i,
        {
            let h = hands[i];
            proof {
                lemma_hand_order_antisymmetric(h, best);
                hand_order_reflexive(best);
            }
            match h.cmp(&best) {
                Ordering::Less => {},
                _ => {
                    proof {
                        assert forall|j: int| 0 <= j < i + 1 implies hand_order(
                            #[trigger] hands@[j],
                            h,
                        ) != Ordering::Greater by {
                            if j < i {
                                lemma_hand_order_transitive(hands@[j], best, h);
                            } else {
                                hand_order_reflexive(h);
                            }
                        }
                    }
                    best = h;
                    proof {
                        at = i as int;
                    }
                },
            }
            i = i + 1;
        }
        best
    }

    /// The best hand that five of a player's seven cards make.
    pub fn best_hand(hole: [Card; 2], community: [Card; 5]) -> (best: Hand)
        requires
            forall|i: int| 0 <= i < 2 ==> (#[trigger] hole@[i]).wf(),
            forall|i: int| 0 <= i < 5 ==> (#[trigger] community@[i]).wf(),
        ensures
            best.wf(),
            made_of_five(best, seven_cards(hole@, community@)),
            forall|sel: Seq<usize>|
                is_selection(sel, 7, 5) ==> #[trigger] beaten_by_none_of(sel, seven_cards(hole@, community@), best),
    {
        let hands = Hand::get_all_hands(hole, community);
        let ghost all = seven_cards(hole@, community@);
        proof {
            let first = seq![0usize, 1, 2, 3, 4];
            assert(is_selection(first, 7, 5));
        }
        let best = Hand::best_of(&hands);
        proof {
            lemma_best_of_all(hands@, all, best);
        }
        best
    }
}

proof fn lemma_best_of_all(hands: Seq<Hand>, all: Seq<Card>, best: Hand)
    requires
        forall|i: int| 0 <= i < hands.len() ==> made_of_five(#[trigger] hands[i], all),
        forall|sel: Seq<usize>|
            is_selection(sel, 7, 5) ==> exists|i: int| 0 <= i < hands.len() && made_of(#[trigger] hands[i], all, sel),
        exists|i: int| 0 <= i < hands.len() && hands[i] == best,
        forall|i: int| 0 <= i < hands.len() ==> hand_order(#[trigger] hands[i], best) != Ordering::Greater,
    ensures
        made_of_five(best, all),
        forall|sel: Seq<usize>| is_selection(sel, 7, 5) ==> #[trigger] beaten_by_none_of(sel, all, best),
{
    let i = choose|i: int| 0 <= i < hands.len() && hands[i] == best;
    assert(made_of_five(hands[i], all));
    assert forall|sel: Seq<usize>| is_selection(sel, 7, 5) implies #[trigger] beaten_by_none_of(sel, all, best) by {
        let j = choose|j: int| 0 <= j < hands.len() && made_of(#[trigger] hands[j], all, sel);
        assert(made_of(hands[j], all, sel) && hand_order(hands[j], best) != Ordering::Greater);
    }
}

/// The hand made of the selected cards does not beat `best`.
pub open spec fn beaten_by_none_of(sel: Seq<usize>, cards: Seq<Card>, best: Hand) -> bool {
    exists|h: Hand| made_of(h, cards, sel) && hand_order(h, best) != Ordering::Greater
}

proof fn hand_order_reflexive(a: Hand)
    ensures
        hand_order(a, a) == Ordering::Equal,
{
    lemma_lex_equal(strength(a.category(), a@), strength(a.category(), a@));
}

} // verus!
