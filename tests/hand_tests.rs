use std::cmp::Ordering;

use heads_up_poker::card::{Card, Deck, Rank, Suit};
use heads_up_poker::hand::Hand;
use heads_up_poker::hand_type::HandType;
use rand::seq::SliceRandom;

const ALL_SUITS: [Suit; 4] = [Suit::Spade, Suit::Club, Suit::Diamond, Suit::Heart];

fn create_hand(ranks: [Rank; 5], suits: [Suit; 5]) -> Hand {
    let cards: Vec<Card> = ranks
        .iter()
        .zip(suits.iter())
        .map(|(&rank, &suit)| Card::new(rank, suit))
        .collect();
    Hand::new(cards.try_into().unwrap())
}

fn random_suits_no_flush() -> [Suit; 5] {
    let mut rng = rand::thread_rng();
    loop {
        let mut suits = Vec::new();
        for _ in 0..5 {
            suits.push(*ALL_SUITS.choose(&mut rng).unwrap());
        }
        if suits.iter().any(|&suit| suit != suits[0]) {
            return suits.try_into().unwrap();
        }
    }
}

const MIXED: [Suit; 5] = [Suit::Spade, Suit::Heart, Suit::Club, Suit::Diamond, Suit::Spade];

#[test]
fn hand_compare_tests() {
    let highcard1 = create_hand([3, 5, 2, 6, 9], random_suits_no_flush());
    let highcard2 = create_hand([1, 2, 3, 7, 4], random_suits_no_flush());

    let pair1 = create_hand([2, 3, 10, 2, 4], random_suits_no_flush());
    let pair2 = create_hand([5, 6, 7, 5, 2], random_suits_no_flush());
    let pair3 = create_hand([5, 6, 2, 5, 1], random_suits_no_flush());

    let toak1 = create_hand([2, 2, 2, 1, 4], random_suits_no_flush());

    let straight1 = create_hand([3, 4, 5, 6, 7], random_suits_no_flush());
    let straight2 = create_hand([1, 2, 3, 4, 5], random_suits_no_flush());

    let flush1 = create_hand([7, 2, 3, 4, 6], [Suit::Heart; 5]);
    let flush2 = create_hand([3, 4, 5, 7, 8], [Suit::Club; 5]);

    let full_house = create_hand([9, 9, 9, 7, 7], random_suits_no_flush());
    let foak = create_hand([3, 3, 3, 3, 9], random_suits_no_flush());
    let royal_flush = create_hand([10, 11, 12, 13, 1], [Suit::Heart; 5]);

    assert_eq!(highcard1.cmp(&highcard2), Ordering::Less);
    assert_eq!(pair1.cmp(&pair2), Ordering::Less);
    assert_eq!(pair2.cmp(&pair3), Ordering::Less);
    assert_eq!(highcard1.cmp(&pair2), Ordering::Less);
    assert_eq!(straight1.cmp(&straight2), Ordering::Greater);
    assert_eq!(flush1.cmp(&flush2), Ordering::Less);
    assert_eq!(toak1.cmp(&pair3), Ordering::Greater);
    assert_eq!(royal_flush.cmp(&foak), Ordering::Greater);
    assert_eq!(foak.cmp(&full_house), Ordering::Greater);
}

#[test]
fn classifies_every_category() {
    let h = create_hand([10, 11, 12, 13, 1], [Suit::Club; 5]);
    assert!(matches!(h.get_hand_type(), HandType::RoyalFlush));
    let h = create_hand([1, 2, 3, 4, 5], [Suit::Club; 5]);
    assert!(matches!(h.get_hand_type(), HandType::StraightFlush(5)));
    let h = create_hand([9, 5, 6, 7, 8], [Suit::Diamond; 5]);
    assert!(matches!(h.get_hand_type(), HandType::StraightFlush(9)));
    let h = create_hand([1, 1, 1, 1, 9], MIXED);
    assert!(matches!(h.get_hand_type(), HandType::FourOfAKind(1)));
    let h = create_hand([4, 9, 9, 9, 9], MIXED);
    assert!(matches!(h.get_hand_type(), HandType::FourOfAKind(9)));
    let h = create_hand([9, 9, 9, 7, 7], MIXED);
    assert!(matches!(h.get_hand_type(), HandType::FullHouse(9, 7)));
    let h = create_hand([3, 3, 1, 1, 1], MIXED);
    assert!(matches!(h.get_hand_type(), HandType::FullHouse(1, 3)));
    let h = create_hand([2, 4, 6, 8, 13], [Suit::Heart; 5]);
    assert!(matches!(h.get_hand_type(), HandType::Flush));
    let h = create_hand([10, 11, 12, 13, 1], MIXED);
    assert!(matches!(h.get_hand_type(), HandType::Straight(1)));
    let h = create_hand([4, 2, 3, 1, 5], MIXED);
    assert!(matches!(h.get_hand_type(), HandType::Straight(5)));
    let h = create_hand([8, 8, 8, 2, 13], MIXED);
    assert!(matches!(h.get_hand_type(), HandType::ThreeOfAKind(8)));
    let h = create_hand([12, 12, 1, 1, 5], MIXED);
    assert!(matches!(h.get_hand_type(), HandType::TwoPair(1, 12)));
    let h = create_hand([6, 6, 2, 9, 13], MIXED);
    assert!(matches!(h.get_hand_type(), HandType::OnePair(6)));
    let h = create_hand([2, 5, 9, 11, 1], MIXED);
    assert!(matches!(h.get_hand_type(), HandType::HighCard(1)));
    let h = create_hand([2, 3, 4, 5, 13], MIXED);
    assert!(matches!(h.get_hand_type(), HandType::HighCard(13)));
}

#[test]
fn classifying_again_gives_the_same_category() {
    let h = create_hand([12, 12, 1, 1, 5], MIXED);
    let first = h.get_hand_type();
    let second = h.get_hand_type();
    assert!(matches!(first, HandType::TwoPair(1, 12)));
    assert!(matches!(second, HandType::TwoPair(1, 12)));
    assert!(matches!(HandType::get_hand(h), HandType::TwoPair(1, 12)));
    let again = Hand::new(h.cards());
    assert!(matches!(again.get_hand_type(), HandType::TwoPair(1, 12)));
}

#[test]
fn hand_is_sorted_ace_high() {
    let h = create_hand([1, 9, 2, 13, 9], MIXED);
    assert_eq!(h.get_ranks_array(), [2, 9, 9, 13, 1]);
}

#[test]
fn category_ranking_is_a_chain() {
    let hands = [
        create_hand([10, 11, 12, 13, 1], [Suit::Spade; 5]),
        create_hand([5, 6, 7, 8, 9], [Suit::Spade; 5]),
        create_hand([2, 2, 2, 2, 3], MIXED),
        create_hand([2, 2, 2, 3, 3], MIXED),
        create_hand([2, 4, 6, 8, 10], [Suit::Club; 5]),
        create_hand([2, 3, 4, 5, 6], MIXED),
        create_hand([2, 2, 2, 4, 5], MIXED),
        create_hand([2, 2, 3, 3, 5], MIXED),
        create_hand([2, 2, 3, 4, 5], MIXED),
        create_hand([2, 3, 4, 5, 7], MIXED),
    ];
    for i in 0..hands.len() {
        assert_eq!(hands[i].get_hand_type().get_ranking() as usize, i + 1);
        for j in 0..hands.len() {
            let expected = j.cmp(&i);
            assert_eq!(hands[i].cmp(&hands[j]), expected);
            assert_eq!(hands[i].get_hand_type().cmp(&hands[j].get_hand_type()), expected);
        }
    }
    // a low category beats a higher one whatever the ranks
    let aces_up = create_hand([1, 1, 13, 13, 12], MIXED);
    let small_trips = create_hand([2, 2, 2, 3, 4], MIXED);
    assert_eq!(aces_up.cmp(&small_trips), Ordering::Less);
}

#[test]
fn wheel_and_broadway_straights() {
    let wheel = create_hand([2, 3, 4, 5, 1], MIXED);
    let seven_high = create_hand([3, 4, 5, 6, 7], MIXED);
    let broadway = create_hand([10, 11, 12, 13, 1], MIXED);
    let broadway2 = create_hand([1, 13, 12, 11, 10], [Suit::Heart, Suit::Club, Suit::Club, Suit::Club, Suit::Club]);
    assert!(matches!(wheel.get_hand_type(), HandType::Straight(5)));
    assert!(matches!(broadway.get_hand_type(), HandType::Straight(1)));
    assert_eq!(wheel.cmp(&seven_high), Ordering::Less);
    assert_eq!(seven_high.cmp(&wheel), Ordering::Greater);
    assert_eq!(broadway.cmp(&seven_high), Ordering::Greater);
    assert_eq!(broadway.cmp(&broadway2), Ordering::Equal);
}

#[test]
fn full_house_four_of_a_kind_royal_flush() {
    let full_house = create_hand([9, 9, 9, 7, 7], MIXED);
    let quads = create_hand([3, 3, 3, 3, 9], MIXED);
    let royal = create_hand([10, 11, 12, 13, 1], [Suit::Diamond; 5]);
    assert_eq!(full_house.cmp(&quads), Ordering::Less);
    assert_eq!(quads.cmp(&royal), Ordering::Less);
    assert_eq!(full_house.cmp(&royal), Ordering::Less);
}

#[test]
fn one_pair_kickers_high_to_low() {
    let a = create_hand([8, 8, 13, 4, 3], MIXED);
    let b = create_hand([8, 8, 12, 11, 10], MIXED);
    let c = create_hand([8, 8, 13, 4, 2], MIXED);
    let d = create_hand([8, 8, 13, 4, 3], [Suit::Club, Suit::Diamond, Suit::Heart, Suit::Spade, Suit::Club]);
    assert_eq!(a.cmp(&b), Ordering::Greater);
    assert_eq!(a.cmp(&c), Ordering::Greater);
    assert_eq!(c.cmp(&b), Ordering::Greater);
    assert_eq!(a.cmp(&d), Ordering::Equal);
    // an ace kicker beats a king kicker
    let ace_kicker = create_hand([8, 8, 1, 2, 3], MIXED);
    assert_eq!(ace_kicker.cmp(&a), Ordering::Greater);
    // a higher pair beats better kickers
    let nines = create_hand([9, 9, 2, 3, 4], MIXED);
    assert_eq!(nines.cmp(&ace_kicker), Ordering::Greater);
    let aces = create_hand([1, 1, 2, 3, 4], MIXED);
    let kings = create_hand([13, 13, 12, 11, 9], MIXED);
    assert_eq!(aces.cmp(&kings), Ordering::Greater);
}

#[test]
fn tie_breaks_within_categories() {
    let two_pair_a = create_hand([13, 13, 5, 5, 2], MIXED);
    let two_pair_b = create_hand([13, 13, 5, 5, 3], MIXED);
    let two_pair_c = create_hand([12, 12, 11, 11, 1], MIXED);
    assert_eq!(two_pair_a.cmp(&two_pair_b), Ordering::Less);
    assert_eq!(two_pair_a.cmp(&two_pair_c), Ordering::Greater);
    let fh_a = create_hand([4, 4, 4, 1, 1], MIXED);
    let fh_b = create_hand([5, 5, 5, 2, 2], MIXED);
    assert_eq!(fh_a.cmp(&fh_b), Ordering::Less);
    let quads_a = create_hand([7, 7, 7, 7, 2], MIXED);
    let quads_b = create_hand([7, 7, 7, 7, 1], MIXED);
    assert_eq!(quads_a.cmp(&quads_b), Ordering::Less);
    let flush_a = create_hand([2, 4, 6, 8, 1], [Suit::Spade; 5]);
    let flush_b = create_hand([3, 4, 6, 8, 1], [Suit::Heart; 5]);
    assert_eq!(flush_a.cmp(&flush_b), Ordering::Less);
    let sf_a = create_hand([1, 2, 3, 4, 5], [Suit::Spade; 5]);
    let sf_b = create_hand([2, 3, 4, 5, 6], [Suit::Heart; 5]);
    assert_eq!(sf_a.cmp(&sf_b), Ordering::Less);
    let royal_a = create_hand([10, 11, 12, 13, 1], [Suit::Spade; 5]);
    let royal_b = create_hand([10, 11, 12, 13, 1], [Suit::Heart; 5]);
    assert_eq!(royal_a.cmp(&royal_b), Ordering::Equal);
}

#[test]
fn all_hands_of_seven_cards() {
    let hole = [Card::new(1, Suit::Spade), Card::new(1, Suit::Heart)];
    let community = [
        Card::new(1, Suit::Club),
        Card::new(13, Suit::Spade),
        Card::new(13, Suit::Heart),
        Card::new(2, Suit::Diamond),
        Card::new(7, Suit::Club),
    ];
    let hands = Hand::get_all_hands(hole, community);
    assert_eq!(hands.len(), 21);
    let best = Hand::best_hand(hole, community);
    assert!(matches!(best.get_hand_type(), HandType::FullHouse(1, 13)));
    let mut max = hands[0];
    for h in hands.iter() {
        if h.cmp(&max) != Ordering::Less {
            max = *h;
        }
        assert_ne!(h.cmp(&best), Ordering::Greater);
    }
    assert_eq!(max.cmp(&best), Ordering::Equal);
    assert_eq!(Hand::best_of(&hands).cmp(&best), Ordering::Equal);
}

#[test]
fn best_hand_finds_a_flush_across_hole_and_board() {
    let hole = [Card::new(2, Suit::Heart), Card::new(9, Suit::Heart)];
    let community = [
        Card::new(13, Suit::Heart),
        Card::new(13, Suit::Club),
        Card::new(4, Suit::Heart),
        Card::new(6, Suit::Heart),
        Card::new(7, Suit::Spade),
    ];
    let best = Hand::best_hand(hole, community);
    assert!(matches!(best.get_hand_type(), HandType::Flush));
    assert_eq!(best.get_ranks_array(), [2, 4, 6, 9, 13]);
}

#[test]
fn card_values_and_names() {
    assert_eq!(Card::new(1, Suit::Spade).value_of(), 14);
    assert_eq!(Card::new(12, Suit::Club).value_of(), 12);
    assert_eq!(Card::display_rank(1), "Ace");
    assert_eq!(Card::display_rank(7), "7");
    assert_eq!(Card::display_rank(10), "10");
    assert_eq!(Card::display_rank(11), "Jack");
    assert_eq!(Card::display_rank(12), "Queen");
    assert_eq!(Card::display_rank(13), "King");
}

#[test]
fn deck_deals_every_card_once() {
    let mut deck = Deck::new();
    assert_eq!(deck.len(), 52);
    let mut order = deck.indices();
    let shuffled = order.clone();
    order.sort();
    assert_eq!(order, (0..52).collect::<Vec<u8>>());
    // a shuffle that left the deck sorted would be a one-in-52! event
    assert_ne!(shuffled, (0..52).collect::<Vec<u8>>());
    let mut seen = Vec::new();
    for _ in 0..52 {
        let c = deck.random_card();
        assert!(c.rank >= 1 && c.rank <= 13);
        seen.push((c.rank, c.suit));
    }
    assert_eq!(deck.len(), 0);
    for i in 0..seen.len() {
        for j in 0..i {
            assert!(seen[i] != seen[j]);
        }
    }
}

#[test]
fn deck_index_to_card() {
    let mut deck = Deck::from_indices(vec![0, 5, 51, 46]);
    let c = deck.random_card();
    assert_eq!((c.rank, c.suit), (1, Suit::Spade));
    let c = deck.random_card();
    assert_eq!((c.rank, c.suit), (2, Suit::Club));
    let c = deck.random_card();
    assert_eq!((c.rank, c.suit), (13, Suit::Heart));
    let c = deck.random_card();
    assert_eq!((c.rank, c.suit), (12, Suit::Diamond));
    assert_eq!(deck.indices(), Vec::<u8>::new());
}

#[test]
fn cards_compare_by_rank_ace_high() {
    let ace = Card::new(1, Suit::Club);
    let king = Card::new(13, Suit::Club);
    let two = Card::new(2, Suit::Heart);
    assert_eq!(ace.cmp(&king), Ordering::Greater);
    assert_eq!(two.cmp(&king), Ordering::Less);
    assert_eq!(two.cmp(&Card::new(2, Suit::Spade)), Ordering::Equal);
    assert!(two == Card::new(2, Suit::Spade));
    assert!(ace != king);
}

#[test]
fn hands_are_equal_when_neither_beats_the_other() {
    let broadway = create_hand([10, 11, 12, 13, 1], MIXED);
    let broadway2 = create_hand([1, 13, 12, 11, 10], [Suit::Heart, Suit::Club, Suit::Club, Suit::Club, Suit::Club]);
    let seven_high = create_hand([3, 4, 5, 6, 7], MIXED);
    assert!(broadway == broadway2);
    assert!(broadway != seven_high);
}
