use heads_up_poker::card::{Deck, Suit};
use heads_up_poker::game::{Action, BettingRound, Game, GameCfg, GameError};

fn cfg(stacks: [usize; 2], small: usize, big: usize, dealer: usize) -> GameCfg {
    GameCfg {
        player_name: ["Ann".to_string(), "Bo".to_string()],
        starting_chip: stacks,
        small_blind_amount: small,
        big_blind_amount: big,
        first_dealer_index: dealer,
    }
}

fn sorted_deck() -> Deck {
    Deck::from_indices((0..52).collect())
}

fn total(g: &Game) -> usize {
    g.pot_size + g.players.iter().map(|p| p.stack + p.bet_size).sum::<usize>()
}

#[test]
fn new_game_posts_blinds() {
    let g = Game::new(cfg([1000, 1000], 5, 10, 0)).unwrap();
    assert_eq!(g.players[0].stack, 995);
    assert_eq!(g.players[0].bet_size, 5);
    assert_eq!(g.players[1].stack, 990);
    assert_eq!(g.players[1].bet_size, 10);
    assert_eq!(g.current_player_index, 0);
    assert_eq!(g.small_blind_index, 0);
    assert_eq!(g.betting_round, BettingRound::PreFlop);
    assert_eq!(g.community.len(), 0);
    assert_eq!(g.deck.len(), 48);
    assert_eq!(g.min_raise, 10);
    assert_eq!(g.previous_active_index, None);
    assert_eq!(
        g.get_possible_actions(),
        vec![Action::Call, Action::Raise(0), Action::Fold]
    );
    assert_eq!(g.get_call_amount(), Some(5));
    assert_eq!(g.get_raise_or_bet_range(), Some(10..=990));
}

#[test]
fn new_game_deals_from_the_top() {
    let g = Game::new_with_deck(cfg([1000, 1000], 5, 10, 1), sorted_deck()).unwrap();
    assert_eq!((g.players[0].hole[0].rank, g.players[0].hole[0].suit), (1, Suit::Spade));
    assert_eq!((g.players[0].hole[1].rank, g.players[0].hole[1].suit), (1, Suit::Club));
    assert_eq!((g.players[1].hole[0].rank, g.players[1].hole[0].suit), (1, Suit::Diamond));
    assert_eq!((g.players[1].hole[1].rank, g.players[1].hole[1].suit), (1, Suit::Heart));
    assert_eq!(g.deck.indices()[0], 4);
    // dealer 1 posts the small blind
    assert_eq!(g.players[1].bet_size, 5);
    assert_eq!(g.players[0].bet_size, 10);
    assert_eq!(g.current_player_index, 1);
}

#[test]
fn new_game_refuses_uncovered_blind() {
    let r = Game::new(cfg([1000, 9], 5, 10, 0));
    assert!(matches!(r, Err(GameError::BlindNotCovered(1))));
    let r = Game::new(cfg([4, 1000], 5, 10, 0));
    assert!(matches!(r, Err(GameError::BlindNotCovered(0))));
}

#[test]
fn call_then_check_deals_the_flop() {
    let g = Game::new(cfg([1000, 1000], 5, 10, 0)).unwrap();
    let g = g.act(Action::Call).unwrap();
    assert_eq!(g.players[0].bet_size, 10);
    assert_eq!(g.players[0].stack, 990);
    assert_eq!(g.current_player_index, 1);
    assert_eq!(g.previous_active_index, Some(0));
    assert_eq!(g.get_possible_actions(), vec![Action::Raise(0), Action::Check, Action::Fold]);
    let g = g.act(Action::Check).unwrap();
    assert_eq!(g.pot_size, 20);
    assert_eq!(g.betting_round, BettingRound::Flop);
    assert_eq!(g.community.len(), 3);
    assert_eq!(g.players[0].bet_size, 0);
    assert_eq!(g.players[1].bet_size, 0);
    assert_eq!(g.deck.len(), 45);
    assert_eq!(g.current_player_index, 1);
    assert_eq!(g.min_raise, 10);
    assert_eq!(g.previous_active_index, None);
}

#[test]
fn new_round_offers_only_bet_or_check() {
    let g = Game::new(cfg([1000, 1000], 5, 10, 0)).unwrap();
    let g = g.act(Action::Call).unwrap().act(Action::Check).unwrap();
    assert_eq!(g.get_possible_actions(), vec![Action::Bet(0), Action::Check, Action::Fold]);
    assert_eq!(g.get_call_amount(), None);
    assert_eq!(g.get_raise_or_bet_range(), Some(10..=990));
    // check, check: the turn card comes
    let g = g.act(Action::Check).unwrap();
    assert_eq!(g.betting_round, BettingRound::Flop);
    assert_eq!(g.previous_active_index, Some(1));
    let g = g.act(Action::Check).unwrap();
    assert_eq!(g.betting_round, BettingRound::Turn);
    assert_eq!(g.community.len(), 4);
    assert_eq!(g.get_possible_actions(), vec![Action::Bet(0), Action::Check, Action::Fold]);
}

#[test]
fn fold_awards_the_pot() {
    let g = Game::new(cfg([1000, 1000], 5, 10, 0)).unwrap();
    let g = g.act(Action::Fold).unwrap();
    // seat 1 won 15; the button moved to seat 1, who now posts the small blind
    assert_eq!(g.dealer_index, 1);
    assert_eq!(g.players[1].stack + g.players[1].bet_size, 1005);
    assert_eq!(g.players[0].stack + g.players[0].bet_size, 995);
    assert_eq!(g.players[1].bet_size, 5);
    assert_eq!(g.players[0].bet_size, 10);
    assert_eq!(g.pot_size, 0);
    assert_eq!(g.betting_round, BettingRound::PreFlop);
    assert_eq!(g.community.len(), 0);
    assert_eq!(g.deck.len(), 48);
    assert!(!g.players[0].folded && !g.players[1].folded);
    assert_eq!(total(&g), 2000);
}

#[test]
fn fold_after_the_flop_awards_the_pot() {
    let g = Game::new(cfg([1000, 1000], 5, 10, 0)).unwrap();
    let g = g.act(Action::Call).unwrap().act(Action::Check).unwrap();
    let g = g.act(Action::Bet(50)).unwrap();
    assert_eq!(g.players[1].bet_size, 50);
    assert_eq!(g.get_call_amount(), Some(50));
    let g = g.act(Action::Fold).unwrap();
    // seat 1 bet 50 and took the pot of 20 back with it
    assert_eq!(g.players[1].stack + g.players[1].bet_size, 1010);
    assert_eq!(g.players[0].stack + g.players[0].bet_size, 990);
    assert_eq!(total(&g), 2000);
}

#[test]
fn call_beyond_stack_is_all_in() {
    let g = Game::new(cfg([1000, 40], 5, 10, 0)).unwrap();
    let g = g.act(Action::Raise(100)).unwrap();
    assert_eq!(g.players[0].bet_size, 110);
    assert_eq!(g.players[0].stack, 890);
    assert_eq!(g.min_raise, 100);
    assert_eq!(g.get_possible_actions(), vec![Action::Call, Action::Fold]);
    assert_eq!(g.get_call_amount(), Some(30));
    assert_eq!(g.get_raise_or_bet_range(), None);
    let g = g.act(Action::Call).unwrap();
    assert_eq!(g.players[1].stack, 0);
    assert_eq!(g.pot_size, 150);
    assert_eq!(g.betting_round, BettingRound::Flop);
    assert_eq!(total(&g), 1040);
}

#[test]
fn raise_reopens_the_action() {
    let g = Game::new(cfg([1000, 1000], 5, 10, 0)).unwrap();
    let g = g.act(Action::Call).unwrap();
    let g = g.act(Action::Raise(20)).unwrap();
    assert_eq!(g.players[1].bet_size, 30);
    assert_eq!(g.previous_active_index, Some(1));
    assert_eq!(g.get_call_amount(), Some(20));
    assert_eq!(g.get_raise_or_bet_range(), Some(20..=970));
    let g = g.act(Action::Call).unwrap();
    assert_eq!(g.betting_round, BettingRound::Flop);
    assert_eq!(g.pot_size, 60);
}

#[test]
fn illegal_actions_are_refused() {
    let g = Game::new(cfg([1000, 1000], 5, 10, 0)).unwrap();
    assert_eq!(g.act(Action::Check).err(), Some(GameError::CannotCheck));
    assert_eq!(g.act(Action::Raise(5)).err(), Some(GameError::IllegalRaiseAmount(5)));
    assert_eq!(g.act(Action::Raise(991)).err(), Some(GameError::IllegalRaiseAmount(991)));
    // a bet is outstanding: only a raise is open
    assert_eq!(g.act(Action::Bet(10)).err(), Some(GameError::CannotBet));
    let flop = g.act(Action::Call).unwrap().act(Action::Check).unwrap();
    assert_eq!(flop.act(Action::Call).err(), Some(GameError::CannotCall));
    // nothing to raise yet: only a bet is open
    assert_eq!(flop.act(Action::Raise(10)).err(), Some(GameError::CannotRaise));
    assert_eq!(flop.act(Action::Bet(5)).err(), Some(GameError::IllegalBetAmount(5)));
    assert_eq!(flop.act(Action::Bet(991)).err(), Some(GameError::IllegalBetAmount(991)));
    // the refused snapshot is untouched
    assert_eq!(flop.pot_size, 20);
    assert_eq!(flop.current_player_index, 1);
}

#[test]
fn cannot_bet_or_raise_with_nothing_left() {
    let g = Game::new(cfg([1000, 10], 5, 10, 0)).unwrap();
    // seat 1 is all-in with the big blind
    let g = g.act(Action::Call).unwrap();
    assert_eq!(g.players[1].stack, 0);
    // no chips left: no raise, but a check or a fold
    assert_eq!(g.get_possible_actions(), vec![Action::Check, Action::Fold]);
    assert_eq!(g.get_raise_or_bet_range(), None);
    assert_eq!(g.act(Action::Raise(0)).err(), Some(GameError::CannotRaise));
    let flop = g.act(Action::Check).unwrap();
    assert_eq!(flop.current_player_index, 1);
    assert_eq!(flop.get_possible_actions(), vec![Action::Check, Action::Fold]);
    assert_eq!(flop.act(Action::Bet(10)).err(), Some(GameError::CannotBet));
    assert_eq!(flop.act(Action::Raise(10)).err(), Some(GameError::CannotRaise));
}

#[test]
fn hand_plays_out_to_a_showdown() {
    let mut g = Game::new(cfg([1000, 1000], 5, 10, 0)).unwrap();
    g = g.act(Action::Call).unwrap().act(Action::Check).unwrap();
    for round in [BettingRound::Flop, BettingRound::Turn, BettingRound::River] {
        assert_eq!(g.betting_round, round);
        g = g.act(Action::Check).unwrap().act(Action::Check).unwrap();
    }
    // the showdown paid the pot of 20 and the next hand began
    assert_eq!(g.betting_round, BettingRound::PreFlop);
    assert_eq!(g.dealer_index, 1);
    assert_eq!(g.community.len(), 0);
    assert_eq!(total(&g), 2000);
    let chips: Vec<usize> = g.players.iter().map(|p| p.stack + p.bet_size).collect();
    assert!(chips == vec![1010, 990] || chips == vec![990, 1010] || chips == vec![1000, 1000]);
}

#[test]
fn showdown_splits_a_tied_pot() {
    // both players hold two aces and the board plays
    let order: Vec<u8> = (0..52).collect();
    let g = Game::new_with_deck(cfg([1000, 1000], 5, 10, 0), Deck::from_indices(order)).unwrap();
    let mut g = g.act_with_deck(Action::Call, sorted_deck()).unwrap();
    g = g.act_with_deck(Action::Check, sorted_deck()).unwrap();
    for _ in 0..3 {
        g = g.act_with_deck(Action::Check, sorted_deck()).unwrap();
        g = g.act_with_deck(Action::Check, sorted_deck()).unwrap();
    }
    assert_eq!(g.dealer_index, 1);
    assert_eq!(g.players[0].stack + g.players[0].bet_size, 1000);
    assert_eq!(g.players[1].stack + g.players[1].bet_size, 1000);
}

#[test]
fn showdown_reports_a_tie() {
    let g = Game::new_with_deck(cfg([1000, 1000], 5, 10, 0), sorted_deck()).unwrap();
    let g = g.act(Action::Call).unwrap().act(Action::Check).unwrap();
    let mut g = g.act(Action::Check).unwrap().act(Action::Check).unwrap();
    g = g.act(Action::Check).unwrap().act(Action::Check).unwrap();
    assert_eq!(g.betting_round, BettingRound::River);
    // each player has a pair of aces with the same board: a tie
    assert_eq!(g.showdown(), vec![0, 1]);
}

#[test]
fn odd_chip_goes_left_of_dealer() {
    // seat 1 is all-in for 13 against a bet of 20: the pot is 33
    let g = Game::new_with_deck(cfg([1000, 13], 5, 10, 0), sorted_deck()).unwrap();
    let g = g.act(Action::Raise(10)).unwrap();
    assert_eq!(g.get_call_amount(), Some(3));
    let mut g = g.act(Action::Call).unwrap();
    assert_eq!(g.pot_size, 33);
    for _ in 0..3 {
        g = g.act_with_deck(Action::Check, sorted_deck()).unwrap();
        g = g.act_with_deck(Action::Check, sorted_deck()).unwrap();
    }
    // a tie: 16 each, and the odd chip to seat 1, left of the dealer
    assert_eq!(g.dealer_index, 1);
    assert_eq!(g.players[1].stack + g.players[1].bet_size, 17);
    assert_eq!(g.players[0].stack + g.players[0].bet_size, 996);
    assert_eq!(total(&g), 1013);
}

#[test]
fn next_betting_round_deals_the_turn() {
    let g = Game::new(cfg([1000, 1000], 5, 10, 0)).unwrap();
    let mut g = g.act(Action::Call).unwrap().act(Action::Check).unwrap();
    g.next_betting_round(Deck::new(), &Vec::new()).unwrap();
    assert_eq!(g.betting_round, BettingRound::Turn);
    assert_eq!(g.community.len(), 4);
    assert_eq!(g.pot_size, 20);
}

#[test]
fn fold_is_open_when_nothing_is_owed() {
    let g = Game::new(cfg([1000, 1000], 5, 10, 0)).unwrap();
    let g = g.act(Action::Call).unwrap();
    assert!(g.get_possible_actions().contains(&Action::Fold));
    let g = g.act(Action::Fold).unwrap();
    assert_eq!(g.players[0].stack + g.players[0].bet_size, 1010);
    assert_eq!(g.players[1].stack + g.players[1].bet_size, 990);
}

#[test]
fn next_hand_that_cannot_be_dealt_leaves_the_game() {
    // seat 0 holds two aces, seat 1 a two and a three; the board does not help seat 1
    let mut order: Vec<u8> = vec![0, 1, 4, 9, 20, 25, 30, 47, 51];
    for i in 0..52 {
        if !order.contains(&i) {
            order.push(i);
        }
    }
    let g = Game::new_with_deck(cfg([1000, 10], 5, 10, 0), Deck::from_indices(order)).unwrap();
    let mut g = g.act(Action::Call).unwrap().act(Action::Check).unwrap();
    for _ in 0..2 {
        g = g.act(Action::Check).unwrap().act(Action::Check).unwrap();
    }
    assert_eq!(g.betting_round, BettingRound::River);
    assert_eq!(g.community.len(), 5);
    let winners = g.showdown();
    assert_eq!(winners, vec![0]);
    // seat 1 has lost everything and cannot post the next small blind
    let before_pot = g.pot_size;
    let r = g.next_betting_round(Deck::new(), &winners);
    assert_eq!(r, Err(GameError::BlindNotCovered(1)));
    assert_eq!(g.pot_size, before_pot);
    assert_eq!(g.betting_round, BettingRound::River);
    assert_eq!(g.community.len(), 5);
    let g = g.act(Action::Check).unwrap();
    assert_eq!(g.act(Action::Check).err(), Some(GameError::BlindNotCovered(1)));
}
