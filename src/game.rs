use vstd::prelude::*;

use std::ops::RangeInclusive;

use crate::card::{Card, Deck};
use crate::game_model::{
    applied, full_deck, lemma_chips_moved_wf, new_game, other_seat, post_blinds, showdown_outcome,
    start_hand, valid_winners, winners_of, GameView,
};
use crate::hand::Hand;

verus! {

/// The configuration a game is created from.
#[derive(Debug)]
pub struct GameCfg {
    pub player_name: [String; 2],
    pub starting_chip: [usize; 2],
    pub small_blind_amount: usize,
    pub big_blind_amount: usize,
    pub first_dealer_index: usize,
}

impl Clone for GameCfg {
    fn clone(&self) -> (c: GameCfg)
        ensures
            c == *self,
    {
        let names = [self.player_name[0].clone(), self.player_name[1].clone()];
        assert(names =~= self.player_name);
        GameCfg {
            player_name: names,
            starting_chip: self.starting_chip,
            small_blind_amount: self.small_blind_amount,
            big_blind_amount: self.big_blind_amount,
            first_dealer_index: self.first_dealer_index,
        }
    }
}

/// A seated player.
#[derive(Debug)]
pub struct Player {
    pub name: String,
    pub hole: [Card; 2],
    pub stack: usize,
    pub bet_size: usize,
    pub folded: bool,
}

impl Clone for Player {
    fn clone(&self) -> (p: Player)
        ensures
            p == *self,
    {
        Player {
            name: self.name.clone(),
            hole: self.hole,
            stack: self.stack,
            bet_size: self.bet_size,
            folded: self.folded,
        }
    }
}

/// A player's move. The amount of a bet is the bet itself; the amount of a
/// raise is what is added over the previous bet.
#[derive(Clone, Copy, Debug, PartialEq, Eq, Structural)]
pub enum Action {
    Call,
    Bet(usize),
    Raise(usize),
    Check,
    Fold,
}

/// Why an action or a game was refused.
#[derive(Clone, Copy, Debug, PartialEq, Eq, Structural)]
pub enum GameError {
    /// The player in this seat cannot pay their blind.
    BlindNotCovered(usize),
    CannotCall,
    CannotBet,
    CannotRaise,
    CannotCheck,
    IllegalBetAmount(usize),
    IllegalRaiseAmount(usize),
}

#[derive(Clone, Copy, Debug, PartialEq, Eq, Structural)]
pub enum BettingRound {
    PreFlop,
    Flop,
    Turn,
    River,
}

impl BettingRound {
    /// Moves to the next round, back to the pre-flop after the river.
    pub fn next(&mut self)
        ensures
            *final(self) == crate::game_model::following_round(*old(self)),
    {
        *self = match *self {
            BettingRound::PreFlop => BettingRound::Flop,
            BettingRound::Flop => BettingRound::Turn,
            BettingRound::Turn => BettingRound::River,
            BettingRound::River => BettingRound::PreFlop,
        }
    }
}

/// Seats at the table.
pub const NUM_PLAYER: usize = 2;

/// A snapshot of a heads-up game. Every action yields a new snapshot.
#[derive(Debug)]
pub struct Game {
    pub cfg: GameCfg,
    pub deck: Deck,
    pub players: Vec<Player>,
    pub community: Vec<Card>,
    pub dealer_index: usize,
    /// The small blind's seat: the dealer's, heads-up.
    pub small_blind_index: usize,
    pub betting_round: BettingRound,
    pub pot_size: usize,
    pub min_raise: usize,
    pub current_player_index: usize,
    /// The last player to bet or raise (or the round's reference seat).
    pub previous_active_index: Option<usize>,
}

impl View for Game {
    type V = GameView;

    open spec fn view(&self) -> GameView {
        GameView {
            cfg: self.cfg,
            deck: self.deck@,
            players: self.players@,
            community: self.community@,
            dealer_index: self.dealer_index,
            small_blind_index: self.small_blind_index,
            betting_round: self.betting_round,
            pot_size: self.pot_size,
            min_raise: self.min_raise,
            current_player_index: self.current_player_index,
            previous_active_index: self.previous_active_index,
        }
    }
}

/// A game result as plain values.
pub open spec fn view_result(r: Result<Game, GameError>) -> Result<GameView, GameError> {
    match r {
        Ok(g) => Ok(g@),
        Err(e) => Err(e),
    }
}

impl Clone for Game {
    fn clone(&self) -> (g: Game)
        ensures
            g@ == self@,
    {
        Game {
            cfg: self.cfg.clone(),
            deck: self.deck.clone(),
            players: self.players.clone(),
            community: self.community.clone(),
            dealer_index: self.dealer_index,
            small_blind_index: self.small_blind_index,
            betting_round: self.betting_round,
            pot_size: self.pot_size,
            min_raise: self.min_raise,
            current_player_index: self.current_player_index,
            previous_active_index: self.previous_active_index,
        }
    }
}

impl Game {
    pub fn get_small_blind_index(dealer_index: usize) -> (i: usize)
        requires
            dealer_index < NUM_PLAYER,
        ensures
            i == dealer_index,
    {
        if NUM_PLAYER != 2 {
            (dealer_index + 1) % NUM_PLAYER
        } else {
            // heads-up, the dealer posts the small blind
            dealer_index
        }
    }

    /// Pre-flop the dealer acts first; after the flop the other player does.
    pub fn get_first_player_index(pre_flop: bool, dealer_index: usize) -> (i: usize)
        requires
            dealer_index < NUM_PLAYER,
        ensures
            i == (if pre_flop {
                dealer_index
            } else {
                other_seat(dealer_index)
            }),
    {
        if pre_flop {
            if NUM_PLAYER != 2 {
                return (dealer_index + 3) % NUM_PLAYER;
            }
            return dealer_index;
        }
        (dealer_index + 1) % NUM_PLAYER
    }

    /// Posts the blinds, or names the first seat that cannot pay its blind
    /// (the players are then left as they were).
    pub fn assign_blinds(
        players: &mut Vec<Player>,
        small_blind_index: usize,
        small_blind_amount: usize,
        big_blind_index: usize,
        big_blind_amount: usize,
    ) -> (r: Result<(), GameError>)
        requires
            old(players)@.len() == NUM_PLAYER,
        ensures
            match post_blinds(old(players)@, small_blind_index, small_blind_amount, big_blind_index, big_blind_amount) {
                Ok(ps) => r is Ok && final(players)@ == ps,
                Err(e) => r == Err::<(), GameError>(e) && final(players)@ == old(players)@,
            },
    {
        let mut blinds: Vec<usize> = Vec::new();
        let mut index: usize = 0;
        while index < NUM_PLAYER
            invariant
                index <= NUM_PLAYER,
                players@.len() == NUM_PLAYER,
                blinds@.len() == index,
                players@ == old(players)@,
                forall|i: int| 0 <= i < index ==> #[trigger] blinds@[i] == crate::game_model::blind_for(
                    i as usize, small_blind_index, small_blind_amount, big_blind_index, big_blind_amount),
                forall|i: int| 0 <= i < index ==> #[trigger] blinds@[i] <= players@[i].stack,
            decreases NUM_PLAYER - index,
        {
            let bet_size = if index == small_blind_index {
                small_blind_amount
            } else if index == big_blind_index {
                big_blind_amount
            } else {
                0
            };
            if bet_size > players[index].stack {
                assert(index == 1 ==> blinds@[0] <= players@[0].stack);
                return Err(GameError::BlindNotCovered(index));
            }
            blinds.push(bet_size);
            index = index + 1;
        }
        let ghost before = players@;
        let mut index: usize = 0;
        while index < NUM_PLAYER
            invariant
                index <= NUM_PLAYER,
                players@.len() == NUM_PLAYER,
                blinds@.len() == NUM_PLAYER,
                before.len() == NUM_PLAYER,
                forall|i: int| 0 <= i < NUM_PLAYER ==> #[trigger] blinds@[i] == crate::game_model::blind_for(
                    i as usize, small_blind_index, small_blind_amount, big_blind_index, big_blind_amount),
                forall|i: int| 0 <= i < NUM_PLAYER ==> #[trigger] blinds@[i] <= before[i].stack,
                forall|i: int| index <= i < NUM_PLAYER ==> #[trigger] players@[i] == before[i],
                forall|i: int| 0 <= i < index ==> #[trigger] players@[i] == (Player {
                    stack: (before[i].stack - blinds@[i]) as usize,
                    bet_size: blinds@[i],
                    ..before[i]
                }),
            decreases NUM_PLAYER - index,
        {
            let mut player = players[index].clone();
            player.bet_size = blinds[index];
            player.stack = player.stack - blinds[index];
            players.set(index, player);
            index = index + 1;
        }
        assert(blinds@[0] <= before[0].stack && blinds@[1] <= before[1].stack);
        assert(players@[0] == (Player { stack: (before[0].stack - blinds@[0]) as usize, bet_size: blinds@[0], ..before[0] }));
        assert(players@[1] == (Player { stack: (before[1].stack - blinds@[1]) as usize, bet_size: blinds@[1], ..before[1] }));
        assert(players@ =~= post_blinds(before, small_blind_index, small_blind_amount, big_blind_index, big_blind_amount)->Ok_0);
        Ok(())
    }

    /// Seats two players with the given names and stacks, deals their hole
    /// cards from `deck` and posts the blinds.
    fn start_hand(
        cfg: GameCfg,
        name0: String,
        name1: String,
        stack0: usize,
        stack1: usize,
        dealer_index: usize,
        deck: Deck,
    ) -> (r: Result<Game, GameError>)
        requires
            dealer_index < NUM_PLAYER,
            deck.wf(),
            deck@.len() >= 4,
        ensures
            view_result(r) == start_hand(cfg, seq![name0, name1], seq![stack0, stack1], dealer_index, deck@),
    {
        let ghost d = deck@;
        let mut deck = deck;
        let a0 = deck.random_card();
        let a1 = deck.random_card();
        let b0 = deck.random_card();
        let b1 = deck.random_card();
        assert(deck@ =~= d.subrange(4, d.len() as int));
        let mut players: Vec<Player> = Vec::new();
        players.push(Player { name: name0, hole: [a0, a1], stack: stack0, bet_size: 0, folded: false });
        players.push(Player { name: name1, hole: [b0, b1], stack: stack1, bet_size: 0, folded: false });
        let small_blind_index = Game::get_small_blind_index(dealer_index);
        let blinds = Game::assign_blinds(
            &mut players,
            small_blind_index,
            cfg.small_blind_amount,
            (small_blind_index + 1) % NUM_PLAYER,
            cfg.big_blind_amount,
        );
        match blinds {
            Err(e) => Err(e),
            Ok(()) => {
                let min_raise = cfg.big_blind_amount;
                let current_player_index = Game::get_first_player_index(true, dealer_index);
                let g = Game {
                    cfg,
                    deck,
                    players,
                    community: Vec::new(),
                    dealer_index,
                    small_blind_index,
                    betting_round: BettingRound::PreFlop,
                    pot_size: 0,
                    min_raise,
                    current_player_index,
                    previous_active_index: None,
                };
                assert(g@.community =~= seq![]);
                Ok(g)
            },
        }
    }

    /// A new game from a configuration, dealt from a freshly shuffled deck;
    /// refused when a player cannot pay their blind.
    pub fn new(cfg: GameCfg) -> (r: Result<Game, GameError>)
        requires
            cfg.first_dealer_index < NUM_PLAYER,
        ensures
            exists|d: Seq<u8>| full_deck(d) && view_result(r) == new_game(cfg, d),
    {
        let deck = Deck::new();
        let ghost d = deck@;
        assert(full_deck(d));
        let r = Game::new_with_deck(cfg, deck);
        assert(full_deck(d) && view_result(r) == new_game(cfg, d));
        r
    }

    /// A new game from a configuration, dealt from the given deck.
    pub fn new_with_deck(cfg: GameCfg, deck: Deck) -> (r: Result<Game, GameError>)
        requires
            cfg.first_dealer_index < NUM_PLAYER,
            full_deck(deck@),
        ensures
            view_result(r) == new_game(cfg, deck@),
    {
        let dealer_index = cfg.first_dealer_index;
        let name0 = cfg.player_name[0].clone();
        let name1 = cfg.player_name[1].clone();
        let stack0 = cfg.starting_chip[0];
        let stack1 = cfg.starting_chip[1];
        Game::start_hand(cfg, name0, name1, stack0, stack1, dealer_index, deck)
    }
}

/// Whether seat `i` is listed.
fn seat_listed(seats: &Vec<usize>, i: usize) -> (r: bool)
    ensures
        r == seats@.contains(i),
{
    let mut k: usize = 0;
    while k < seats.len()
        invariant
            k <= seats@.len(),
            forall|j: int| 0 <= j < k ==> seats@[j] != i,
        decreases seats@.len() - k,
    {
        if seats[k] == i {
            return true;
        }
        k = k + 1;
    }
    false
}

impl Game {
    pub fn get_previous_player_index(&self) -> (i: usize)
        ensures
            i == self@.prev_index(),
    {
        if self.current_player_index != 0 {
            self.current_player_index - 1
        } else {
            NUM_PLAYER - 1
        }
    }

    pub fn get_previous_bet(&self) -> (b: usize)
        requires
            self@.wf(),
        ensures
            b == self@.previous_bet(),
    {
        self.players[self.get_previous_player_index()].bet_size
    }

    /// Passes the turn to the next player who has not folded.
    fn next_player(&mut self)
        requires
            old(self)@.players.len() == NUM_PLAYER,
            old(self).current_player_index < NUM_PLAYER,
            !old(self)@.players[other_seat(old(self).current_player_index) as int].folded,
        ensures
            final(self)@ == old(self)@.pass_turn(),
    {
        let start = self.current_player_index;
        loop
            invariant_except_break
                start == old(self).current_player_index,
                start < NUM_PLAYER,
                self@.players.len() == NUM_PLAYER,
                !self@.players[other_seat(start) as int].folded,
                self@ == old(self)@,
            ensures
                self@ == old(self)@.pass_turn(),
            decreases 1int,
        {
            self.current_player_index = (self.current_player_index + 1) % NUM_PLAYER;
            if !self.players[self.current_player_index].folded {
                break;
            }
        }
    }

    /// Sets the current player's stack and bet.
    fn set_current_chips(&mut self, stack: usize, bet_size: usize)
        requires
            old(self)@.players.len() == NUM_PLAYER,
            old(self).current_player_index < NUM_PLAYER,
        ensures
            final(self)@ == old(self)@.with_current_chips(stack, bet_size),
    {
        let i = self.current_player_index;
        let mut player = self.players[i].clone();
        player.stack = stack;
        player.bet_size = bet_size;
        self.players.set(i, player);
    }

    /// Pays the pot to the winners (evenly, the odd chip to the first winner
    /// after the dealer), moves the button, and deals the next hand from `deck`.
    fn go_to_next_game(&mut self, winners_indices: &Vec<usize>, deck: Deck) -> (r: Result<(), GameError>)
        requires
            old(self)@.players.len() == NUM_PLAYER,
            old(self).dealer_index < NUM_PLAYER,
            old(self)@.total_chips() <= usize::MAX,
            old(self)@.players[0].bet_size == 0,
            old(self)@.players[1].bet_size == 0,
            valid_winners(winners_indices@),
            full_deck(deck@),
        ensures
            applied(r, final(self)@, old(self)@.next_hand(winners_indices@, deck@)),
    {
        let ghost v = self@;
        let n = winners_indices.len();
        let share = self.pot_size / n;
        let odd_chips = self.pot_size % n;
        let left_of_dealer = (self.dealer_index + 1) % NUM_PLAYER;
        let odd_seat = if seat_listed(winners_indices, left_of_dealer) {
            left_of_dealer
        } else {
            self.dealer_index
        };
        let mut stacks: Vec<usize> = Vec::new();
        let mut index: usize = 0;
        while index < NUM_PLAYER
            invariant
                index <= NUM_PLAYER,
                self@ == v,
                v.players.len() == NUM_PLAYER,
                v.total_chips() <= usize::MAX,
                valid_winners(winners_indices@),
                n == winners_indices@.len(),
                share == v.pot_size / n,
                odd_chips == v.pot_size % n,
                odd_seat == (if winners_indices@.contains(other_seat(v.dealer_index)) {
                    other_seat(v.dealer_index)
                } else {
                    v.dealer_index
                }),
                stacks@.len() == index,
                forall|i: int| 0 <= i < index ==> #[trigger] stacks@[i] == v.players[i].stack + v.payout(winners_indices@, i as usize),
            decreases NUM_PLAYER - index,
        {
            proof {
                if winners_indices@ == seq![0usize, 1] {
                    assert(v.pot_size / 2 + v.pot_size % 2 <= v.pot_size);
                }
                assert(v.payout(winners_indices@, 0) + v.payout(winners_indices@, 1) <= v.pot_size);
            }
            let mut stack = self.players[index].stack;
            if seat_listed(winners_indices, index) {
                stack = stack + share;
                if index == odd_seat {
                    stack = stack + odd_chips;
                }
            }
            stacks.push(stack);
            index = index + 1;
        }
        let dealer_index = (self.dealer_index + 1) % NUM_PLAYER;
        let name0 = self.players[0].name.clone();
        let name1 = self.players[1].name.clone();
        let next = Game::start_hand(self.cfg.clone(), name0, name1, stacks[0], stacks[1], dealer_index, deck);
        match next {
            Ok(g) => {
                *self = g;
                Ok(())
            },
            Err(e) => Err(e),
        }
    }

    /// Settles a showdown: each player's best hand of seven cards, and the
    /// seats holding the better one (both on a tie).
    pub fn showdown(&self) -> (winners: Vec<usize>)
        requires
            self@.wf(),
            self@.community.len() == 5,
        ensures
            showdown_outcome(self@, winners@),
            valid_winners(winners@),
    {
        let community = [self.community[0], self.community[1], self.community[2], self.community[3], self.community[4]];
        assert(community@ =~= self@.community);
        let hole0 = self.players[0].hole;
        let hole1 = self.players[1].hole;
        assert(self@.players[0].hole[0].wf() && self@.players[0].hole[1].wf());
        assert(self@.players[1].hole[0].wf() && self@.players[1].hole[1].wf());
        let best0 = Hand::best_hand(hole0, community);
        let best1 = Hand::best_hand(hole1, community);
        let mut winners: Vec<usize> = Vec::new();
        match best1.cmp(&best0) {
            std::cmp::Ordering::Greater => {
                winners.push(1);
            },
            std::cmp::Ordering::Equal => {
                winners.push(0);
                winners.push(1);
            },
            std::cmp::Ordering::Less => {
                winners.push(0);
            },
        }
        assert(winners@ =~= winners_of(best0, best1));
        assert(crate::game_model::is_best_hand(best0, self@.players[0].hole@, self@.community));
        assert(crate::game_model::is_best_hand(best1, self@.players[1].hole@, self@.community));
        winners
    }
}

impl Game {
    /// Moves every bet into the pot.
    fn collect_bets(&mut self)
        requires
            old(self)@.players.len() == NUM_PLAYER,
            old(self)@.total_chips() <= usize::MAX,
        ensures
            final(self)@ == old(self)@.bets_in_pot(),
    {
        let ghost v = self@;
        let mut index: usize = 0;
        while index < NUM_PLAYER
            invariant
                index <= NUM_PLAYER,
                self@.players.len() == NUM_PLAYER,
                v.players.len() == NUM_PLAYER,
                v.total_chips() <= usize::MAX,
                self@ == (GameView {
                    pot_size: self@.pot_size,
                    players: self@.players,
                    ..v
                }),
                self@.pot_size == v.pot_size + (if index > 0 { v.players[0].bet_size as int } else { 0 }) + (
                if index > 1 { v.players[1].bet_size as int } else { 0 }),
                forall|i: int| 0 <= i < index ==> #[trigger] self@.players[i] == (Player { bet_size: 0, ..v.players[i] }),
                forall|i: int| index <= i < NUM_PLAYER ==> #[trigger] self@.players[i] == v.players[i],
            decreases NUM_PLAYER - index,
        {
            let mut player = self.players[index].clone();
            self.pot_size = self.pot_size + player.bet_size;
            player.bet_size = 0;
            self.players.set(index, player);
            index = index + 1;
        }
        assert(self@.players =~= v.bets_in_pot().players);
    }

    /// Moves `n` cards from the top of the deck to the board.
    fn deal_cards_to_community(&mut self, n: usize)
        requires
            old(self).deck.wf(),
            old(self)@.deck.len() >= n,
        ensures
            final(self).deck.wf(),
            final(self)@ == (GameView {
                community: old(self)@.community + old(self)@.deck.subrange(0, n as int).map_values(
                    |i: u8| Card::of_index(i),
                ),
                deck: old(self)@.deck.subrange(n as int, old(self)@.deck.len() as int),
                ..old(self)@
            }),
    {
        let ghost v = self@;
        let mut k: usize = 0;
        assert(v.community + v.deck.subrange(0, 0).map_values(|i: u8| Card::of_index(i)) =~= v.community);
        assert(v.deck.subrange(0, v.deck.len() as int) =~= v.deck);
        while k < n
            invariant
                k <= n,
                n <= v.deck.len(),
                self.deck.wf(),
                self@ == (GameView {
                    community: v.community + v.deck.subrange(0, k as int).map_values(|i: u8| Card::of_index(i)),
                    deck: v.deck.subrange(k as int, v.deck.len() as int),
                    ..v
                }),
            decreases n - k,
        {
            let card = self.deck.random_card();
            self.community.push(card);
            k = k + 1;
            assert(self@.community =~= v.community + v.deck.subrange(0, k as int).map_values(|i: u8| Card::of_index(i)));
            assert(self@.deck =~= v.deck.subrange(k as int, v.deck.len() as int));
        }
    }

    /// Ends the betting round: bets go to the pot, then the next round's
    /// cards are dealt, or after the river the pot goes to the showdown's
    /// `winners` and the next hand is dealt from `next_deck`. When the next
    /// hand cannot be dealt the game is left as it was.
    pub fn next_betting_round(&mut self, next_deck: Deck, winners: &Vec<usize>) -> (r: Result<(), GameError>)
        requires
            old(self)@.wf(),
            full_deck(next_deck@),
            old(self).betting_round == BettingRound::River ==> showdown_outcome(old(self)@, winners@),
        ensures
            match old(self)@.end_round(next_deck@, winners@) {
                Ok(v) => r is Ok && final(self)@ == v,
                Err(e) => r == Err::<(), GameError>(e) && final(self)@ == old(self)@,
            },
    {
        proof {
            if self.betting_round == BettingRound::River {
                let (h0, h1) = choose|h0: Hand, h1: Hand|
                    #[trigger] crate::game_model::is_best_hand(h0, self@.players[0].hole@, self@.community)
                        && #[trigger] crate::game_model::is_best_hand(h1, self@.players[1].hole@, self@.community)
                        && winners@ == winners_of(h0, h1);
                assert(valid_winners(winners@));
            }
        }
        let mut next = self.clone();
        let r = next.close_round(next_deck, winners);
        if let Ok(()) = r {
            *self = next;
        }
        r
    }

    /// Ends the betting round in place (see `next_betting_round`).
    fn close_round(&mut self, next_deck: Deck, winners: &Vec<usize>) -> (r: Result<(), GameError>)
        requires
            old(self)@.wf(),
            full_deck(next_deck@),
            old(self).betting_round == BettingRound::River ==> valid_winners(winners@),
        ensures
            applied(r, final(self)@, old(self)@.end_round(next_deck@, winners@)),
    {
        let ghost v = self@;
        self.min_raise = self.cfg.big_blind_amount;
        self.collect_bets();
        self.current_player_index = Game::get_first_player_index(false, self.dealer_index);
        self.previous_active_index = None;
        assert(self@ == v.collect_bets());
        match self.betting_round {
            BettingRound::PreFlop => self.deal_cards_to_community(3),
            BettingRound::Flop => self.deal_cards_to_community(1),
            BettingRound::Turn => self.deal_cards_to_community(1),
            BettingRound::River => {
                return self.go_to_next_game(winners, next_deck);
            },
        }
        self.betting_round.next();
        Ok(())
    }
}

impl Game {
    /// Whether the turn is back with the last aggressor.
    fn round_closed(&self) -> (r: bool)
        ensures
            r == self@.round_closed(),
    {
        match self.previous_active_index {
            Some(previous_active_index) => previous_active_index == self.current_player_index,
            None => false,
        }
    }

    /// Whether a call is open.
    fn call_open(&self) -> (r: bool)
        requires
            self@.wf(),
        ensures
            r == self@.can_call(),
    {
        !self.round_closed() && self.get_previous_bet() > self.players[self.current_player_index].bet_size
    }

    /// Whether a check is open.
    fn check_open(&self) -> (r: bool)
        requires
            self@.wf(),
        ensures
            r == self@.can_check(),
    {
        !self.round_closed() && self.get_previous_bet() == self.players[self.current_player_index].bet_size
    }

    /// Whether a bet is open: nobody has bet this round and chips are left.
    fn bet_open(&self) -> (r: bool)
        requires
            self@.wf(),
        ensures
            r == self@.can_bet(),
    {
        let current_player = &self.players[self.current_player_index];
        !self.round_closed() && self.get_previous_bet() == 0 && current_player.bet_size == 0
            && current_player.stack > 0
    }

    /// Whether a raise is open: there is a bet to raise, and chips beyond
    /// what the call takes.
    fn raise_open(&self) -> (r: bool)
        requires
            self@.wf(),
        ensures
            r == self@.can_raise(),
    {
        let previous_bet = self.get_previous_bet();
        let current_player = &self.players[self.current_player_index];
        if self.round_closed() {
            false
        } else if previous_bet > current_player.bet_size {
            previous_bet - current_player.bet_size < current_player.stack
        } else {
            previous_bet == current_player.bet_size && current_player.bet_size > 0
                && current_player.stack > 0
        }
    }

    /// The actions open to the current player; a bet or raise is listed with
    /// amount 0, its range given by `get_raise_or_bet_range`.
    pub fn get_possible_actions(&self) -> (actions: Vec<Action>)
        requires
            self@.wf(),
        ensures
            actions@ == self@.possible_actions(),
    {
        if self.round_closed() {
            // back with the last aggressor: the round is over
            return Vec::new();
        }
        let mut possible_actions: Vec<Action> = Vec::new();
        if self.call_open() {
            // a call may be all-in for less than what is owed
            possible_actions.push(Action::Call);
        }
        if self.bet_open() {
            possible_actions.push(Action::Bet(0));
        }
        if self.raise_open() {
            possible_actions.push(Action::Raise(0));
        }
        if self.check_open() {
            possible_actions.push(Action::Check);
        }
        // folding is always open
        possible_actions.push(Action::Fold);
        assert(possible_actions@ =~= self@.possible_actions());
        possible_actions
    }

    /// The chips a call would put in, or `None` when calling is not open.
    pub fn get_call_amount(&self) -> (amount: Option<usize>)
        requires
            self@.wf(),
        ensures
            amount == self@.call_amount(),
    {
        if !self.call_open() {
            return None;
        }
        let current_player = &self.players[self.current_player_index];
        let previous_bet = self.get_previous_bet();
        let owed = previous_bet - current_player.bet_size;
        let amount = if current_player.stack <= owed {
            current_player.stack
        } else {
            owed
        };
        Some(amount)
    }

    /// The amounts a bet, or a raise over the previous bet, may take, or
    /// `None` when neither is open.
    pub fn get_raise_or_bet_range(&self) -> (range: Option<RangeInclusive<usize>>)
        requires
            self@.wf(),
        ensures
            match range {
                Some(r) => self@.raise_range() == Some((r@.start, r@.end)) && !r@.exhausted,
                None => self@.raise_range() is None,
            },
    {
        if !self.bet_open() && !self.raise_open() {
            return None;
        }
        let current_player = &self.players[self.current_player_index];
        let previous_bet = self.get_previous_bet();
        let max_amount = current_player.bet_size + current_player.stack - previous_bet;
        let low = if max_amount <= self.min_raise {
            max_amount
        } else {
            self.min_raise
        };
        Some(RangeInclusive::new(low, max_amount))
    }
}

impl Game {
    fn act_call(&mut self, next_deck: Deck, winners: &Vec<usize>) -> (r: Result<(), GameError>)
        requires
            old(self)@.wf(),
            full_deck(next_deck@),
            old(self).betting_round == BettingRound::River ==> valid_winners(winners@),
        ensures
            applied(r, final(self)@, old(self)@.after_call(next_deck@, winners@)),
    {
        let ghost v = self@;
        match self.get_call_amount() {
            Some(amount) => {
                // update stack and bet size
                let stack = self.players[self.current_player_index].stack;
                let bet_size = self.players[self.current_player_index].bet_size;
                proof {
                    lemma_chips_moved_wf(v, (stack - amount) as usize, (bet_size + amount) as usize);
                }
                self.set_current_chips(stack - amount, bet_size + amount);
            },
            None => {
                return Err(GameError::CannotCall);
            },
        }
        self.next_player();
        match self.previous_active_index {
            Some(previous_active_index) => {
                if previous_active_index == self.current_player_index {
                    // back with the last to bet or raise: the round ends
                    return self.close_round(next_deck, winners);
                }
            },
            None => {
                if self.betting_round == BettingRound::PreFlop {
                    // the first call pre-flop marks the caller
                    self.previous_active_index = Some(self.get_previous_player_index());
                }
            },
        }
        Ok(())
    }

    fn bet_or_raise(&mut self, bet: bool, amount: usize) -> (r: Result<(), GameError>)
        requires
            old(self)@.wf(),
        ensures
            applied(r, final(self)@, old(self)@.after_bet_or_raise(bet, amount)),
    {
        let ghost v = self@;
        if bet && !self.bet_open() {
            return Err(GameError::CannotBet);
        }
        if !bet && !self.raise_open() {
            return Err(GameError::CannotRaise);
        }
        match self.get_raise_or_bet_range() {
            Some(raise_range) => {
                if !raise_range.contains(&amount) {
                    return if bet {
                        Err(GameError::IllegalBetAmount(amount))
                    } else {
                        Err(GameError::IllegalRaiseAmount(amount))
                    };
                }
            },
            None => {
                return Err(GameError::CannotRaise);
            },
        }
        let previous_bet = self.get_previous_bet();
        let stack = self.players[self.current_player_index].stack;
        let bet_size = self.players[self.current_player_index].bet_size;
        proof {
            lemma_chips_moved_wf(
                v,
                (stack - (previous_bet + amount - bet_size)) as usize,
                (previous_bet + amount) as usize,
            );
        }
        self.set_current_chips(stack - (previous_bet + amount - bet_size), previous_bet + amount);
        self.min_raise = amount;
        self.previous_active_index = Some(self.current_player_index);
        self.next_player();
        Ok(())
    }

    /// Passes the turn on; the round ends when it reaches the last aggressor.
    fn pass_on(&mut self, next_deck: Deck, winners: &Vec<usize>) -> (r: Result<(), GameError>)
        requires
            old(self)@.wf(),
            full_deck(next_deck@),
            old(self).betting_round == BettingRound::River ==> valid_winners(winners@),
        ensures
            applied(r, final(self)@, old(self)@.pass_on(next_deck@, winners@)),
    {
        self.next_player();
        match self.previous_active_index {
            Some(previous_active_index) => {
                if previous_active_index == self.current_player_index {
                    return self.close_round(next_deck, winners);
                }
            },
            None => {
                // nobody has bet: the player who just passed closes the round
                self.previous_active_index = Some(self.get_previous_player_index());
            },
        }
        Ok(())
    }

    fn act_check(&mut self, next_deck: Deck, winners: &Vec<usize>) -> (r: Result<(), GameError>)
        requires
            old(self)@.wf(),
            full_deck(next_deck@),
            old(self).betting_round == BettingRound::River ==> valid_winners(winners@),
        ensures
            applied(r, final(self)@, old(self)@.after_check(next_deck@, winners@)),
    {
        if self.round_closed() || self.get_previous_bet() != self.players[self.current_player_index].bet_size {
            return Err(GameError::CannotCheck);
        }
        self.pass_on(next_deck, winners)
    }

    fn act_fold(&mut self, next_deck: Deck) -> (r: Result<(), GameError>)
        requires
            old(self)@.wf(),
            full_deck(next_deck@),
        ensures
            applied(r, final(self)@, old(self)@.after_fold(next_deck@)),
    {
        let ghost v = self@;
        let mut player = self.players[self.current_player_index].clone();
        player.folded = true;
        self.players.set(self.current_player_index, player);
        let ghost folded = self@;
        // the players still in the hand
        let mut remaining_players_indices: Vec<usize> = Vec::new();
        let mut index: usize = 0;
        while index < NUM_PLAYER
            invariant
                index <= NUM_PLAYER,
                self@ == folded,
                folded.players.len() == NUM_PLAYER,
                remaining_players_indices@ == (if index > 0 && !folded.players[0].folded {
                    seq![0usize]
                } else {
                    seq![]
                }) + (if index > 1 && !folded.players[1].folded {
                    seq![1usize]
                } else {
                    seq![]
                }),
            decreases NUM_PLAYER - index,
        {
            if !self.players[index].folded {
                remaining_players_indices.push(index);
            }
            index = index + 1;
            assert(remaining_players_indices@ =~= (if index > 0 && !folded.players[0].folded {
                seq![0usize]
            } else {
                seq![]
            }) + (if index > 1 && !folded.players[1].folded {
                seq![1usize]
            } else {
                seq![]
            }));
        }
        assert(remaining_players_indices@ =~= seq![other_seat(v.current_player_index)]);
        if remaining_players_indices.len() == 1 {
            // one player left: they take the pot
            self.collect_bets();
            let ghost a = folded.bets_in_pot();
            let ghost b = v.collect_bets();
            assert(a.players[0].name == b.players[0].name && a.players[1].name == b.players[1].name);
            assert(a.players[0].stack == b.players[0].stack && a.players[1].stack == b.players[1].stack);
            assert(a.payout(remaining_players_indices@, 0) == b.payout(remaining_players_indices@, 0));
            assert(a.payout(remaining_players_indices@, 1) == b.payout(remaining_players_indices@, 1));
            return self.go_to_next_game(&remaining_players_indices, next_deck);
        }
        self.pass_on(next_deck, &remaining_players_indices)
    }

    /// The game after the current player takes `action`, a next hand being
    /// dealt from `next_deck`; the snapshot itself is left as it is.
    pub fn act_with_deck(&self, action: Action, next_deck: Deck) -> (r: Result<Game, GameError>)
        requires
            self@.wf(),
            full_deck(next_deck@),
        ensures
            exists|w: Seq<usize>| showdown_outcome(self@, w) && view_result(r) == self@.step(action, next_deck@, w),
    {
        // the showdown's outcome is settled on the river before the action
        let winners = if self.betting_round == BettingRound::River {
            self.showdown()
        } else {
            Vec::new()
        };
        let mut new_game = self.clone();
        let result = match action {
            Action::Call => new_game.act_call(next_deck, &winners),
            Action::Bet(amount) => new_game.bet_or_raise(true, amount),
            Action::Raise(amount) => new_game.bet_or_raise(false, amount),
            Action::Check => new_game.act_check(next_deck, &winners),
            Action::Fold => new_game.act_fold(next_deck),
        };
        let r = match result {
            Ok(()) => Ok(new_game),
            Err(e) => Err(e),
        };
        assert(showdown_outcome(self@, winners@) && view_result(r) == self@.step(action, next_deck@, winners@));
        r
    }

    /// The game after the current player takes `action`, or why the action
    /// is refused; a hand that ends deals the next one from a fresh deck.
    pub fn act(&self, action: Action) -> (r: Result<Game, GameError>)
        requires
            self@.wf(),
        ensures
            exists|d: Seq<u8>, w: Seq<usize>|
                full_deck(d) && showdown_outcome(self@, w) && view_result(r) == self@.step(action, d, w),
    {
        let deck = Deck::new();
        let ghost d = deck@;
        assert(full_deck(d));
        let r = self.act_with_deck(action, deck);
        let ghost w = choose|w: Seq<usize>| showdown_outcome(self@, w) && view_result(r) == self@.step(action, d, w);
        assert(full_deck(d) && showdown_outcome(self@, w) && view_result(r) == self@.step(action, d, w));
        r
    }
}

impl Game {
    /// Whether the snapshot is a valid game (the invariant every method
    /// relies on), for snapshots that come from outside.
    pub fn is_valid(&self) -> (r: bool)
        ensures
            r == self@.wf(),
    {
        if self.players.len() != NUM_PLAYER || self.dealer_index >= NUM_PLAYER
            || self.small_blind_index != self.dealer_index || self.current_player_index >= NUM_PLAYER {
            return false;
        }
        if let Some(i) = self.previous_active_index {
            if i >= NUM_PLAYER {
                return false;
            }
        }
        let mut i: usize = 0;
        while i < NUM_PLAYER
            invariant
                i <= NUM_PLAYER,
                self@.players.len() == NUM_PLAYER,
                forall|j: int| 0 <= j < i ==> !(#[trigger] self@.players[j]).folded && self@.players[j].hole[0].wf()
                    && self@.players[j].hole[1].wf(),
            decreases NUM_PLAYER - i,
        {
            let p = &self.players[i];
            if p.folded || p.hole[0].rank < 1 || p.hole[0].rank > 13 || p.hole[1].rank < 1 || p.hole[1].rank > 13 {
                return false;
            }
            i = i + 1;
        }
        let mut k: usize = 0;
        while k < self.community.len()
            invariant
                k <= self@.community.len(),
                forall|j: int| 0 <= j < k ==> (#[trigger] self@.community[j]).wf(),
            decreases self@.community.len() - k,
        {
            if self.community[k].rank < 1 || self.community[k].rank > 13 {
                return false;
            }
            k = k + 1;
        }
        let board: usize = match self.betting_round {
            BettingRound::PreFlop => 0,
            BettingRound::Flop => 3,
            BettingRound::Turn => 4,
            BettingRound::River => 5,
        };
        if self.community.len() != board {
            return false;
        }
        let order = self.deck.indices();
        let mut k: usize = 0;
        while k < order.len()
            invariant
                k <= order@.len(),
                order@ == self@.deck,
                forall|j: int| 0 <= j < k ==> #[trigger] order@[j] < crate::card::DECK_SIZE,
            decreases order@.len() - k,
        {
            if order[k] >= crate::card::DECK_SIZE {
                return false;
            }
            k = k + 1;
        }
        if order.len() < 5 - board {
            return false;
        }
        let first = &self.players[0];
        let second = &self.players[1];
        let chips = match self.pot_size.checked_add(first.stack) {
            Some(c) => c,
            None => return false,
        };
        let chips = match chips.checked_add(first.bet_size) {
            Some(c) => c,
            None => return false,
        };
        let chips = match chips.checked_add(second.stack) {
            Some(c) => c,
            None => return false,
        };
        chips.checked_add(second.bet_size).is_some()
    }
}

} // verus!
