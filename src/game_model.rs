use vstd::prelude::*;

use crate::card::{index_range, Card, DECK_SIZE};
use crate::game::{Action, BettingRound, GameCfg, GameError, Player};
use crate::hand::{beaten_by_none_of, hand_order, is_selection, made_of_five, seven_cards, Hand};

verus! {

/// The state of a game as plain values.
pub struct GameView {
    pub cfg: GameCfg,
    pub deck: Seq<u8>,
    pub players: Seq<Player>,
    pub community: Seq<Card>,
    pub dealer_index: usize,
    pub small_blind_index: usize,
    pub betting_round: BettingRound,
    pub pot_size: usize,
    pub min_raise: usize,
    pub current_player_index: usize,
    pub previous_active_index: Option<usize>,
}

/// How many community cards lie on the board in each round.
pub open spec fn board_size(r: BettingRound) -> nat {
    match r {
        BettingRound::PreFlop => 0,
        BettingRound::Flop => 3,
        BettingRound::Turn => 4,
        BettingRound::River => 5,
    }
}

pub open spec fn following_round(r: BettingRound) -> BettingRound {
    match r {
        BettingRound::PreFlop => BettingRound::Flop,
        BettingRound::Flop => BettingRound::Turn,
        BettingRound::Turn => BettingRound::River,
        BettingRound::River => BettingRound::PreFlop,
    }
}

/// The seat after `i` at a table of two.
pub open spec fn other_seat(i: usize) -> usize {
    ((i + 1) % 2) as usize
}

pub open spec fn min_usize(a: usize, b: usize) -> usize {
    if a <= b {
        a
    } else {
        b
    }
}

/// The blind that seat `i` owes.
pub open spec fn blind_for(i: usize, sb_index: usize, sb: usize, bb_index: usize, bb: usize) -> usize {
    if i == sb_index {
        sb
    } else if i == bb_index {
        bb
    } else {
        0
    }
}

/// Every chip on the table: the pot, the stacks and the bets in front of the players.
pub open spec fn chips_of(players: Seq<Player>, pot: usize) -> int {
    pot + players[0].stack + players[0].bet_size + players[1].stack + players[1].bet_size
}

/// Two players, each of whom can pay the blind of their seat.
pub open spec fn post_blinds(
    players: Seq<Player>,
    sb_index: usize,
    sb: usize,
    bb_index: usize,
    bb: usize,
) -> Result<Seq<Player>, GameError> {
    let b0 = blind_for(0, sb_index, sb, bb_index, bb);
    let b1 = blind_for(1, sb_index, sb, bb_index, bb);
    if b0 > players[0].stack {
        Err(GameError::BlindNotCovered(0))
    } else if b1 > players[1].stack {
        Err(GameError::BlindNotCovered(1))
    } else {
        Ok(
            seq![
                Player { stack: (players[0].stack - b0) as usize, bet_size: b0, ..players[0] },
                Player { stack: (players[1].stack - b1) as usize, bet_size: b1, ..players[1] },
            ],
        )
    }
}

/// A new hand: hole cards dealt from the top of `deck` (two to seat 0, then
/// two to seat 1), blinds posted with the dealer on the small blind, and the
/// dealer first to act.
pub open spec fn start_hand(
    cfg: GameCfg,
    names: Seq<String>,
    stacks: Seq<usize>,
    dealer_index: usize,
    deck: Seq<u8>,
) -> Result<GameView, GameError> {
    let seated = seq![
        Player {
            name: names[0],
            hole: [Card::of_index(deck[0]), Card::of_index(deck[1])],
            stack: stacks[0],
            bet_size: 0,
            folded: false,
        },
        Player {
            name: names[1],
            hole: [Card::of_index(deck[2]), Card::of_index(deck[3])],
            stack: stacks[1],
            bet_size: 0,
            folded: false,
        },
    ];
    match post_blinds(
        seated,
        dealer_index,
        cfg.small_blind_amount,
        other_seat(dealer_index),
        cfg.big_blind_amount,
    ) {
        Err(e) => Err(e),
        Ok(players) => Ok(
            GameView {
                cfg,
                deck: deck.subrange(4, deck.len() as int),
                players,
                community: seq![],
                dealer_index,
                small_blind_index: dealer_index,
                betting_round: BettingRound::PreFlop,
                pot_size: 0,
                min_raise: cfg.big_blind_amount,
                current_player_index: dealer_index,
                previous_active_index: None,
            },
        ),
    }
}

/// A fresh, complete deck: the 52 card indices in some order.
pub open spec fn full_deck(d: Seq<u8>) -> bool {
    &&& d.len() == DECK_SIZE
    &&& forall|i: int| 0 <= i < d.len() ==> #[trigger] d[i] < DECK_SIZE
    &&& d.to_multiset() == index_range(DECK_SIZE as nat).to_multiset()
}

/// The first game of a configuration, dealt from `deck`.
pub open spec fn new_game(cfg: GameCfg, deck: Seq<u8>) -> Result<GameView, GameError> {
    start_hand(
        cfg,
        seq![cfg.player_name[0], cfg.player_name[1]],
        seq![cfg.starting_chip[0], cfg.starting_chip[1]],
        cfg.first_dealer_index,
        deck,
    )
}

/// A showdown's winners: one seat, or both when their hands tie.
pub open spec fn valid_winners(w: Seq<usize>) -> bool {
    w == seq![0usize] || w == seq![1usize] || w == seq![0usize, 1]
}

/// A step's result matched against what was expected of it.
pub open spec fn applied(r: Result<(), GameError>, after: GameView, expected: Result<GameView, GameError>) -> bool {
    match expected {
        Ok(v) => r is Ok && after == v,
        Err(e) => r == Err::<(), GameError>(e),
    }
}

/// Whether `w` lists the winners of the showdown: the seats whose best hand
/// is not beaten by the other seat's best hand, in seat order.
pub open spec fn showdown_outcome(v: GameView, w: Seq<usize>) -> bool {
    v.community.len() == 5 ==> exists|h0: Hand, h1: Hand|
        #[trigger] is_best_hand(h0, v.players[0].hole@, v.community) && #[trigger] is_best_hand(
            h1,
            v.players[1].hole@,
            v.community,
        ) && w == winners_of(h0, h1)
}

/// `h` is a best hand of the seven cards: made of five of them, and no other
/// five of them make a better one.
pub open spec fn is_best_hand(h: Hand, hole: Seq<Card>, community: Seq<Card>) -> bool {
    &&& h.wf()
    &&& made_of_five(h, seven_cards(hole, community))
    &&& forall|sel: Seq<usize>|
        is_selection(sel, 7, 5) ==> #[trigger] beaten_by_none_of(sel, seven_cards(hole, community), h)
}

/// The seats holding the better hand, both when they tie.
pub open spec fn winners_of(h0: Hand, h1: Hand) -> Seq<usize> {
    match hand_order(h1, h0) {
        std::cmp::Ordering::Greater => seq![1usize],
        std::cmp::Ordering::Equal => seq![0usize, 1],
        std::cmp::Ordering::Less => seq![0usize],
    }
}

impl GameView {
    pub open spec fn prev_index(self) -> usize {
        if self.current_player_index != 0 {
            (self.current_player_index - 1) as usize
        } else {
            1
        }
    }

    /// What the player before the current one has bet this round.
    pub open spec fn previous_bet(self) -> usize {
        self.players[self.prev_index() as int].bet_size
    }

    pub open spec fn current(self) -> Player {
        self.players[self.current_player_index as int]
    }

    /// The turn is back with the last aggressor: the round is over.
    pub open spec fn round_closed(self) -> bool {
        self.previous_active_index == Some(self.current_player_index)
    }

    pub open spec fn total_chips(self) -> int {
        chips_of(self.players, self.pot_size)
    }

    /// The invariant of every game: two seated, unfolded players with valid
    /// cards, a board that matches the round, cards enough in the deck to
    /// finish the hand, and a chip count that fits in a `usize`.
    pub open spec fn wf(self) -> bool {
        &&& self.players.len() == 2
        &&& self.dealer_index < 2
        &&& self.small_blind_index == self.dealer_index
        &&& self.current_player_index < 2
        &&& (self.previous_active_index matches Some(i) ==> i < 2)
        &&& forall|i: int| 0 <= i < 2 ==> !(#[trigger] self.players[i]).folded
        &&& forall|i: int| 0 <= i < 2 ==> (#[trigger] self.players[i]).hole[0].wf()
        &&& forall|i: int| 0 <= i < 2 ==> (#[trigger] self.players[i]).hole[1].wf()
        &&& forall|i: int| 0 <= i < self.community.len() ==> (#[trigger] self.community[i]).wf()
        &&& self.community.len() == board_size(self.betting_round)
        &&& forall|i: int| 0 <= i < self.deck.len() ==> #[trigger] self.deck[i] < DECK_SIZE
        &&& self.deck.len() + self.community.len() >= 5
        &&& self.total_chips() <= usize::MAX
    }

    /// A call is open when the previous player has bet more.
    pub open spec fn can_call(self) -> bool {
        !self.round_closed() && self.previous_bet() > self.current().bet_size
    }

    /// A check is open when nothing is owed.
    pub open spec fn can_check(self) -> bool {
        !self.round_closed() && self.previous_bet() == self.current().bet_size
    }

    /// A bet is open when nobody has bet this round and the player has chips.
    pub open spec fn can_bet(self) -> bool {
        &&& !self.round_closed()
        &&& self.previous_bet() == 0
        &&& self.current().bet_size == 0
        &&& self.current().stack > 0
    }

    /// A raise is open when there is a bet to raise and the player has chips
    /// beyond what the call takes.
    pub open spec fn can_raise(self) -> bool {
        let prev = self.previous_bet();
        let p = self.current();
        &&& !self.round_closed()
        &&& ((prev > p.bet_size && prev - p.bet_size < p.stack) || (prev == p.bet_size && p.bet_size
            > 0 && p.stack > 0))
    }

    /// The actions open to the current player, in the order call, bet, raise,
    /// check, fold (a bet or raise is listed with amount 0; its range is
    /// `raise_range`). Fold is open until the round is over.
    pub open spec fn possible_actions(self) -> Seq<Action> {
        if self.round_closed() {
            seq![]
        } else {
            (if self.can_call() { seq![Action::Call] } else { seq![] }) + (if self.can_bet() {
                seq![Action::Bet(0)]
            } else {
                seq![]
            }) + (if self.can_raise() { seq![Action::Raise(0)] } else { seq![] }) + (if self.can_check() {
                seq![Action::Check]
            } else {
                seq![]
            }) + seq![Action::Fold]
        }
    }

    /// The chips a call puts in: what is owed, or the whole stack if that is less.
    pub open spec fn call_amount(self) -> Option<usize> {
        let prev = self.previous_bet();
        let p = self.current();
        if self.can_call() {
            Some(min_usize(p.stack, (prev - p.bet_size) as usize))
        } else {
            None
        }
    }

    pub open spec fn can_raise_or_bet(self) -> bool {
        self.can_bet() || self.can_raise()
    }

    /// The amounts a bet, or a raise over the previous bet, may take.
    pub open spec fn raise_range(self) -> Option<(usize, usize)> {
        let prev = self.previous_bet();
        let p = self.current();
        if self.can_raise_or_bet() {
            let max_amount = (p.bet_size + p.stack - prev) as usize;
            Some((min_usize(max_amount, self.min_raise), max_amount))
        } else {
            None
        }
    }

    /// The current player's stack and bet replaced.
    pub open spec fn with_current_chips(self, stack: usize, bet_size: usize) -> GameView {
        GameView {
            players: self.players.update(
                self.current_player_index as int,
                Player { stack, bet_size, ..self.current() },
            ),
            ..self
        }
    }

    /// The turn passed to the next player.
    pub open spec fn pass_turn(self) -> GameView {
        GameView { current_player_index: other_seat(self.current_player_index), ..self }
    }

    /// Every bet moved into the pot.
    pub open spec fn bets_in_pot(self) -> GameView {
        GameView {
            pot_size: (self.pot_size + self.players[0].bet_size + self.players[1].bet_size) as usize,
            players: seq![
                Player { bet_size: 0, ..self.players[0] },
                Player { bet_size: 0, ..self.players[1] },
            ],
            ..self
        }
    }

    /// Bets moved into the pot and the round's markers reset, the player
    /// after the dealer to act.
    pub open spec fn collect_bets(self) -> GameView {
        GameView {
            min_raise: self.cfg.big_blind_amount,
            current_player_index: other_seat(self.dealer_index),
            previous_active_index: None,
            ..self.bets_in_pot()
        }
    }

    /// `n` cards moved from the top of the deck to the board.
    pub open spec fn deal(self, n: int) -> GameView {
        GameView {
            community: self.community + self.deck.subrange(0, n).map_values(|i: u8| Card::of_index(i)),
            deck: self.deck.subrange(n, self.deck.len() as int),
            betting_round: following_round(self.betting_round),
            ..self
        }
    }

    /// Chips that seat `i` wins: an even share of the pot, and the odd chip
    /// to the first winner after the dealer.
    pub open spec fn payout(self, winners: Seq<usize>, i: usize) -> usize {
        if winners.contains(i) {
            let n = winners.len() as usize;
            let share = self.pot_size / n;
            let odd_seat = if winners.contains(other_seat(self.dealer_index)) {
                other_seat(self.dealer_index)
            } else {
                self.dealer_index
            };
            if i == odd_seat {
                (share + self.pot_size % n) as usize
            } else {
                share as usize
            }
        } else {
            0
        }
    }

    /// The pot paid to the winners, the button moved, and the next hand
    /// dealt from `deck`.
    pub open spec fn next_hand(self, winners: Seq<usize>, deck: Seq<u8>) -> Result<GameView, GameError> {
        start_hand(
            self.cfg,
            seq![self.players[0].name, self.players[1].name],
            seq![
                (self.players[0].stack + self.payout(winners, 0)) as usize,
                (self.players[1].stack + self.payout(winners, 1)) as usize,
            ],
            other_seat(self.dealer_index),
            deck,
        )
    }

    /// The end of a betting round: bets collected, then the next round's cards,
    /// or after the river the showdown and the next hand.
    pub open spec fn end_round(self, deck: Seq<u8>, winners: Seq<usize>) -> Result<GameView, GameError> {
        let c = self.collect_bets();
        match self.betting_round {
            BettingRound::PreFlop => Ok(c.deal(3)),
            BettingRound::Flop => Ok(c.deal(1)),
            BettingRound::Turn => Ok(c.deal(1)),
            BettingRound::River => c.next_hand(winners, deck),
        }
    }

    pub open spec fn after_call(self, deck: Seq<u8>, winners: Seq<usize>) -> Result<GameView, GameError> {
        match self.call_amount() {
            None => Err(GameError::CannotCall),
            Some(amount) => {
                let p = self.current();
                self.with_current_chips(
                    (p.stack - amount) as usize,
                    (p.bet_size + amount) as usize,
                ).pass_turn().step_after_call(self.betting_round, deck, winners)
            },
        }
    }

    /// After a call's chips have moved and the turn has passed: the round
    /// ends back at the last aggressor; a first call pre-flop marks the caller.
    pub open spec fn step_after_call(self, round: BettingRound, deck: Seq<u8>, winners: Seq<usize>) -> Result<GameView, GameError> {
        match self.previous_active_index {
            Some(a) => if a == self.current_player_index {
                self.end_round(deck, winners)
            } else {
                Ok(self)
            },
            None => if round == BettingRound::PreFlop {
                Ok(GameView { previous_active_index: Some(self.prev_index()), ..self })
            } else {
                Ok(self)
            },
        }
    }

    /// A bet needs the round unopened, a raise a bet to raise; then the
    /// amount must lie in `raise_range`.
    pub open spec fn after_bet_or_raise(self, bet: bool, amount: usize) -> Result<GameView, GameError> {
        if bet && !self.can_bet() {
            Err(GameError::CannotBet)
        } else if !bet && !self.can_raise() {
            Err(GameError::CannotRaise)
        } else {
            self.bet_or_raise_in_range(bet, amount)
        }
    }

    pub open spec fn bet_or_raise_in_range(self, bet: bool, amount: usize) -> Result<GameView, GameError> {
        match self.raise_range() {
            None => Err(GameError::CannotRaise),
            Some((low, high)) => if amount < low || amount > high {
                if bet {
                    Err(GameError::IllegalBetAmount(amount))
                } else {
                    Err(GameError::IllegalRaiseAmount(amount))
                }
            } else {
                let prev = self.previous_bet();
                let p = self.current();
                Ok(
                    GameView {
                        min_raise: amount,
                        previous_active_index: Some(self.current_player_index),
                        ..self.with_current_chips(
                            (p.stack - (prev + amount - p.bet_size)) as usize,
                            (prev + amount) as usize,
                        )
                    }.pass_turn(),
                )
            },
        }
    }

    /// The turn passed on without chips moving; the round ends when it
    /// reaches the last aggressor.
    pub open spec fn pass_on(self, deck: Seq<u8>, winners: Seq<usize>) -> Result<GameView, GameError> {
        let moved = self.pass_turn();
        match moved.previous_active_index {
            Some(a) => if a == moved.current_player_index {
                moved.end_round(deck, winners)
            } else {
                Ok(moved)
            },
            None => Ok(GameView { previous_active_index: Some(moved.prev_index()), ..moved }),
        }
    }

    pub open spec fn after_check(self, deck: Seq<u8>, winners: Seq<usize>) -> Result<GameView, GameError> {
        if self.round_closed() || self.previous_bet() != self.current().bet_size {
            Err(GameError::CannotCheck)
        } else {
            self.pass_on(deck, winners)
        }
    }

    /// A fold leaves one player, who takes the pot and every bet.
    pub open spec fn after_fold(self, deck: Seq<u8>) -> Result<GameView, GameError> {
        self.collect_bets().next_hand(seq![other_seat(self.current_player_index)], deck)
    }

    /// The game after the current player takes `action`; `deck` is the
    /// shuffled deck for a next hand, `winners` the showdown's outcome.
    pub open spec fn step(self, action: Action, deck: Seq<u8>, winners: Seq<usize>) -> Result<GameView, GameError> {
        match action {
            Action::Call => self.after_call(deck, winners),
            Action::Bet(amount) => self.after_bet_or_raise(true, amount),
            Action::Raise(amount) => self.after_bet_or_raise(false, amount),
            Action::Check => self.after_check(deck, winners),
            Action::Fold => self.after_fold(deck),
        }
    }
}

/// Chips moved between the current player's stack and bet keep the game valid.
pub proof fn lemma_chips_moved_wf(v: GameView, stack: usize, bet_size: usize)
    requires
        v.wf(),
        stack + bet_size == v.current().stack + v.current().bet_size,
    ensures
        v.with_current_chips(stack, bet_size).wf(),
        v.with_current_chips(stack, bet_size).total_chips() == v.total_chips(),
{
    let w = v.with_current_chips(stack, bet_size);
    assert forall|i: int| 0 <= i < 2 implies #[trigger] w.players[i].hole == v.players[i].hole
        && w.players[i].folded == v.players[i].folded by {}
}

} // verus!
