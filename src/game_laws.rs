use vstd::prelude::*;

use crate::card::Card;
use crate::game::{Action, BettingRound, GameCfg, GameError, NUM_PLAYER};
use crate::game_model::{
    board_size, following_round, full_deck, new_game, other_seat, start_hand, valid_winners,
    GameView,
};

verus! {

proof fn lemma_start_hand_wf(cfg: GameCfg, names: Seq<String>, stacks: Seq<usize>, dealer_index: usize, deck: Seq<u8>)
    requires
        full_deck(deck),
        dealer_index < NUM_PLAYER,
        stacks.len() == 2,
        stacks[0] + stacks[1] <= usize::MAX,
    ensures
        start_hand(cfg, names, stacks, dealer_index, deck) matches Ok(v) ==> v.wf() && v.total_chips()
            == stacks[0] + stacks[1],
{
    if let Ok(v) = start_hand(cfg, names, stacks, dealer_index, deck) {
        assert(deck[0] < 52 && deck[1] < 52 && deck[2] < 52 && deck[3] < 52);
        assert forall|i: int| 0 <= i < v.deck.len() implies #[trigger] v.deck[i] < 52 by {
            assert(v.deck[i] == deck[i + 4]);
        }
    }
}

proof fn lemma_deal_wf(v: GameView, n: int)
    requires
        v.wf(),
        v.betting_round != BettingRound::River,
        n == board_size(following_round(v.betting_round)) - board_size(v.betting_round),
    ensures
        v.deal(n).wf(),
        v.deal(n).total_chips() == v.total_chips(),
{
    let d = v.deal(n);
    assert forall|i: int| 0 <= i < d.community.len() implies (#[trigger] d.community[i]).wf() by {
        if i >= v.community.len() {
            let k = v.deck[i - v.community.len()];
            assert(k < 52);
            assert(d.community[i] == Card::of_index(k));
        }
    }
    assert forall|i: int| 0 <= i < d.deck.len() implies #[trigger] d.deck[i] < 52 by {
        assert(d.deck[i] == v.deck[i + n]);
    }
}

proof fn lemma_next_hand_wf(v: GameView, winners: Seq<usize>, deck: Seq<u8>)
    requires
        v.players.len() == 2,
        v.dealer_index < 2,
        v.players[0].bet_size == 0,
        v.players[1].bet_size == 0,
        v.total_chips() <= usize::MAX,
        valid_winners(winners),
        full_deck(deck),
    ensures
        v.next_hand(winners, deck) matches Ok(n) ==> n.wf() && n.total_chips() == v.total_chips(),
{
    lemma_payouts_add_up(v, winners);
    lemma_start_hand_wf(
        v.cfg,
        seq![v.players[0].name, v.players[1].name],
        seq![
            (v.players[0].stack + v.payout(winners, 0)) as usize,
            (v.players[1].stack + v.payout(winners, 1)) as usize,
        ],
        other_seat(v.dealer_index),
        deck,
    );
}

proof fn lemma_payouts_add_up(v: GameView, winners: Seq<usize>)
    requires
        v.dealer_index < 2,
        valid_winners(winners),
    ensures
        v.payout(winners, 0) + v.payout(winners, 1) == v.pot_size,
        winners.len() == 1 ==> v.payout(winners, winners[0]) == v.pot_size,
{
    if winners == seq![0usize, 1] {
        assert(winners[0] == 0 && winners[1] == 1);
        assert(winners.contains(0) && winners.contains(1));
        assert(v.pot_size / 2 + v.pot_size / 2 + v.pot_size % 2 == v.pot_size);
    } else if winners == seq![0usize] {
        assert(winners[0] == 0);
        assert(winners.contains(0));
        assert(!winners.contains(1));
        assert(v.pot_size / 1 == v.pot_size && v.pot_size % 1 == 0);
    } else {
        assert(winners[0] == 1);
        assert(winners.contains(1));
        assert(!winners.contains(0));
        assert(v.pot_size / 1 == v.pot_size && v.pot_size % 1 == 0);
    }
}

proof fn lemma_end_round_wf(v: GameView, deck: Seq<u8>, winners: Seq<usize>)
    requires
        v.wf(),
        full_deck(deck),
        v.betting_round == BettingRound::River ==> valid_winners(winners),
    ensures
        v.end_round(deck, winners) matches Ok(n) ==> n.wf() && n.total_chips() == v.total_chips(),
{
    let c = v.collect_bets();
    assert(c.wf());
    if v.betting_round == BettingRound::River {
        lemma_next_hand_wf(c, winners, deck);
    } else {
        lemma_deal_wf(c, board_size(following_round(v.betting_round)) - board_size(v.betting_round));
    }
}

/// Every game a configuration starts is valid, and holds the starting chips.
pub proof fn lemma_new_game_wf(cfg: GameCfg, deck: Seq<u8>)
    requires
        full_deck(deck),
        cfg.first_dealer_index < NUM_PLAYER,
        cfg.starting_chip[0] + cfg.starting_chip[1] <= usize::MAX,
    ensures
        new_game(cfg, deck) matches Ok(v) ==> v.wf() && v.total_chips() == cfg.starting_chip[0]
            + cfg.starting_chip[1],
{
    lemma_start_hand_wf(
        cfg,
        seq![cfg.player_name[0], cfg.player_name[1]],
        seq![cfg.starting_chip[0], cfg.starting_chip[1]],
        cfg.first_dealer_index,
        deck,
    );
}

/// Every accepted action keeps the game valid, and no chip is created or
/// lost: the pot, the stacks and the bets always add up to the same total.
pub proof fn lemma_step_preserves_wf(v: GameView, action: Action, deck: Seq<u8>, winners: Seq<usize>)
    requires
        v.wf(),
        full_deck(deck),
        v.betting_round == BettingRound::River ==> valid_winners(winners),
    ensures
        v.step(action, deck, winners) matches Ok(n) ==> n.wf() && n.total_chips() == v.total_chips(),
{
    let p = v.current();
    match action {
        Action::Call => {
            if let Some(amount) = v.call_amount() {
                let moved = v.with_current_chips((p.stack - amount) as usize, (p.bet_size + amount) as usize);
                crate::game_model::lemma_chips_moved_wf(v, (p.stack - amount) as usize, (p.bet_size + amount) as usize);
                let passed = moved.pass_turn();
                assert(passed.wf());
                lemma_end_round_wf(passed, deck, winners);
            }
        },
        Action::Bet(amount) | Action::Raise(amount) => {
            if let Some((low, high)) = v.raise_range() {
                let prev = v.previous_bet();
                if low <= amount <= high {
                crate::game_model::lemma_chips_moved_wf(
                    v,
                    (p.stack - (prev + amount - p.bet_size)) as usize,
                    (prev + amount) as usize,
                );
                }
            }
        },
        Action::Check => {
            lemma_end_round_wf(v.pass_turn(), deck, winners);
        },
        Action::Fold => {
            let c = v.collect_bets();
            lemma_next_hand_wf(c, seq![other_seat(v.current_player_index)], deck);
        },
    }
}

/// A fold hands the whole pot, with both players' bets, to the other player,
/// whatever the round; the next hand then starts with the button moved.
pub proof fn lemma_fold_awards_pot(v: GameView, deck: Seq<u8>)
    requires
        v.wf(),
        full_deck(deck),
    ensures
        ({
            let folder = v.current_player_index as int;
            let winner = other_seat(v.current_player_index) as int;
            v.step(Action::Fold, deck, seq![]) matches Ok(n) ==> {
                &&& n.players[winner].stack + n.players[winner].bet_size == v.players[winner].stack
                    + v.players[winner].bet_size + v.pot_size + v.players[folder].bet_size
                &&& n.players[folder].stack + n.players[folder].bet_size == v.players[folder].stack
                &&& n.pot_size == 0
                &&& n.dealer_index == other_seat(v.dealer_index)
                &&& n.betting_round == BettingRound::PreFlop
            }
        }),
{
    let c = v.collect_bets();
    let o = other_seat(v.current_player_index);
    lemma_payouts_add_up(c, seq![o]);
    assert(seq![o][0] == o);
    if o == 0 {
        assert(!seq![o].contains(1));
    } else {
        assert(!seq![o].contains(0));
    }
}

/// A call for more than the caller has is not refused: the caller puts in
/// the whole stack.
pub proof fn lemma_call_capped_at_stack(v: GameView, deck: Seq<u8>, winners: Seq<usize>)
    requires
        v.wf(),
        !v.round_closed(),
        v.previous_bet() > v.current().bet_size + v.current().stack,
    ensures
        v.call_amount() == Some(v.current().stack),
        v.step(Action::Call, deck, winners) != Err::<GameView, GameError>(GameError::CannotCall),
        v.step(Action::Call, deck, winners) == v.with_current_chips(
            0,
            (v.current().bet_size + v.current().stack) as usize,
        ).pass_turn().step_after_call(v.betting_round, deck, winners),
{
}

/// Once an action ends a betting round, the new round starts clean: nothing
/// is owed, so only a bet (with chips left), a check or a fold is open.
pub proof fn lemma_new_round_actions(v: GameView, action: Action, deck: Seq<u8>, winners: Seq<usize>)
    requires
        v.wf(),
        v.betting_round != BettingRound::River,
        v.step(action, deck, winners) matches Ok(n) && n.betting_round == following_round(v.betting_round),
    ensures
        ({
            let n = v.step(action, deck, winners)->Ok_0;
            n.possible_actions() == if n.current().stack != 0 {
                seq![Action::Bet(0), Action::Check, Action::Fold]
            } else {
                seq![Action::Check, Action::Fold]
            }
        }),
{
    let n = v.step(action, deck, winners)->Ok_0;
    assert(!n.can_call() && !n.can_raise() && n.can_check());
    if n.current().stack != 0 {
        assert(n.possible_actions() =~= seq![Action::Bet(0), Action::Check, Action::Fold]);
    } else {
        assert(n.possible_actions() =~= seq![Action::Check, Action::Fold]);
    }
}

} // verus!
