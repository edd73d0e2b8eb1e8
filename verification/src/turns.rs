//! Whose turn it is. While a hand is played, the turn is always on a player
//! who may act, and an action that is not refused always goes through.
use vstd::prelude::*;
use crate::card::AtlasCard;
use crate::player::{PlayerAct, PlayerModel};
use crate::table::{TableModel, TableState, TableStreet, seat_eligible, seat_pending, next_seat, round_complete,
    find_seat, lemma_find_seat_from, post_amount_model};
use crate::table_utils::{lemma_next_seat, lemma_next_seat_complete};
use crate::table_act::{start_model, start_ok, start_error, start_positions, start_after_big_blind, start_prefix, deal_holes,
    sit_model};
use crate::table_play::{deal_board, close_round, open_round, with_turn_after_dealer, end_round_model, advance_model,
    street_rank, act_model, act_refusal, apply_action, after_action, set_seat};
use crate::evaluate::{evaluate_model, ranked_seats, mark_winners, best_seated_upto};
use crate::laws::lemma_start_blinds;
use crate::pot::{SidePotModel, settle_model, pots_for};

verus! {

/// While a hand is played, the turn is on a seat whose player may act.
pub open spec fn turn_on_actor(m: TableModel) -> bool {
    m.state == TableState::Battling ==> 0 <= m.current_turn < m.seats.len() && seat_eligible(
        m.seats[m.current_turn as int],
    )
}

/// The same seats are taken, and each player may act exactly when they
/// could before.
pub open spec fn keeps_actors(a: Seq<Option<PlayerModel>>, b: Seq<Option<PlayerModel>>) -> bool {
    &&& a.len() == b.len()
    &&& forall|j: int| 0 <= j < a.len() ==> (#[trigger] seat_eligible(a[j]) <==> seat_eligible(b[j]))
}

/// Handing the turn on from `from`: to the next seat that may act, or, if
/// there is none, back to `from`. Where some seat may act, the turn lands on
/// one that may.
proof fn lemma_turn_lands(seats: Seq<Option<PlayerModel>>, from: int, e: int)
    requires
        0 <= from,
        0 <= e < seats.len(),
        seat_eligible(seats[e]),
    ensures
        ({
            let t = match next_seat(seats, from) {
                Some(j) => j,
                None => from,
            };
            0 <= t < seats.len() && seat_eligible(seats[t])
        }),
{
    lemma_next_seat(seats, from, 1);
    if next_seat(seats, from) is None && e != from {
        lemma_next_seat_complete(seats, from, e);
    }
}

proof fn lemma_evaluate_actors(m: TableModel)
    ensures
        keeps_actors(m.seats, evaluate_model(m).seats),
{
    let r = ranked_seats(m.seats, m.community_cards);
    let best = best_seated_upto(r, r.len() as int)->0;
    assert(keeps_actors(m.seats, r));
    assert(keeps_actors(r, mark_winners(r, best)));
}

/// A round that is not over has a player who may still act.
proof fn lemma_pending_actor(seats: Seq<Option<PlayerModel>>) -> (e: int)
    requires
        !round_complete(seats),
    ensures
        0 <= e < seats.len(),
        seat_pending(seats[e]),
        seat_eligible(seats[e]),
{
    choose|j: int| 0 <= j < seats.len() && seat_pending(#[trigger] seats[j])
}

proof fn lemma_settle_state(m: TableModel, pots: Seq<SidePotModel>)
    ensures
        settle_model(m, pots).state == m.state,
    decreases pots.len(),
{
    if pots.len() > 0 {
        lemma_settle_state(m, pots.drop_last());
    }
}

/// Closing a betting round leaves the turn on a player who may act, unless
/// the hand has ended.
pub proof fn lemma_end_round_turn(m: TableModel)
    requires
        m.seats.len() <= usize::MAX,
    ensures
        turn_on_actor(end_round_model(m)),
        end_round_model(m).state == TableState::Battling ==> end_round_model(m).seats.len() == m.seats.len(),
    decreases street_rank(m.street), 1nat,
{
    lemma_advance_turn(close_round(m));
}

/// Moving on to the next street leaves the turn on a player who may act,
/// unless the hand has ended.
pub proof fn lemma_advance_turn(m: TableModel)
    requires
        m.seats.len() <= usize::MAX,
    ensures
        turn_on_actor(advance_model(m)),
        advance_model(m).state == TableState::Battling ==> advance_model(m).seats.len() == m.seats.len(),
    decreases street_rank(m.street), 0nat,
{
    if m.street == TableStreet::River {
        let m1 = TableModel { state: TableState::Concluding, ..m };
        lemma_settle_state(m1, pots_for(m1.seats));
        assert(advance_model(m).state == TableState::Concluding);
    } else {
        let m1 = deal_board(m);
        let m2 = evaluate_model(m1);
        lemma_evaluate_actors(m1);
        let m3 = open_round(m2);
        let m4 = if round_complete(m3.seats) {
            end_round_model(m3)
        } else {
            m3
        };
        let r = advance_model(m);
        assert(r == with_turn_after_dealer(m4));
        if r.state == TableState::Battling {
            if round_complete(m3.seats) {
                lemma_end_round_turn(m3);
                lemma_turn_lands(m4.seats, m4.dealer_pos as int, m4.current_turn as int);
            } else {
                let e = lemma_pending_actor(m3.seats);
                lemma_turn_lands(m4.seats, m4.dealer_pos as int, e);
            }
        }
    }
}

/// An action that is not refused goes through: once a player has acted, a
/// player who has not is found to take the turn, or the round is closed.
/// While the hand goes on, the turn is then on a player who may act.
pub proof fn lemma_act_turn(m: TableModel, id: Seq<char>, action: PlayerAct)
    requires
        turn_on_actor(m),
        m.seats.len() <= usize::MAX,
    ensures
        act_refusal(m, id, action) is None ==> act_model(m, id, action).1 is Ok,
        turn_on_actor(act_model(m, id, action).0),
{
    if act_refusal(m, id, action) is None {
        let seat = find_seat(m.seats, id)->0;
        lemma_find_seat_from(m.seats, id, 0);
        let p = m.seats[seat]->0;
        let m1 = apply_action(m, seat, action).0;
        match action {
            PlayerAct::Fold => {},
            PlayerAct::Check => {},
            PlayerAct::Call => {
                let ms = set_seat(m, seat, PlayerModel { acted_view: "call"@, ..p });
                assert(m1 == post_amount_model(ms, seat, (m.current_bet - p.street_bet) as u64).0);
            },
            PlayerAct::Bet(a) => {
                let ms = set_seat(m, seat, PlayerModel { acted_view: "bet"@, ..p });
                assert(m1 == post_amount_model(ms, seat, a).0);
            },
            PlayerAct::Raise(a) => {
                let ms = set_seat(m, seat, PlayerModel { acted_view: "raise"@, ..p });
                assert(m1 == post_amount_model(ms, seat, (a - p.street_bet) as u64).0);
            },
        }
        assert(m1.seats.len() == m.seats.len());
        assert(!seat_pending(m1.seats[seat]));
        let m2 = after_action(m, seat, action);
        assert(m2.seats.len() == m.seats.len());
        assert(!seat_pending(m2.seats[seat]));
        if round_complete(m2.seats) {
            lemma_end_round_turn(m2);
        } else {
            let e = lemma_pending_actor(m2.seats);
            lemma_next_seat_complete(m2.seats, seat, e);
            lemma_next_seat(m2.seats, seat, 1);
        }
    }
}

proof fn lemma_deal_holes_actors(seats: Seq<Option<PlayerModel>>, deck: Seq<AtlasCard>, n: int)
    requires
        0 <= n <= seats.len(),
    ensures
        keeps_actors(seats, deal_holes(seats, deck, n).0),
    decreases n,
{
    if n > 0 {
        lemma_deal_holes_actors(seats, deck, n - 1);
        let s = deal_holes(seats, deck, n - 1).0;
        let s2 = deal_holes(seats, deck, n).0;
        assert(keeps_actors(s, s2));
    }
}

/// A new hand starts with the turn on a player who may act: the first one
/// after the big blind.
pub proof fn lemma_start_turn(m: TableModel, hand_id: Seq<char>, shuffled: Seq<AtlasCard>)
    requires
        start_ok(m),
        start_error(m) is None,
        m.seats.len() <= usize::MAX,
    ensures
        turn_on_actor(start_model(m, hand_id, shuffled)),
{
    lemma_start_blinds(m);
    let m4 = start_after_big_blind(m);
    let bb = start_positions(m).big_blind_pos as int;
    lemma_next_seat(m4.seats, bb, 1);
    let m5 = start_prefix(m);
    assert(m5.seats == m4.seats);
    lemma_deal_holes_actors(m5.seats, shuffled, m5.seats.len() as int);
    let fin = start_model(m, hand_id, shuffled);
    assert(seat_eligible(m5.seats[fin.current_turn as int]));
}

/// A player sitting down takes an empty seat, so the turn stays where it was.
pub proof fn lemma_sit_turn(m: TableModel, seat: int, p: PlayerModel)
    requires
        turn_on_actor(m),
    ensures
        turn_on_actor(sit_model(m, seat, p).0),
{
}

} // verus!
