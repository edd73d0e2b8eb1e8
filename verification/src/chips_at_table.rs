//! Where the chips are. During a hand the chips at a table are in the
//! players' stacks and in the pot; at the showdown the pots go back to the
//! stacks.
use vstd::prelude::*;
use crate::player::{PlayerAct, PlayerModel};
use crate::table::{TableModel, TableState, TableStreet, seat_sum, seat_value, sum_balances, sum_total_bets, balance_of,
    total_bet_of, round_complete, find_seat, lemma_find_seat_from, lemma_seat_sum_nonneg, post_amount_model,
    lemma_seat_sum_update};
use crate::pot::{is_bet_levels, bet_levels, seat_bet_is, pots_for, level_pot, level_share, level_prev, contenders_upto,
    lemma_bet_levels_unique, paid_total};
use crate::table_play::{deal_board, close_round, open_round, end_round_model, advance_model, end_round_ok, advance_ok,
    street_rank, act_model, act_ok, act_refusal, apply_action, after_action, set_seat};
use crate::card::AtlasCard;
use crate::table_act::{start_model, start_ok, start_error, start_seats, start_positions, start_after_small_blind,
    start_after_big_blind, start_prefix, unmark_acted, deal_holes, sit_model, leave_model, seated_fresh};
use crate::evaluate::{evaluate_model, ranked_seats, mark_winners, best_seated_upto};
use crate::laws::{lemma_bet_levels_exist, lemma_settle_model_total, lemma_paid_total_nonneg, lemma_paid_all,
    lemma_post_amount_keeps_chips, lemma_pots_total_is_bets, lemma_start_blinds, lemma_act_keeps_roster};

verus! {

/// The chips at a table during a hand: in the stacks and in the pot.
pub open spec fn chips_at_table(m: TableModel) -> int {
    sum_balances(m.seats) + m.pot
}

/// The pot holds exactly what the seated players put in during the hand.
pub open spec fn pot_matches_bets(m: TableModel) -> bool {
    m.pot == sum_total_bets(m.seats)
}

/// The same seats are taken, and each player has the same stack and has put
/// in the same chips during the hand.
pub open spec fn keeps_stacks(a: Seq<Option<PlayerModel>>, b: Seq<Option<PlayerModel>>) -> bool {
    &&& a.len() == b.len()
    &&& forall|j: int| 0 <= j < a.len() ==> (#[trigger] a[j] is Some <==> b[j] is Some)
    &&& forall|j: int| 0 <= j < a.len() && a[j] is Some ==> (#[trigger] a[j])->0.balance == b[j]->0.balance
        && a[j]->0.total_bet == b[j]->0.total_bet
}

/// The same seats are taken, and each player has put in the same chips
/// during the hand and is in it or out of it as before.
pub open spec fn keeps_bets(a: Seq<Option<PlayerModel>>, b: Seq<Option<PlayerModel>>) -> bool {
    &&& a.len() == b.len()
    &&& forall|j: int| 0 <= j < a.len() ==> (#[trigger] a[j] is Some <==> b[j] is Some)
    &&& forall|j: int| 0 <= j < a.len() && a[j] is Some ==> (#[trigger] a[j])->0.total_bet == b[j]->0.total_bet
        && a[j]->0.is_active == b[j]->0.is_active
}

proof fn lemma_seat_sum_congr(a: Seq<Option<PlayerModel>>, b: Seq<Option<PlayerModel>>, f: spec_fn(PlayerModel) -> int)
    requires
        a.len() == b.len(),
        forall|j: int| 0 <= j < a.len() ==> #[trigger] seat_value(a[j], f) == seat_value(b[j], f),
    ensures
        seat_sum(a, f) == seat_sum(b, f),
    decreases a.len(),
{
    if a.len() > 0 {
        assert forall|j: int| 0 <= j < a.len() - 1 implies #[trigger] seat_value(a.drop_last()[j], f) == seat_value(
            b.drop_last()[j],
            f,
        ) by {
            assert(seat_value(a[j], f) == seat_value(b[j], f));
        }
        lemma_seat_sum_congr(a.drop_last(), b.drop_last(), f);
        assert(seat_value(a[a.len() - 1], f) == seat_value(b[a.len() - 1], f));
    }
}

proof fn lemma_keeps_stacks(a: Seq<Option<PlayerModel>>, b: Seq<Option<PlayerModel>>)
    requires
        keeps_stacks(a, b),
    ensures
        sum_balances(a) == sum_balances(b),
        sum_total_bets(a) == sum_total_bets(b),
{
    let f = |p: PlayerModel| balance_of(p);
    let g = |p: PlayerModel| total_bet_of(p);
    assert forall|j: int| 0 <= j < a.len() implies #[trigger] seat_value(a[j], f) == seat_value(b[j], f) && seat_value(
        a[j],
        g,
    ) == seat_value(b[j], g) by {
        assert(a[j] is Some <==> b[j] is Some);
    }
    lemma_seat_sum_congr(a, b, f);
    lemma_seat_sum_congr(a, b, g);
}

proof fn lemma_contenders_congr(a: Seq<Option<PlayerModel>>, b: Seq<Option<PlayerModel>>, level: u64, n: int)
    requires
        keeps_bets(a, b),
        n <= a.len(),
    ensures
        contenders_upto(a, level, n) == contenders_upto(b, level, n),
    decreases n,
{
    if n > 0 {
        lemma_contenders_congr(a, b, level, n - 1);
        assert(a[n - 1] is Some <==> b[n - 1] is Some);
    }
}

/// The pots of a hand depend only on what each player put in and on who is
/// still in the hand.
proof fn lemma_keeps_bets_pots(a: Seq<Option<PlayerModel>>, b: Seq<Option<PlayerModel>>)
    requires
        keeps_bets(a, b),
    ensures
        pots_for(a) == pots_for(b),
        sum_total_bets(a) == sum_total_bets(b),
{
    lemma_bet_levels_exist(a);
    let lv = bet_levels(a);
    assert(is_bet_levels(a, lv));
    assert forall|v: u64| v > 0 implies (lv.contains(v) <==> exists|j: int|
        0 <= j < b.len() && #[trigger] seat_bet_is(b[j], v)) by {
        if exists|j: int| 0 <= j < b.len() && #[trigger] seat_bet_is(b[j], v) {
            let j = choose|j: int| 0 <= j < b.len() && #[trigger] seat_bet_is(b[j], v);
            assert(seat_bet_is(a[j], v));
        }
        if lv.contains(v) {
            let j = choose|j: int| 0 <= j < a.len() && #[trigger] seat_bet_is(a[j], v);
            assert(seat_bet_is(b[j], v));
        }
    }
    assert(is_bet_levels(b, lv));
    lemma_bet_levels_unique(b, lv);
    assert forall|k: int| 0 <= k < lv.len() implies #[trigger] level_pot(a, lv, k) == level_pot(b, lv, k) by {
        let f = level_share(lv[k], level_prev(lv, k));
        assert forall|j: int| 0 <= j < a.len() implies #[trigger] seat_value(a[j], f) == seat_value(b[j], f) by {
            assert(a[j] is Some <==> b[j] is Some);
        }
        lemma_seat_sum_congr(a, b, f);
        lemma_contenders_congr(a, b, lv[k], a.len() as int);
    }
    assert(pots_for(a) =~= pots_for(b));
    let g = |p: PlayerModel| total_bet_of(p);
    assert forall|j: int| 0 <= j < a.len() implies #[trigger] seat_value(a[j], g) == seat_value(b[j], g) by {
        assert(a[j] is Some <==> b[j] is Some);
    }
    lemma_seat_sum_congr(a, b, g);
}

proof fn lemma_evaluate_stacks(m: TableModel)
    ensures
        keeps_stacks(m.seats, evaluate_model(m).seats),
{
    let r = ranked_seats(m.seats, m.community_cards);
    let best = best_seated_upto(r, r.len() as int)->0;
    assert(keeps_stacks(m.seats, r));
    assert(keeps_stacks(r, mark_winners(r, best)));
}

/// Closing a betting round keeps the pot and what the players put in. While
/// the hand goes on the stacks stay as they were; at the showdown they grow
/// by the pots that have a contender.
pub proof fn lemma_end_round_chips(m: TableModel)
    requires
        end_round_ok(m),
        m.state == TableState::Battling,
    ensures
        ({
            let r = end_round_model(m);
            &&& r.pot == m.pot
            &&& sum_total_bets(r.seats) == sum_total_bets(m.seats)
            &&& r.state == TableState::Battling ==> sum_balances(r.seats) == sum_balances(m.seats)
            &&& r.state == TableState::Battling ==> keeps_stacks(m.seats, r.seats)
            &&& r.state != TableState::Battling ==> r.state == TableState::Concluding && sum_balances(r.seats)
                == sum_balances(m.seats) + paid_total(pots_for(r.seats))
        }),
    decreases street_rank(m.street), 1nat,
{
    let c = close_round(m);
    assert(keeps_stacks(m.seats, c.seats));
    lemma_keeps_stacks(m.seats, c.seats);
    lemma_advance_chips(c);
    let r = end_round_model(m);
    if r.state == TableState::Battling {
        lemma_stacks_trans(m.seats, c.seats, r.seats);
    }
}

proof fn lemma_stacks_trans(a: Seq<Option<PlayerModel>>, b: Seq<Option<PlayerModel>>, c: Seq<Option<PlayerModel>>)
    requires
        keeps_stacks(a, b),
        keeps_stacks(b, c),
    ensures
        keeps_stacks(a, c),
{
    assert forall|j: int| 0 <= j < a.len() && a[j] is Some implies (#[trigger] a[j])->0.balance == c[j]->0.balance
        && a[j]->0.total_bet == c[j]->0.total_bet by {
        assert(b[j] is Some);
    }
}

/// Moving on to the next street keeps the pot and what the players put in;
/// the stacks stay as they were, or, at the showdown, grow by the pots that
/// have a contender.
pub proof fn lemma_advance_chips(m: TableModel)
    requires
        advance_ok(m),
        m.state == TableState::Battling,
    ensures
        ({
            let r = advance_model(m);
            &&& r.pot == m.pot
            &&& sum_total_bets(r.seats) == sum_total_bets(m.seats)
            &&& r.state == TableState::Battling ==> sum_balances(r.seats) == sum_balances(m.seats)
            &&& r.state == TableState::Battling ==> keeps_stacks(m.seats, r.seats)
            &&& r.state != TableState::Battling ==> r.state == TableState::Concluding && sum_balances(r.seats)
                == sum_balances(m.seats) + paid_total(pots_for(r.seats))
        }),
    decreases street_rank(m.street), 0nat,
{
    if m.street == TableStreet::River {
        let m1 = TableModel { state: TableState::Concluding, ..m };
        lemma_seat_sum_nonneg(m1.seats, |p: PlayerModel| balance_of(p));
        lemma_paid_total_nonneg(pots_for(m1.seats));
        lemma_settle_model_total(m1, pots_for(m1.seats));
        let r = advance_model(m);
        assert(keeps_bets(m1.seats, r.seats));
        lemma_keeps_bets_pots(m1.seats, r.seats);
    } else {
        let m1 = deal_board(m);
        let m2 = evaluate_model(m1);
        lemma_evaluate_stacks(m1);
        lemma_keeps_stacks(m1.seats, m2.seats);
        let m3 = open_round(m2);
        if round_complete(m3.seats) {
            lemma_end_round_chips(m3);
            if end_round_model(m3).state == TableState::Battling {
                lemma_stacks_trans(m1.seats, m3.seats, end_round_model(m3).seats);
            }
        }
    }
}

/// An action keeps the chips at the table. While the hand goes on, the
/// stacks and the pot hold as many chips as before. When the action ends the
/// hand, the stacks grow by the pots that have a contender, so that, if every
/// pot has one and the pot held what the players had put in, the stacks end
/// up with every chip that was at the table. A pot that holds what the
/// players put in still does afterwards.
pub proof fn lemma_act_keeps_chips(m: TableModel, id: Seq<char>, action: PlayerAct)
    requires
        act_ok(m, id, action),
    ensures
        ({
            let r = act_model(m, id, action).0;
            &&& r.state == m.state ==> chips_at_table(r) == chips_at_table(m)
            &&& pot_matches_bets(m) ==> pot_matches_bets(r)
            &&& r.state != m.state ==> r.state == TableState::Concluding && sum_balances(r.seats) + r.pot == chips_at_table(m)
                + paid_total(pots_for(r.seats))
            &&& r.state != m.state && pot_matches_bets(m) && (forall|k: int|
                0 <= k < pots_for(r.seats).len() ==> (#[trigger] pots_for(r.seats)[k]).contenders.len() > 0)
                ==> sum_balances(r.seats) == chips_at_table(m)
        }),
{
    if act_refusal(m, id, action) is None {
        let seat = find_seat(m.seats, id)->0;
        lemma_find_seat_from(m.seats, id, 0);
        let p = m.seats[seat]->0;
        let m1 = apply_action(m, seat, action).0;
        match action {
            PlayerAct::Fold => {
                assert(keeps_stacks(m.seats, m1.seats));
                lemma_keeps_stacks(m.seats, m1.seats);
            },
            PlayerAct::Check => {
                assert(keeps_stacks(m.seats, m1.seats));
                lemma_keeps_stacks(m.seats, m1.seats);
            },
            PlayerAct::Call => {
                let ms = set_seat(m, seat, PlayerModel { acted_view: "call"@, ..p });
                assert(keeps_stacks(m.seats, ms.seats));
                lemma_keeps_stacks(m.seats, ms.seats);
                lemma_post_amount_keeps_chips(ms, seat, (m.current_bet - p.street_bet) as u64);
            },
            PlayerAct::Bet(a) => {
                let ms = set_seat(m, seat, PlayerModel { acted_view: "bet"@, ..p });
                assert(keeps_stacks(m.seats, ms.seats));
                lemma_keeps_stacks(m.seats, ms.seats);
                lemma_post_amount_keeps_chips(ms, seat, a);
            },
            PlayerAct::Raise(a) => {
                let ms = set_seat(m, seat, PlayerModel { acted_view: "raise"@, ..p });
                assert(keeps_stacks(m.seats, ms.seats));
                lemma_keeps_stacks(m.seats, ms.seats);
                lemma_post_amount_keeps_chips(ms, seat, (a - p.street_bet) as u64);
            },
        }
        let m2 = after_action(m, seat, action);
        assert(keeps_stacks(m1.seats, m2.seats));
        lemma_keeps_stacks(m1.seats, m2.seats);
        assert(chips_at_table(m2) == chips_at_table(m));
        assert(sum_total_bets(m2.seats) - m2.pot == sum_total_bets(m.seats) - m.pot);
        if round_complete(m2.seats) {
            lemma_end_round_chips(m2);
            let r = act_model(m, id, action).0;
            if r.state != m.state && pot_matches_bets(m) && (forall|k: int|
                0 <= k < pots_for(r.seats).len() ==> (#[trigger] pots_for(r.seats)[k]).contenders.len() > 0) {
                lemma_paid_all(pots_for(r.seats));
                lemma_pots_total_is_bets(r.seats);
            }
        }
    }
}

proof fn lemma_seat_sum_zero(s: Seq<Option<PlayerModel>>, f: spec_fn(PlayerModel) -> int)
    requires
        forall|j: int| 0 <= j < s.len() ==> #[trigger] seat_value(s[j], f) == 0,
    ensures
        seat_sum(s, f) == 0,
    decreases s.len(),
{
    if s.len() > 0 {
        assert forall|j: int| 0 <= j < s.len() - 1 implies #[trigger] seat_value(s.drop_last()[j], f) == 0 by {
            assert(seat_value(s[j], f) == 0);
        }
        lemma_seat_sum_zero(s.drop_last(), f);
        assert(seat_value(s[s.len() - 1], f) == 0);
    }
}

proof fn lemma_deal_holes_stacks(seats: Seq<Option<PlayerModel>>, deck: Seq<AtlasCard>, n: int)
    requires
        0 <= n <= seats.len(),
    ensures
        keeps_stacks(seats, deal_holes(seats, deck, n).0),
    decreases n,
{
    if n > 0 {
        lemma_deal_holes_stacks(seats, deck, n - 1);
        let s = deal_holes(seats, deck, n - 1).0;
        let s2 = deal_holes(seats, deck, n).0;
        assert(keeps_stacks(s, s2));
    }
}

/// Each seat keeps its player, and that player's stack plus what they have
/// put in during the hand.
pub open spec fn keeps_stakes(a: Seq<Option<PlayerModel>>, b: Seq<Option<PlayerModel>>) -> bool {
    &&& a.len() == b.len()
    &&& forall|j: int| 0 <= j < a.len() ==> (#[trigger] a[j] is Some <==> b[j] is Some)
    &&& forall|j: int| 0 <= j < a.len() && a[j] is Some ==> (#[trigger] a[j])->0.id == b[j]->0.id
        && a[j]->0.balance + a[j]->0.total_bet == b[j]->0.balance + b[j]->0.total_bet
}

/// While the hand goes on, an action only moves chips between a player's
/// stack and what they put in: every player keeps their seat and the sum of
/// their stack and their bets of the hand.
pub proof fn lemma_act_keeps_stakes(m: TableModel, id: Seq<char>, action: PlayerAct)
    requires
        act_ok(m, id, action),
    ensures
        act_model(m, id, action).0.state == m.state ==> keeps_stakes(m.seats, act_model(m, id, action).0.seats),
{
    lemma_act_keeps_roster(m, id, action);
    let r = act_model(m, id, action).0;
    if act_refusal(m, id, action) is None && r.state == m.state {
        let seat = find_seat(m.seats, id)->0;
        lemma_find_seat_from(m.seats, id, 0);
        let p = m.seats[seat]->0;
        let m1 = apply_action(m, seat, action).0;
        match action {
            PlayerAct::Fold => {},
            PlayerAct::Check => {},
            PlayerAct::Call => {
                let ms = set_seat(m, seat, PlayerModel { acted_view: "call"@, ..p });
                lemma_post_amount_keeps_chips(ms, seat, (m.current_bet - p.street_bet) as u64);
            },
            PlayerAct::Bet(a) => {
                let ms = set_seat(m, seat, PlayerModel { acted_view: "bet"@, ..p });
                lemma_post_amount_keeps_chips(ms, seat, a);
            },
            PlayerAct::Raise(a) => {
                let ms = set_seat(m, seat, PlayerModel { acted_view: "raise"@, ..p });
                lemma_post_amount_keeps_chips(ms, seat, (a - p.street_bet) as u64);
            },
        }
        assert(keeps_stakes(m.seats, m1.seats));
        let m2 = after_action(m, seat, action);
        assert(keeps_stacks(m1.seats, m2.seats));
        let r2 = if round_complete(m2.seats) { end_round_model(m2) } else { m2 };
        if round_complete(m2.seats) {
            lemma_end_round_chips(m2);
        }
        assert(keeps_stacks(m2.seats, r2.seats));
        assert(r.seats == r2.seats);
        assert forall|j: int| 0 <= j < m.seats.len() && m.seats[j] is Some implies (#[trigger] m.seats[j])->0.balance
            + m.seats[j]->0.total_bet == r.seats[j]->0.balance + r.seats[j]->0.total_bet by {
            assert(m1.seats[j] is Some);
            assert(m2.seats[j] is Some);
        }
    }
}

/// Starting a hand sends away the stacks of the players who sit out and
/// clears what was put in during the last hand; the blinds then go from the
/// stacks into the pot. Afterwards the stacks and the pot hold the stacks of
/// the players who stayed, and the pot holds exactly the blinds put in.
pub proof fn lemma_start_chips(m: TableModel, hand_id: Seq<char>, shuffled: Seq<AtlasCard>)
    requires
        start_ok(m),
        start_error(m) is None,
    ensures
        chips_at_table(start_model(m, hand_id, shuffled)) == sum_balances(start_seats(m.seats)),
        pot_matches_bets(start_model(m, hand_id, shuffled)),
{
    lemma_start_blinds(m);
    let m2 = start_positions(m);
    let sb = m2.small_blind_pos as int;
    let bb = m2.big_blind_pos as int;
    lemma_seat_sum_zero(m2.seats, |p: PlayerModel| total_bet_of(p));
    assert(pot_matches_bets(m2));
    let p1 = post_amount_model(m2, sb, m2.small_blind_amount).0;
    lemma_post_amount_keeps_chips(m2, sb, m2.small_blind_amount);
    let m3 = start_after_small_blind(m);
    assert(m3 == unmark_acted(p1, sb));
    assert(keeps_stacks(p1.seats, m3.seats));
    lemma_keeps_stacks(p1.seats, m3.seats);
    assert(m3.seats[bb] is Some);
    let p2 = post_amount_model(m3, bb, m3.big_blind_amount).0;
    lemma_post_amount_keeps_chips(m3, bb, m3.big_blind_amount);
    let m4 = start_after_big_blind(m);
    assert(m4 == unmark_acted(p2, bb));
    assert(keeps_stacks(p2.seats, m4.seats));
    lemma_keeps_stacks(p2.seats, m4.seats);
    let m5 = start_prefix(m);
    assert(m5.seats == m4.seats && m5.pot == m4.pot);
    lemma_deal_holes_stacks(m5.seats, shuffled, m5.seats.len() as int);
    lemma_keeps_stacks(m5.seats, deal_holes(m5.seats, shuffled, m5.seats.len() as int).0);
}

/// A player who sits down brings their buy-in to the table and has put
/// nothing in yet; a refused request, or one from a player already seated,
/// changes nothing.
pub proof fn lemma_sit_chips(m: TableModel, seat: int, p: PlayerModel)
    ensures
        sit_model(m, seat, p).1 is Ok && find_seat(m.seats, p.id) is None ==> chips_at_table(sit_model(m, seat, p).0)
            == chips_at_table(m) + p.balance,
        sit_model(m, seat, p).1 is Err || find_seat(m.seats, p.id) is Some ==> sit_model(m, seat, p).0 == m,
        pot_matches_bets(m) ==> pot_matches_bets(sit_model(m, seat, p).0),
{
    let r = sit_model(m, seat, p).0;
    if sit_model(m, seat, p).1 is Ok && find_seat(m.seats, p.id) is None {
        let o = Some(seated_fresh(p));
        lemma_seat_sum_update(m.seats, |q: PlayerModel| balance_of(q), seat, o);
        lemma_seat_sum_update(m.seats, |q: PlayerModel| total_bet_of(q), seat, o);
        assert(r.seats == m.seats.update(seat, o));
    }
}

/// A player who leaves takes their stack with them; what they put in during
/// the hand stays in the pot.
pub proof fn lemma_leave_chips(m: TableModel, id: Seq<char>)
    ensures
        leave_model(m, id).1 is Ok ==> {
            let q = m.seats[find_seat(m.seats, id)->0]->0;
            let r = leave_model(m, id).0;
            &&& chips_at_table(r) == chips_at_table(m) - q.balance
            &&& sum_total_bets(r.seats) == sum_total_bets(m.seats) - q.total_bet
            &&& r.pot == m.pot
        },
{
    if find_seat(m.seats, id) is Some {
        let seat = find_seat(m.seats, id)->0;
        lemma_find_seat_from(m.seats, id, 0);
        let r = leave_model(m, id).0;
        lemma_seat_sum_update(m.seats, |q: PlayerModel| balance_of(q), seat, None);
        lemma_seat_sum_update(m.seats, |q: PlayerModel| total_bet_of(q), seat, None);
    }
}

} // verus!
