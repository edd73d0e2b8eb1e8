use vstd::prelude::*;
use crate::player::{PlayerAct, PlayerModel, available_for};
use crate::table::{TableModel, TableError, find_seat, next_seat, find_seat_from, lemma_find_seat_from, post_amount_model,
    post_amount_fits, sum_balances, sum_total_bets, balance_of, total_bet_of, lemma_seat_sum_update};
use crate::table_act::{sit_model, leave_model, seated_fresh, start_model, start_ok, start_error, start_seats, start_positions,
    start_after_small_blind, start_after_big_blind, start_prefix, deal_holes, unmark_acted};
use crate::card::AtlasCard;
use crate::chars::{parse_unsigned, digits_value, all_digits, without_plus, is_digit};
use crate::text::{decimal, digit_char};
use crate::table_play::{action_error, act_model, act_refusal, act_ok, apply_action, after_action, set_seat, act_line,
    end_round_model, advance_model, end_round_ok, advance_ok, close_round, deal_board, open_round, street_rank};
use crate::evaluate::{evaluate_model, ranked_seats, mark_winners, best_seated_upto};
use crate::pot::{SidePotModel, strictly_increasing, seat_bet_is, is_bet_levels, pots_for, pots_total, paid_total,
    settle_model, contenders_ranked, lemma_settle_pot, lemma_pots_hold_all_bets};

verus! {

// ---------------------------------------------------------------------------
// Numbers as text
// ---------------------------------------------------------------------------

proof fn lemma_digit_char_value(d: nat)
    requires
        d < 10,
    ensures
        digit_char(d) as nat == 48 + d,
        is_digit(digit_char(d)),
{
}

proof fn lemma_decimal_digits(n: nat)
    ensures
        decimal(n).len() > 0,
        all_digits(decimal(n)),
        digits_value(decimal(n)) == n,
    decreases n,
{
    lemma_digit_char_value(n % 10);
    if n >= 10 {
        lemma_decimal_digits(n / 10);
        let d = decimal(n / 10);
        let s = decimal(n);
        assert(s == d.push(digit_char(n % 10)));
        assert(s.drop_last() =~= d);
        assert forall|i: int| 0 <= i < s.len() implies is_digit(#[trigger] s[i]) by {
            if i < d.len() {
                assert(s[i] == d[i]);
            }
        }
        assert(s.last() == digit_char(n % 10));
        assert('0' as nat == 48);
        assert(digits_value(s) == digits_value(d) * 10 + (s.last() as nat - '0' as nat) as nat);
        assert(digits_value(s) == (n / 10) * 10 + n % 10);
    } else {
        let s = decimal(n);
        assert(s.drop_last() =~= Seq::<char>::empty());
        assert(s.last() == digit_char(n));
        assert('0' as nat == 48);
        assert(digits_value(s) == digits_value(s.drop_last()) * 10 + (s.last() as nat - '0' as nat) as nat);
    }
}

/// A number printed in decimal reads back as itself.
pub proof fn lemma_parse_decimal(n: nat, max: nat)
    requires
        n <= max,
    ensures
        parse_unsigned(decimal(n), max) == Some(n),
{
    lemma_decimal_digits(n);
    assert(is_digit(decimal(n)[0]));
    assert(without_plus(decimal(n)) == decimal(n));
}

// ---------------------------------------------------------------------------
// Chips
// ---------------------------------------------------------------------------

/// Posting moves chips from a player's stack into the pot: the player's stack
/// and what they put in during the hand keep their sum, and so do all the
/// stacks and the pot.
pub proof fn lemma_post_amount_keeps_chips(m: TableModel, seat: int, amount: u64)
    requires
        post_amount_fits(m, seat, amount),
    ensures
        ({
            let m2 = post_amount_model(m, seat, amount).0;
            let p = m.seats[seat]->0;
            let q = m2.seats[seat]->0;
            &&& q.balance + q.total_bet == p.balance + p.total_bet
            &&& sum_balances(m2.seats) + m2.pot == sum_balances(m.seats) + m.pot
            &&& sum_total_bets(m2.seats) - m2.pot == sum_total_bets(m.seats) - m.pot
        }),
{
    let m2 = post_amount_model(m, seat, amount).0;
    let q = m2.seats[seat];
    lemma_seat_sum_update(m.seats, |p: PlayerModel| balance_of(p), seat, q);
    lemma_seat_sum_update(m.seats, |p: PlayerModel| total_bet_of(p), seat, q);
    assert(m2.seats == m.seats.update(seat, q));
}

/// `v` put in its place in an increasing list, unless it is there already.
spec fn insert_sorted(lv: Seq<u64>, v: u64) -> Seq<u64>
    decreases lv.len(),
{
    if lv.len() == 0 {
        seq![v]
    } else if v < lv[0] {
        seq![v] + lv
    } else if v == lv[0] {
        lv
    } else {
        seq![lv[0]] + insert_sorted(lv.drop_first(), v)
    }
}

proof fn lemma_insert_sorted(lv: Seq<u64>, v: u64)
    requires
        strictly_increasing(lv),
    ensures
        strictly_increasing(insert_sorted(lv, v)),
        forall|x: u64| #[trigger] insert_sorted(lv, v).contains(x) <==> (lv.contains(x) || x == v),
    decreases lv.len(),
{
    let r = insert_sorted(lv, v);
    if lv.len() == 0 {
        assert forall|x: u64| #[trigger] r.contains(x) <==> (lv.contains(x) || x == v) by {
            if r.contains(x) {
                let i = choose|i: int| 0 <= i < r.len() && r[i] == x;
            }
            if x == v {
                assert(r[0] == v);
            }
        }
    } else if v < lv[0] {
        assert forall|x: u64| #[trigger] r.contains(x) <==> (lv.contains(x) || x == v) by {
            if r.contains(x) {
                let i = choose|i: int| 0 <= i < r.len() && r[i] == x;
                if i > 0 {
                    assert(lv[i - 1] == x);
                }
            }
            if lv.contains(x) {
                let i = choose|i: int| 0 <= i < lv.len() && lv[i] == x;
                assert(r[i + 1] == x);
            }
            if x == v {
                assert(r[0] == v);
            }
        }
        assert forall|i: int, j: int| 0 <= i < j < r.len() implies r[i] < r[j] by {
            if i > 0 {
                assert(r[i] == lv[i - 1] && r[j] == lv[j - 1]);
            } else {
                assert(r[j] == lv[j - 1]);
                assert(lv[0] <= lv[j - 1]);
            }
        }
    } else if v == lv[0] {
        assert(lv.contains(v)) by {
            assert(lv[0] == v);
        }
    } else {
        let t = lv.drop_first();
        let rt = insert_sorted(t, v);
        assert(strictly_increasing(t)) by {
            assert forall|i: int, j: int| 0 <= i < j < t.len() implies t[i] < t[j] by {
                assert(t[i] == lv[i + 1] && t[j] == lv[j + 1]);
            }
        }
        lemma_insert_sorted(t, v);
        assert(r == seq![lv[0]] + rt);
        assert forall|x: u64| #[trigger] r.contains(x) <==> (lv.contains(x) || x == v) by {
            if r.contains(x) {
                let i = choose|i: int| 0 <= i < r.len() && r[i] == x;
                if i > 0 {
                    assert(rt[i - 1] == x);
                    assert(rt.contains(x));
                    if t.contains(x) {
                        let k = choose|k: int| 0 <= k < t.len() && t[k] == x;
                        assert(lv[k + 1] == x);
                    }
                } else {
                    assert(lv[0] == x);
                }
            }
            if lv.contains(x) {
                let i = choose|i: int| 0 <= i < lv.len() && lv[i] == x;
                if i == 0 {
                    assert(r[0] == x);
                } else {
                    assert(t[i - 1] == x);
                    assert(rt.contains(x));
                    let k = choose|k: int| 0 <= k < rt.len() && rt[k] == x;
                    assert(r[k + 1] == x);
                }
            }
            if x == v {
                assert(rt.contains(v));
                let k = choose|k: int| 0 <= k < rt.len() && rt[k] == v;
                assert(r[k + 1] == v);
            }
        }
        assert forall|i: int, j: int| 0 <= i < j < r.len() implies r[i] < r[j] by {
            if i > 0 {
                assert(r[i] == rt[i - 1] && r[j] == rt[j - 1]);
            } else {
                assert(rt.contains(r[j])) by {
                    assert(rt[j - 1] == r[j]);
                }
                if t.contains(r[j]) {
                    let k = choose|k: int| 0 <= k < t.len() && t[k] == r[j];
                    assert(lv[0] < lv[k + 1]);
                }
            }
        }
    }
}

/// Every hand has its betting levels.
pub proof fn lemma_bet_levels_exist(seats: Seq<Option<PlayerModel>>)
    ensures
        exists|lv: Seq<u64>| is_bet_levels(seats, lv),
    decreases seats.len(),
{
    if seats.len() == 0 {
        let lv: Seq<u64> = seq![];
        assert(is_bet_levels(seats, lv));
    } else {
        let s0 = seats.drop_last();
        lemma_bet_levels_exist(s0);
        let lv0 = choose|lv: Seq<u64>| is_bet_levels(s0, lv);
        let last = seats.last();
        let n = seats.len() - 1;
        if last is Some && last->0.total_bet > 0 {
            let v = last->0.total_bet;
            let lv = insert_sorted(lv0, v);
            lemma_insert_sorted(lv0, v);
            assert forall|k: int| 0 <= k < lv.len() implies #[trigger] lv[k] > 0 by {
                assert(lv.contains(lv[k]));
                if lv0.contains(lv[k]) {
                    let q = choose|q: int| 0 <= q < lv0.len() && lv0[q] == lv[k];
                }
            }
            assert forall|x: u64| x > 0 implies (lv.contains(x) <==> exists|j: int|
                0 <= j < seats.len() && #[trigger] seat_bet_is(seats[j], x)) by {
                if lv.contains(x) {
                    if x == v {
                        assert(seat_bet_is(seats[n], x));
                    } else {
                        let j = choose|j: int| 0 <= j < s0.len() && #[trigger] seat_bet_is(s0[j], x);
                        assert(seat_bet_is(seats[j], x));
                    }
                }
                if exists|j: int| 0 <= j < seats.len() && #[trigger] seat_bet_is(seats[j], x) {
                    let j = choose|j: int| 0 <= j < seats.len() && #[trigger] seat_bet_is(seats[j], x);
                    if j < n {
                        assert(seat_bet_is(s0[j], x));
                    }
                }
            }
            assert(is_bet_levels(seats, lv));
        } else {
            assert forall|x: u64| x > 0 implies (lv0.contains(x) <==> exists|j: int|
                0 <= j < seats.len() && #[trigger] seat_bet_is(seats[j], x)) by {
                if lv0.contains(x) {
                    let j = choose|j: int| 0 <= j < s0.len() && #[trigger] seat_bet_is(s0[j], x);
                    assert(seat_bet_is(seats[j], x));
                }
                if exists|j: int| 0 <= j < seats.len() && #[trigger] seat_bet_is(seats[j], x) {
                    let j = choose|j: int| 0 <= j < seats.len() && #[trigger] seat_bet_is(seats[j], x);
                    if j < n {
                        assert(seat_bet_is(s0[j], x));
                    }
                }
            }
            assert(is_bet_levels(seats, lv0));
        }
    }
}

/// The pots of a hand hold every chip the players put in.
pub proof fn lemma_pots_total_is_bets(seats: Seq<Option<PlayerModel>>)
    requires
        sum_total_bets(seats) <= u64::MAX,
    ensures
        pots_total(pots_for(seats)) == sum_total_bets(seats),
{
    lemma_bet_levels_exist(seats);
    lemma_pots_hold_all_bets(seats);
}

/// Settling pots one after the other adds to the stacks exactly the chips of
/// the pots that have a contender, and keeps who sits where with which hand
/// and what they put in.
pub proof fn lemma_settle_model_total(m: TableModel, pots: Seq<SidePotModel>)
    requires
        contenders_ranked(m.seats, pots),
        sum_balances(m.seats) + paid_total(pots) <= u64::MAX,
    ensures
        sum_balances(settle_model(m, pots).seats) == sum_balances(m.seats) + paid_total(pots),
        settle_model(m, pots).seats.len() == m.seats.len(),
        forall|j: int| 0 <= j < m.seats.len() ==> (#[trigger] settle_model(m, pots).seats[j] is Some <==> m.seats[j] is Some),
        forall|j: int| 0 <= j < m.seats.len() && m.seats[j] is Some ==> (#[trigger] settle_model(m, pots).seats[j])->0.cards_rank
            == m.seats[j]->0.cards_rank && settle_model(m, pots).seats[j]->0.id == m.seats[j]->0.id
            && settle_model(m, pots).seats[j]->0.hand_cards == m.seats[j]->0.hand_cards
            && settle_model(m, pots).seats[j]->0.total_bet == m.seats[j]->0.total_bet
            && settle_model(m, pots).seats[j]->0.is_active == m.seats[j]->0.is_active,
        settle_model(m, pots).community_cards == m.community_cards,
        settle_model(m, pots).pot == m.pot,
        settle_model(m, pots).state == m.state,
        settle_model(m, pots).deck == m.deck,
        settle_model(m, pots).street == m.street,
    decreases pots.len(),
{
    lemma_paid_total_nonneg(pots);
    if pots.len() > 0 {
        let rest = pots.drop_last();
        let last = pots.last();
        assert(contenders_ranked(m.seats, rest)) by {
            assert forall|k: int, j: int| 0 <= k < rest.len() && 0 <= j < rest[k].contenders.len() implies {
                let c = #[trigger] rest[k].contenders[j];
                &&& c < m.seats.len()
                &&& m.seats[c as int] is Some
                &&& m.seats[c as int]->0.cards_rank is Some
            } by {
                assert(rest[k] == pots[k]);
                let c = pots[k].contenders[j];
            }
        }
        lemma_paid_total_nonneg(rest);
        lemma_settle_model_total(m, rest);
        let mid = settle_model(m, rest);
        assert(contenders_ranked(mid.seats, seq![last])) by {
            assert forall|k: int, j: int| 0 <= k < 1 && 0 <= j < seq![last][k].contenders.len() implies {
                let c = #[trigger] seq![last][k].contenders[j];
                &&& c < mid.seats.len()
                &&& mid.seats[c as int] is Some
                &&& mid.seats[c as int]->0.cards_rank is Some
            } by {
                assert(seq![last][k] == pots[pots.len() - 1]);
                let c = pots[pots.len() - 1].contenders[j];
            }
        }
        lemma_settle_pot(mid, last);
    }
}

pub(crate) proof fn lemma_paid_total_nonneg(pots: Seq<SidePotModel>)
    ensures
        paid_total(pots) >= 0,
    decreases pots.len(),
{
    if pots.len() > 0 {
        lemma_paid_total_nonneg(pots.drop_last());
    }
}

pub(crate) proof fn lemma_paid_all(pots: Seq<SidePotModel>)
    requires
        forall|k: int| 0 <= k < pots.len() ==> (#[trigger] pots[k]).contenders.len() > 0,
    ensures
        paid_total(pots) == pots_total(pots),
    decreases pots.len(),
{
    if pots.len() > 0 {
        let rest = pots.drop_last();
        assert forall|k: int| 0 <= k < rest.len() implies (#[trigger] rest[k]).contenders.len() > 0 by {
            assert(rest[k] == pots[k]);
        }
        lemma_paid_all(rest);
        assert(pots[pots.len() - 1].contenders.len() > 0);
    }
}

/// Settling a hand pays out every chip put in, when every pot has a
/// contender: the stacks grow by exactly what the players put in.
pub proof fn lemma_settle_pays_every_bet(m: TableModel)
    requires
        contenders_ranked(m.seats, pots_for(m.seats)),
        forall|k: int| 0 <= k < pots_for(m.seats).len() ==> (#[trigger] pots_for(m.seats)[k]).contenders.len() > 0,
        sum_balances(m.seats) + sum_total_bets(m.seats) <= u64::MAX,
    ensures
        sum_balances(settle_model(m, pots_for(m.seats)).seats) == sum_balances(m.seats) + sum_total_bets(m.seats),
{
    crate::table::lemma_seat_sum_nonneg(m.seats, |p: PlayerModel| balance_of(p));
    lemma_pots_total_is_bets(m.seats);
    lemma_paid_all(pots_for(m.seats));
    lemma_settle_model_total(m, pots_for(m.seats));
}

// ---------------------------------------------------------------------------
// Seating
// ---------------------------------------------------------------------------

/// No player id sits in two seats.
pub open spec fn ids_unique(seats: Seq<Option<PlayerModel>>) -> bool {
    forall|i: int, j: int|
        0 <= i < j < seats.len() && seats[i] is Some && seats[j] is Some ==> #[trigger] seats[i]->0.id != #[trigger] seats[j]->0.id
}

proof fn lemma_find_after_seating(s: Seq<Option<PlayerModel>>, id: Seq<char>, seat: int, q: PlayerModel, i: int)
    requires
        0 <= i <= seat < s.len(),
        q.id == id,
        forall|k: int| i <= k < s.len() ==> !(s[k] is Some && #[trigger] s[k]->0.id == id),
    ensures
        find_seat_from(s.update(seat, Some(q)), id, i) == Some(seat),
    decreases seat - i,
{
    if i < seat {
        lemma_find_after_seating(s, id, seat, q, i + 1);
    }
}

/// A refused sit changes nothing. An accepted one leaves the player at the
/// table: in `seat` if they were not at the table before, else where they were.
pub proof fn lemma_sit_seats_player(m: TableModel, seat: int, p: PlayerModel)
    ensures
        sit_model(m, seat, p).1 is Err ==> sit_model(m, seat, p).0 == m,
        sit_model(m, seat, p).1 is Ok ==> find_seat(sit_model(m, seat, p).0.seats, p.id) is Some,
        sit_model(m, seat, p).1 is Ok && find_seat(m.seats, p.id) is None ==> find_seat(sit_model(m, seat, p).0.seats, p.id)
            == Some(seat),
        sit_model(m, seat, p).1 is Ok && find_seat(m.seats, p.id) is Some ==> sit_model(m, seat, p).0 == m,
{
    lemma_find_seat_from(m.seats, p.id, 0);
    let (m2, r) = sit_model(m, seat, p);
    if r is Ok && find_seat(m.seats, p.id) is None {
        lemma_find_after_seating(m.seats, p.id, seat, seated_fresh(p), 0);
    }
}

/// Seating keeps every player id in a single seat.
pub proof fn lemma_sit_keeps_ids_unique(m: TableModel, seat: int, p: PlayerModel)
    requires
        ids_unique(m.seats),
    ensures
        ids_unique(sit_model(m, seat, p).0.seats),
{
    lemma_find_seat_from(m.seats, p.id, 0);
    let s2 = sit_model(m, seat, p).0.seats;
    assert forall|i: int, j: int|
        0 <= i < j < s2.len() && s2[i] is Some && s2[j] is Some implies #[trigger] s2[i]->0.id != #[trigger] s2[j]->0.id by {
        if s2 != m.seats {
            if i == seat {
                assert(!(m.seats[j] is Some && m.seats[j]->0.id == p.id));
            } else if j == seat {
                assert(!(m.seats[i] is Some && m.seats[i]->0.id == p.id));
            }
        }
    }
}

/// A player who left is no longer at the table, when no id sat twice.
pub proof fn lemma_leave_removes_player(m: TableModel, id: Seq<char>)
    requires
        ids_unique(m.seats),
    ensures
        leave_model(m, id).1 is Err ==> leave_model(m, id).0 == m,
        find_seat(leave_model(m, id).0.seats, id) is None,
        ids_unique(leave_model(m, id).0.seats),
{
    lemma_find_seat_from(m.seats, id, 0);
    let s2 = leave_model(m, id).0.seats;
    lemma_find_seat_from(s2, id, 0);
    if find_seat(m.seats, id) is Some {
        let k = find_seat(m.seats, id)->0;
        if find_seat(s2, id) is Some {
            let j = find_seat(s2, id)->0;
            assert(s2[j] == m.seats[j]);
            if j < k {
                assert(!(m.seats[j] is Some && m.seats[j]->0.id == id));
            } else {
                assert(m.seats[k]->0.id != m.seats[j]->0.id);
            }
        }
    }
}

// ---------------------------------------------------------------------------
// Acting
// ---------------------------------------------------------------------------

/// An action that `act` refuses leaves the table as it was.
pub proof fn lemma_refused_act_changes_nothing(m: TableModel, id: Seq<char>, action: PlayerAct)
    requires
        act_refusal(m, id, action) is Some,
    ensures
        act_model(m, id, action).0 == m,
        act_model(m, id, action).1 == Err::<(), TableError>(act_refusal(m, id, action)->0),
{
}

/// The actions offered to the player on turn are those the betting situation
/// allows: folding always; checking and betting (a positive amount) while no
/// one has bet; calling and raising (at least to the bet) once someone has.
pub proof fn lemma_available_matches_rules(m: TableModel, seat: int, amount: u64)
    requires
        0 <= seat < m.seats.len(),
        m.seats[seat] is Some,
    ensures
        available_for(m.current_bet).fold && action_error(m, seat, PlayerAct::Fold) is None,
        available_for(m.current_bet).check <==> action_error(m, seat, PlayerAct::Check) is None,
        available_for(m.current_bet).call <==> action_error(m, seat, PlayerAct::Call) is None,
        amount > 0 ==> (available_for(m.current_bet).bet <==> action_error(m, seat, PlayerAct::Bet(amount)) is None),
        amount >= m.current_bet ==> (available_for(m.current_bet).raise <==> action_error(m, seat, PlayerAct::Raise(amount))
            is None),
{
}

// ---------------------------------------------------------------------------
// Who sits where
// ---------------------------------------------------------------------------

/// Two seatings with the same players in the same seats.
pub open spec fn same_roster(a: Seq<Option<PlayerModel>>, b: Seq<Option<PlayerModel>>) -> bool {
    &&& a.len() == b.len()
    &&& forall|j: int| 0 <= j < a.len() ==> (#[trigger] a[j] is Some <==> b[j] is Some)
    &&& forall|j: int| 0 <= j < a.len() && a[j] is Some ==> (#[trigger] a[j])->0.id == b[j]->0.id
}

proof fn lemma_roster_trans(a: Seq<Option<PlayerModel>>, b: Seq<Option<PlayerModel>>, c: Seq<Option<PlayerModel>>)
    requires
        same_roster(a, b),
        same_roster(b, c),
    ensures
        same_roster(a, c),
{
    assert forall|j: int| 0 <= j < a.len() && a[j] is Some implies (#[trigger] a[j])->0.id == c[j]->0.id by {
        assert(b[j] is Some);
    }
}

proof fn lemma_roster_update(a: Seq<Option<PlayerModel>>, seat: int, p: PlayerModel)
    requires
        0 <= seat < a.len(),
        a[seat] is Some,
        a[seat]->0.id == p.id,
    ensures
        same_roster(a, a.update(seat, Some(p))),
{
}

proof fn lemma_roster_post(m: TableModel, seat: int, amount: u64)
    requires
        0 <= seat < m.seats.len(),
        m.seats[seat] is Some,
    ensures
        same_roster(m.seats, post_amount_model(m, seat, amount).0.seats),
{
    lemma_roster_update(m.seats, seat, post_amount_model(m, seat, amount).0.seats[seat]->0);
}

proof fn lemma_roster_evaluate(m: TableModel)
    ensures
        same_roster(m.seats, evaluate_model(m).seats),
{
    let r = ranked_seats(m.seats, m.community_cards);
    let best = best_seated_upto(r, r.len() as int)->0;
    assert(same_roster(m.seats, r));
    assert(same_roster(r, mark_winners(r, best)));
    lemma_roster_trans(m.seats, r, mark_winners(r, best));
}

proof fn lemma_roster_end_round(m: TableModel)
    requires
        end_round_ok(m),
    ensures
        same_roster(m.seats, end_round_model(m).seats),
    decreases street_rank(m.street), 1nat,
{
    let c = close_round(m);
    assert(same_roster(m.seats, c.seats));
    lemma_roster_advance(c);
    lemma_roster_trans(m.seats, c.seats, advance_model(c).seats);
}

proof fn lemma_roster_advance(m: TableModel)
    requires
        advance_ok(m),
    ensures
        same_roster(m.seats, advance_model(m).seats),
    decreases street_rank(m.street), 0nat,
{
    if m.street == crate::table::TableStreet::River {
        let m1 = TableModel { state: crate::table::TableState::Concluding, ..m };
        crate::table::lemma_seat_sum_nonneg(m1.seats, |p: PlayerModel| balance_of(p));
        lemma_paid_total_nonneg(pots_for(m1.seats));
        lemma_settle_model_total(m1, pots_for(m1.seats));
    } else {
        let m1 = deal_board(m);
        let m2 = evaluate_model(m1);
        let m3 = open_round(m2);
        lemma_roster_evaluate(m1);
        if crate::table::round_complete(m3.seats) {
            lemma_roster_end_round(m3);
            lemma_roster_trans(m.seats, m3.seats, end_round_model(m3).seats);
        }
    }
}

/// Acting never changes who sits where: afterwards the same players sit in
/// the same seats.
pub proof fn lemma_act_keeps_roster(m: TableModel, id: Seq<char>, action: PlayerAct)
    requires
        act_ok(m, id, action),
    ensures
        same_roster(m.seats, act_model(m, id, action).0.seats),
{
    if act_refusal(m, id, action) is None {
        let seat = find_seat(m.seats, id)->0;
        lemma_find_seat_from(m.seats, id, 0);
        let p = m.seats[seat]->0;
        let m1 = apply_action(m, seat, action).0;
        match action {
            PlayerAct::Fold => {},
            PlayerAct::Check => {},
            PlayerAct::Call => {
                let ms = set_seat(m, seat, PlayerModel { acted_view: "call"@, ..p });
                lemma_roster_post(ms, seat, (m.current_bet - p.street_bet) as u64);
                lemma_roster_trans(m.seats, ms.seats, m1.seats);
            },
            PlayerAct::Bet(a) => {
                let ms = set_seat(m, seat, PlayerModel { acted_view: "bet"@, ..p });
                lemma_roster_post(ms, seat, a);
                lemma_roster_trans(m.seats, ms.seats, m1.seats);
            },
            PlayerAct::Raise(a) => {
                let ms = set_seat(m, seat, PlayerModel { acted_view: "raise"@, ..p });
                lemma_roster_post(ms, seat, (a - p.street_bet) as u64);
                lemma_roster_trans(m.seats, ms.seats, m1.seats);
            },
        }
        let m2 = after_action(m, seat, action);
        assert(same_roster(m1.seats, m2.seats));
        lemma_roster_trans(m.seats, m1.seats, m2.seats);
        if crate::table::round_complete(m2.seats) {
            lemma_roster_end_round(m2);
            lemma_roster_trans(m.seats, m2.seats, end_round_model(m2).seats);
        }
    }
}

/// Acting keeps every player id in a single seat.
pub proof fn lemma_act_keeps_ids_unique(m: TableModel, id: Seq<char>, action: PlayerAct)
    requires
        act_ok(m, id, action),
        ids_unique(m.seats),
    ensures
        ids_unique(act_model(m, id, action).0.seats),
{
    lemma_act_keeps_roster(m, id, action);
    let s2 = act_model(m, id, action).0.seats;
    assert forall|i: int, j: int|
        0 <= i < j < s2.len() && s2[i] is Some && s2[j] is Some implies #[trigger] s2[i]->0.id != #[trigger] s2[j]->0.id by {
        assert(m.seats[i] is Some && m.seats[j] is Some);
        assert(m.seats[i]->0.id != m.seats[j]->0.id);
    }
}

proof fn lemma_roster_deal_holes(seats: Seq<Option<PlayerModel>>, deck: Seq<AtlasCard>, n: int)
    requires
        0 <= n <= seats.len(),
    ensures
        same_roster(seats, deal_holes(seats, deck, n).0),
    decreases n,
{
    if n > 0 {
        lemma_roster_deal_holes(seats, deck, n - 1);
        let s = deal_holes(seats, deck, n - 1).0;
        let s2 = deal_holes(seats, deck, n).0;
        assert(same_roster(s, s2));
        lemma_roster_trans(seats, s, s2);
    }
}

pub(crate) proof fn lemma_start_blinds(m: TableModel)
    requires
        start_ok(m),
        start_error(m) is None,
    ensures
        start_positions(m).seats == start_seats(m.seats),
        0 <= start_positions(m).small_blind_pos < m.seats.len(),
        start_positions(m).seats[start_positions(m).small_blind_pos as int] is Some,
        0 <= start_positions(m).big_blind_pos < m.seats.len(),
        start_positions(m).seats[start_positions(m).big_blind_pos as int] is Some,
{
    let s = start_seats(m.seats);
    crate::table_utils::lemma_next_seat(s, m.dealer_pos as int, 1);
    let dealer = next_seat(s, m.dealer_pos as int)->0;
    crate::table_utils::lemma_next_seat(s, dealer, 1);
    let sb = next_seat(s, dealer)->0;
    crate::table_utils::lemma_next_seat(s, sb, 1);
}

proof fn lemma_start_prefix_roster(m: TableModel)
    requires
        start_ok(m),
        start_error(m) is None,
    ensures
        same_roster(start_seats(m.seats), start_prefix(m).seats),
{
    lemma_start_blinds(m);
    let m2 = start_positions(m);
    let sb = m2.small_blind_pos as int;
    let bb = m2.big_blind_pos as int;
    let p1 = post_amount_model(m2, sb, m2.small_blind_amount).0;
    lemma_roster_post(m2, sb, m2.small_blind_amount);
    let m3 = start_after_small_blind(m);
    assert(m3 == unmark_acted(p1, sb));
    assert(same_roster(p1.seats, m3.seats));
    lemma_roster_trans(m2.seats, p1.seats, m3.seats);
    assert(m3.seats[bb] is Some);
    let p2 = post_amount_model(m3, bb, m3.big_blind_amount).0;
    lemma_roster_post(m3, bb, m3.big_blind_amount);
    let m4 = start_after_big_blind(m);
    assert(m4 == unmark_acted(p2, bb));
    assert(same_roster(p2.seats, m4.seats));
    lemma_roster_trans(m3.seats, p2.seats, m4.seats);
    lemma_roster_trans(m2.seats, m3.seats, m4.seats);
    assert(start_prefix(m).seats == m4.seats);
}

/// The seats after `start` hold the players who did not ask to sit out, each
/// in their seat; those who asked to sit out have left.
pub open spec fn start_roster(before: Seq<Option<PlayerModel>>, after: Seq<Option<PlayerModel>>) -> bool {
    &&& after.len() == before.len()
    &&& forall|j: int| 0 <= j < before.len() ==> (#[trigger] after[j] is Some <==> before[j] is Some && !before[j]->0.sit_out)
    &&& forall|j: int| 0 <= j < before.len() && after[j] is Some ==> (#[trigger] after[j])->0.id == before[j]->0.id
}

/// Starting a hand lets go exactly the players who asked to sit out; everyone
/// else keeps their seat. No id then sits twice if none did before.
pub proof fn lemma_start_roster(m: TableModel, hand_id: Seq<char>, shuffled: Seq<AtlasCard>)
    requires
        start_ok(m),
        start_error(m) is None,
    ensures
        start_roster(m.seats, start_model(m, hand_id, shuffled).seats),
        ids_unique(m.seats) ==> ids_unique(start_model(m, hand_id, shuffled).seats),
{
    let s = start_seats(m.seats);
    let m5 = start_prefix(m);
    lemma_start_prefix_roster(m);
    lemma_roster_deal_holes(m5.seats, shuffled, m5.seats.len() as int);
    let fin = start_model(m, hand_id, shuffled);
    assert(fin.seats == deal_holes(m5.seats, shuffled, m5.seats.len() as int).0);
    lemma_roster_trans(s, m5.seats, fin.seats);
    assert forall|j: int| 0 <= j < m.seats.len() implies (#[trigger] fin.seats[j] is Some <==> m.seats[j] is Some
        && !m.seats[j]->0.sit_out) by {
        assert(s[j] is Some <==> fin.seats[j] is Some);
    }
    assert forall|j: int| 0 <= j < m.seats.len() && fin.seats[j] is Some implies (#[trigger] fin.seats[j])->0.id
        == m.seats[j]->0.id by {
        assert(s[j] is Some);
        assert(s[j]->0.id == fin.seats[j]->0.id);
    }
    if ids_unique(m.seats) {
        assert forall|i: int, j: int|
            0 <= i < j < fin.seats.len() && fin.seats[i] is Some && fin.seats[j] is Some implies #[trigger] fin.seats[i]->0.id
            != #[trigger] fin.seats[j]->0.id by {
            assert(s[i] is Some && s[j] is Some);
            assert(m.seats[i]->0.id != m.seats[j]->0.id);
        }
    }
}

// ---------------------------------------------------------------------------
// The action log
// ---------------------------------------------------------------------------

proof fn lemma_settle_keeps_log(m: TableModel, pots: Seq<SidePotModel>)
    ensures
        settle_model(m, pots).act_log == m.act_log,
    decreases pots.len(),
{
    if pots.len() > 0 {
        lemma_settle_keeps_log(m, pots.drop_last());
    }
}

proof fn lemma_end_round_keeps_log(m: TableModel)
    ensures
        end_round_model(m).act_log == m.act_log,
    decreases street_rank(m.street), 1nat,
{
    lemma_advance_keeps_log(close_round(m));
}

proof fn lemma_advance_keeps_log(m: TableModel)
    ensures
        advance_model(m).act_log == m.act_log,
    decreases street_rank(m.street), 0nat,
{
    if m.street == crate::table::TableStreet::River {
        let m1 = TableModel { state: crate::table::TableState::Concluding, ..m };
        lemma_settle_keeps_log(m1, pots_for(m1.seats));
    } else {
        let m3 = open_round(evaluate_model(deal_board(m)));
        if crate::table::round_complete(m3.seats) {
            lemma_end_round_keeps_log(m3);
        }
    }
}

/// Every accepted action adds one line to the action log, "HAND <hand id> |
/// [<nickname>] act <how they acted> "; a refused one adds nothing.
pub proof fn lemma_act_logs_each_action(m: TableModel, id: Seq<char>, action: PlayerAct)
    ensures
        act_refusal(m, id, action) is Some ==> act_model(m, id, action).0.act_log == m.act_log,
        act_refusal(m, id, action) is None ==> {
            let seat = find_seat(m.seats, id)->0;
            act_model(m, id, action).0.act_log == m.act_log.push(
                act_line(m.hand_id, apply_action(m, seat, action).0.seats[seat]->0),
            )
        },
{
    if act_refusal(m, id, action) is None {
        let seat = find_seat(m.seats, id)->0;
        let m2 = after_action(m, seat, action);
        if crate::table::round_complete(m2.seats) {
            lemma_end_round_keeps_log(m2);
        }
    }
}

} // verus!
