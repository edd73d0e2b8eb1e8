//! Rules of play: how hands are compared, what a bet asks of the others,
//! what a new hand starts from, which cards a hand is ranked on, and what
//! a player's view reports.
use vstd::prelude::*;
use crate::card::AtlasCard;
use crate::rank::{HandRank, rank_le, rank_max, hand_rank_of, lemma_rank_order};
use crate::player::{PlayerAct, PlayerModel};
use crate::table::{TableModel, seat_active, seat_eligible, seat_pending, count_active, round_complete, find_seat,
    lemma_find_seat_from, post_amount_model};
use crate::table_act::{start_model, start_ok, start_error, start_positions, start_after_small_blind, start_after_big_blind,
    start_prefix, deal_holes};
use crate::table_play::{act_model, act_ok, act_refusal, after_action, set_seat};
use crate::evaluate::{evaluate_model, ranked_seats, best_seated_upto, flatten_cards, codes_of};
use crate::laws::lemma_start_blinds;
use crate::pot::{SidePotModel, seat_rank, best_rank_upto, winners_upto, credit_winners, settle_pot_model, contenders_ranked};

verus! {

// ---------------------------------------------------------------------------
// Comparing hands
// ---------------------------------------------------------------------------

/// Hands compare by poker's categories, from the weakest: high card, one
/// pair, two pairs, three of a kind, straight, flush, full house, four of a
/// kind, straight flush. A hand of a higher category beats every hand of a
/// lower one, whatever their strengths; within a category the greater
/// strength wins.
pub proof fn lemma_categories_ordered(a: u32, b: u32)
    ensures
        rank_le(HandRank::HighCard(a), HandRank::OnePair(b)) && !rank_le(HandRank::OnePair(b), HandRank::HighCard(a)),
        rank_le(HandRank::OnePair(a), HandRank::TwoPair(b)) && !rank_le(HandRank::TwoPair(b), HandRank::OnePair(a)),
        rank_le(HandRank::TwoPair(a), HandRank::ThreeOfAKind(b)) && !rank_le(HandRank::ThreeOfAKind(b), HandRank::TwoPair(a)),
        rank_le(HandRank::ThreeOfAKind(a), HandRank::Straight(b)) && !rank_le(
            HandRank::Straight(b),
            HandRank::ThreeOfAKind(a),
        ),
        rank_le(HandRank::Straight(a), HandRank::Flush(b)) && !rank_le(HandRank::Flush(b), HandRank::Straight(a)),
        rank_le(HandRank::Flush(a), HandRank::FullHouse(b)) && !rank_le(HandRank::FullHouse(b), HandRank::Flush(a)),
        rank_le(HandRank::FullHouse(a), HandRank::FourOfAKind(b)) && !rank_le(HandRank::FourOfAKind(b), HandRank::FullHouse(a)),
        rank_le(HandRank::FourOfAKind(a), HandRank::StraightFlush(b)) && !rank_le(
            HandRank::StraightFlush(b),
            HandRank::FourOfAKind(a),
        ),
        rank_le(HandRank::HighCard(a), HandRank::HighCard(b)) <==> a <= b,
        rank_le(HandRank::OnePair(a), HandRank::OnePair(b)) <==> a <= b,
        rank_le(HandRank::TwoPair(a), HandRank::TwoPair(b)) <==> a <= b,
        rank_le(HandRank::ThreeOfAKind(a), HandRank::ThreeOfAKind(b)) <==> a <= b,
        rank_le(HandRank::Straight(a), HandRank::Straight(b)) <==> a <= b,
        rank_le(HandRank::Flush(a), HandRank::Flush(b)) <==> a <= b,
        rank_le(HandRank::FullHouse(a), HandRank::FullHouse(b)) <==> a <= b,
        rank_le(HandRank::FourOfAKind(a), HandRank::FourOfAKind(b)) <==> a <= b,
        rank_le(HandRank::StraightFlush(a), HandRank::StraightFlush(b)) <==> a <= b,
{
}

// ---------------------------------------------------------------------------
// A bet reopens the round
// ---------------------------------------------------------------------------

proof fn lemma_two_active(s: Seq<Option<PlayerModel>>, i: int, j: int)
    requires
        0 <= i < s.len(),
        0 <= j < s.len(),
        i != j,
        seat_active(s[i]),
        seat_active(s[j]),
    ensures
        count_active(s) >= 2,
    decreases s.len(),
{
    let n = s.len() - 1;
    if i == n || j == n {
        let k = if i == n { j } else { i };
        lemma_one_active(s.drop_last(), k);
    } else {
        lemma_two_active(s.drop_last(), i, j);
    }
}

proof fn lemma_one_active(s: Seq<Option<PlayerModel>>, i: int)
    requires
        0 <= i < s.len(),
        seat_active(s[i]),
    ensures
        count_active(s) >= 1,
    decreases s.len(),
{
    if i < s.len() - 1 {
        lemma_one_active(s.drop_last(), i);
    }
}

/// A bet that is accepted, by a player with chips, reopens the betting:
/// every other player then has to act again, the bettor has acted, and
/// while another player may still act the round stays open, on the same
/// street.
pub proof fn lemma_bet_reopens_round(m: TableModel, id: Seq<char>, a: u64, other: int)
    requires
        act_ok(m, id, PlayerAct::Bet(a)),
        act_refusal(m, id, PlayerAct::Bet(a)) is None,
        m.seats[find_seat(m.seats, id)->0]->0.balance > 0,
        0 <= other < m.seats.len(),
        other != find_seat(m.seats, id)->0,
        seat_eligible(m.seats[other]),
    ensures
        ({
            let seat = find_seat(m.seats, id)->0;
            let r = act_model(m, id, PlayerAct::Bet(a)).0;
            &&& r.street == m.street
            &&& r.state == m.state
            &&& r.seats.len() == m.seats.len()
            &&& r.seats[seat] is Some && r.seats[seat]->0.has_acted
            &&& forall|j: int| 0 <= j < r.seats.len() && j != seat && (#[trigger] r.seats[j]) is Some ==> !r.seats[j]->0.has_acted
        }),
{
    let seat = find_seat(m.seats, id)->0;
    lemma_find_seat_from(m.seats, id, 0);
    let p = m.seats[seat]->0;
    let ms = set_seat(m, seat, PlayerModel { acted_view: "bet"@, ..p });
    let m1 = post_amount_model(ms, seat, a);
    assert(m1.1);
    let m2 = after_action(m, seat, PlayerAct::Bet(a));
    assert(seat_pending(m2.seats[other]));
    assert(seat_active(m2.seats[seat]));
    lemma_two_active(m2.seats, seat, other);
    assert(!round_complete(m2.seats));
}

/// A raise that is accepted and lifts the round's bet (to `a` above the
/// bet to call, with the chips to pay for it) reopens the betting in the
/// same way: every other player has to act again and, while another player
/// may still act, the round stays open on the same street.
pub proof fn lemma_raise_reopens_round(m: TableModel, id: Seq<char>, a: u64, other: int)
    requires
        act_ok(m, id, PlayerAct::Raise(a)),
        act_refusal(m, id, PlayerAct::Raise(a)) is None,
        a > m.current_bet,
        m.seats[find_seat(m.seats, id)->0]->0.street_bet + m.seats[find_seat(m.seats, id)->0]->0.balance >= a,
        0 <= other < m.seats.len(),
        other != find_seat(m.seats, id)->0,
        seat_eligible(m.seats[other]),
    ensures
        ({
            let seat = find_seat(m.seats, id)->0;
            let r = act_model(m, id, PlayerAct::Raise(a)).0;
            &&& r.street == m.street
            &&& r.state == m.state
            &&& r.current_bet == a
            &&& r.seats.len() == m.seats.len()
            &&& r.seats[seat] is Some && r.seats[seat]->0.has_acted
            &&& forall|j: int| 0 <= j < r.seats.len() && j != seat && (#[trigger] r.seats[j]) is Some ==> !r.seats[j]->0.has_acted
        }),
{
    let seat = find_seat(m.seats, id)->0;
    lemma_find_seat_from(m.seats, id, 0);
    let p = m.seats[seat]->0;
    let ms = set_seat(m, seat, PlayerModel { acted_view: "raise"@, ..p });
    let m1 = post_amount_model(ms, seat, (a - p.street_bet) as u64);
    assert(m1.1);
    let m2 = after_action(m, seat, PlayerAct::Raise(a));
    assert(seat_pending(m2.seats[other]));
    assert(seat_active(m2.seats[seat]));
    lemma_two_active(m2.seats, seat, other);
    assert(!round_complete(m2.seats));
}

/// Checking, calling and folding reopen nothing: every other player's
/// state is as before the action (until the round closes), and the round's
/// bet does not move.
pub proof fn lemma_passive_actions_reopen_nothing(m: TableModel, id: Seq<char>, action: PlayerAct)
    requires
        act_ok(m, id, action),
        act_refusal(m, id, action) is None,
        action is Check || action is Call || action is Fold,
    ensures
        ({
            let seat = find_seat(m.seats, id)->0;
            let m2 = after_action(m, seat, action);
            &&& m2.seats.len() == m.seats.len()
            &&& m2.current_bet == m.current_bet
            &&& forall|j: int| 0 <= j < m.seats.len() && j != seat ==> #[trigger] m2.seats[j] == m.seats[j]
        }),
{
    let seat = find_seat(m.seats, id)->0;
    lemma_find_seat_from(m.seats, id, 0);
}

/// What an accepted action does to the player who takes it, before the
/// round is looked at: a fold leaves the hand with the stack untouched; a
/// check puts in nothing; a call with enough chips brings the round bet up
/// to the bet to call; a bet of `a` with enough chips puts in `a` and sets
/// the bet to call to it; a raise to `a` with enough chips brings the round
/// bet to `a`. Every chip put in leaves the stack and goes to the pot.
pub proof fn lemma_action_effect(m: TableModel, id: Seq<char>, action: PlayerAct)
    requires
        act_ok(m, id, action),
        act_refusal(m, id, action) is None,
    ensures
        ({
            let seat = find_seat(m.seats, id)->0;
            let p = m.seats[seat]->0;
            let m2 = after_action(m, seat, action);
            let q = m2.seats[seat]->0;
            &&& m2.seats[seat] is Some
            &&& q.id == p.id
            &&& q.has_acted
            &&& q.balance + q.street_bet == p.balance + p.street_bet
            &&& m2.pot + q.balance == m.pot + p.balance
            &&& match action {
                PlayerAct::Fold => !q.is_active && q.balance == p.balance,
                PlayerAct::Check => q.is_active && q.balance == p.balance,
                PlayerAct::Call => q.is_active && (p.balance + p.street_bet >= m.current_bet ==> q.street_bet
                    == m.current_bet),
                PlayerAct::Bet(a) => q.is_active && (p.balance >= a ==> q.street_bet == p.street_bet + a
                    && m2.current_bet == q.street_bet),
                PlayerAct::Raise(a) => q.is_active && (p.street_bet + p.balance >= a ==> q.street_bet == a),
            }
        }),
{
    let seat = find_seat(m.seats, id)->0;
    lemma_find_seat_from(m.seats, id, 0);
}

// ---------------------------------------------------------------------------
// A new hand starts afresh
// ---------------------------------------------------------------------------

/// A player ready to play a new hand: in it, yet to act, and all-in only
/// when they have no chips left.
pub open spec fn fresh_seat(o: Option<PlayerModel>) -> bool {
    o matches Some(p) ==> p.is_active && !p.has_acted && (p.is_all_in ==> p.balance == 0)
}

proof fn lemma_deal_holes_fresh(seats: Seq<Option<PlayerModel>>, deck: Seq<AtlasCard>, n: int)
    requires
        0 <= n <= seats.len(),
        forall|j: int| 0 <= j < seats.len() ==> fresh_seat(#[trigger] seats[j]),
    ensures
        deal_holes(seats, deck, n).0.len() == seats.len(),
        forall|j: int| 0 <= j < seats.len() ==> fresh_seat(#[trigger] deal_holes(seats, deck, n).0[j]),
    decreases n,
{
    if n > 0 {
        lemma_deal_holes_fresh(seats, deck, n - 1);
        let s = deal_holes(seats, deck, n - 1).0;
        let s2 = deal_holes(seats, deck, n).0;
        assert forall|j: int| 0 <= j < seats.len() implies fresh_seat(#[trigger] s2[j]) by {
            assert(fresh_seat(s[j]));
        }
    }
}

/// Whatever happened in the last hand, a new hand starts with every player
/// who stays in it and yet to act; a player is all-in only when posting a
/// blind took all their chips.
pub proof fn lemma_start_players_fresh(m: TableModel, hand_id: Seq<char>, shuffled: Seq<AtlasCard>)
    requires
        start_ok(m),
        start_error(m) is None,
    ensures
        ({
            let r = start_model(m, hand_id, shuffled);
            &&& r.seats.len() == m.seats.len()
            &&& forall|j: int| 0 <= j < r.seats.len() && (#[trigger] r.seats[j]) is Some ==> {
                let p = r.seats[j]->0;
                p.is_active && !p.has_acted && (p.is_all_in ==> p.balance == 0)
            }
        }),
{
    lemma_start_blinds(m);
    let m2 = start_positions(m);
    let sb = m2.small_blind_pos as int;
    let bb = m2.big_blind_pos as int;
    assert(forall|j: int| 0 <= j < m2.seats.len() ==> fresh_seat(#[trigger] m2.seats[j]));
    let p1 = post_amount_model(m2, sb, m2.small_blind_amount).0;
    let m3 = start_after_small_blind(m);
    assert(m3.seats[bb] is Some);
    assert forall|j: int| 0 <= j < m3.seats.len() implies fresh_seat(#[trigger] m3.seats[j]) by {
        assert(fresh_seat(m2.seats[j]));
    }
    let m4 = start_after_big_blind(m);
    assert forall|j: int| 0 <= j < m4.seats.len() implies fresh_seat(#[trigger] m4.seats[j]) by {
        assert(fresh_seat(m3.seats[j]));
    }
    let m5 = start_prefix(m);
    assert(m5.seats == m4.seats);
    lemma_deal_holes_fresh(m5.seats, shuffled, m5.seats.len() as int);
    let r = start_model(m, hand_id, shuffled);
    assert forall|j: int| 0 <= j < r.seats.len() && (#[trigger] r.seats[j]) is Some implies {
        let p = r.seats[j]->0;
        p.is_active && !p.has_acted && (p.is_all_in ==> p.balance == 0)
    } by {
        assert(fresh_seat(r.seats[j]));
    }
}

// ---------------------------------------------------------------------------
// The cards a hand is ranked on
// ---------------------------------------------------------------------------

proof fn lemma_flatten_concat(a: Seq<Option<AtlasCard>>, b: Seq<Option<AtlasCard>>)
    ensures
        flatten_cards(a + b) == flatten_cards(a) + flatten_cards(b),
    decreases b.len(),
{
    if b.len() == 0 {
        assert(a + b =~= a);
        assert(flatten_cards(a) + flatten_cards(b) =~= flatten_cards(a));
    } else {
        assert((a + b).drop_last() =~= a + b.drop_last());
        assert((a + b).last() == b.last());
        lemma_flatten_concat(a, b.drop_last());
        match b.last() {
            Some(c) => {
                assert(flatten_cards(a) + flatten_cards(b) =~= (flatten_cards(a) + flatten_cards(b.drop_last())).push(c));
            },
            None => {},
        }
    }
}

/// Each seated player's hand is ranked on every card they can use: their
/// hole cards and every card on the board, all five slots, in that order.
pub proof fn lemma_hands_ranked_on_all_cards(m: TableModel, j: int)
    requires
        0 <= j < m.seats.len(),
        m.seats[j] is Some,
    ensures
        evaluate_model(m).seats[j] is Some,
        evaluate_model(m).seats[j]->0.cards_rank == Some(
            hand_rank_of(codes_of(flatten_cards(m.seats[j]->0.hand_cards + m.community_cards))),
        ),
{
    lemma_flatten_concat(m.seats[j]->0.hand_cards, m.community_cards);
    let r = ranked_seats(m.seats, m.community_cards);
    assert(r[j] is Some);
}

// ---------------------------------------------------------------------------
// The winners of an evaluation
// ---------------------------------------------------------------------------

proof fn lemma_best_seated(s: Seq<Option<PlayerModel>>, n: int)
    requires
        0 <= n <= s.len(),
        forall|k: int| 0 <= k < s.len() && (#[trigger] s[k]) is Some ==> s[k]->0.cards_rank is Some,
    ensures
        best_seated_upto(s, n) is Some <==> exists|k: int| 0 <= k < n && (#[trigger] s[k]) is Some,
        (exists|k: int| 0 <= k < n && (#[trigger] s[k]) is Some) ==> {
            &&& best_seated_upto(s, n) is Some
            &&& forall|k: int| 0 <= k < n && (#[trigger] s[k]) is Some ==> rank_le(
                s[k]->0.cards_rank->0,
                best_seated_upto(s, n)->0,
            )
            &&& exists|k: int| 0 <= k < n && (#[trigger] s[k]) is Some && s[k]->0.cards_rank->0 == best_seated_upto(s, n)->0
        },
    decreases n,
{
    if n > 0 {
        lemma_best_seated(s, n - 1);
        let b = best_seated_upto(s, n - 1);
        match s[n - 1] {
            Some(p) => {
                let x = p.cards_rank->0;
                let best = best_seated_upto(s, n)->0;
                match b {
                    Some(y) => {
                        assert(exists|k: int| 0 <= k < n - 1 && (#[trigger] s[k]) is Some);
                        assert(best == rank_max(y, x));
                        lemma_rank_order(y, x, x);
                        assert forall|k: int| 0 <= k < n && (#[trigger] s[k]) is Some implies rank_le(
                            s[k]->0.cards_rank->0,
                            best,
                        ) by {
                            if k < n - 1 {
                                lemma_rank_order(s[k]->0.cards_rank->0, y, best);
                            } else {
                                lemma_rank_order(x, y, best);
                            }
                        }
                        if rank_le(y, x) {
                            assert(s[n - 1] is Some && s[n - 1]->0.cards_rank->0 == best);
                        } else {
                            let k = choose|k: int| 0 <= k < n - 1 && (#[trigger] s[k]) is Some && s[k]->0.cards_rank->0 == y;
                            assert(s[k] is Some && s[k]->0.cards_rank->0 == best);
                        }
                    },
                    None => {
                        assert(!exists|k: int| 0 <= k < n - 1 && (#[trigger] s[k]) is Some);
                        assert forall|k: int| 0 <= k < n && (#[trigger] s[k]) is Some implies rank_le(
                            s[k]->0.cards_rank->0,
                            best,
                        ) by {
                            if k < n - 1 {
                                assert(exists|q: int| 0 <= q < n - 1 && (#[trigger] s[q]) is Some);
                            } else {
                                lemma_rank_order(x, x, x);
                            }
                        }
                        assert(s[n - 1] is Some && s[n - 1]->0.cards_rank->0 == best);
                    },
                }
            },
            None => {
                if exists|k: int| 0 <= k < n && (#[trigger] s[k]) is Some {
                    let k = choose|k: int| 0 <= k < n && (#[trigger] s[k]) is Some;
                    assert(k < n - 1);
                }
                if exists|k: int| 0 <= k < n - 1 && (#[trigger] s[k]) is Some {
                    let k = choose|k: int| 0 <= k < n - 1 && (#[trigger] s[k]) is Some;
                    assert(s[k] is Some);
                }
            },
        }
    }
}

/// Evaluating the hands marks as winners exactly the seated players whose
/// hand no other seated player's hand beats.
pub proof fn lemma_evaluate_marks_strongest(m: TableModel)
    ensures
        ({
            let r = evaluate_model(m);
            &&& r.seats.len() == m.seats.len()
            &&& forall|j: int| 0 <= j < r.seats.len() && (#[trigger] r.seats[j]) is Some ==> {
                &&& r.seats[j]->0.cards_rank is Some
                &&& r.seats[j]->0.win <==> forall|k: int| 0 <= k < r.seats.len() && (#[trigger] r.seats[k]) is Some
                    ==> rank_le(r.seats[k]->0.cards_rank->0, r.seats[j]->0.cards_rank->0)
            }
        }),
{
    let rs = ranked_seats(m.seats, m.community_cards);
    lemma_best_seated(rs, rs.len() as int);
    let best = best_seated_upto(rs, rs.len() as int)->0;
    let r = evaluate_model(m);
    assert forall|j: int| 0 <= j < r.seats.len() && (#[trigger] r.seats[j]) is Some implies {
        &&& r.seats[j]->0.cards_rank is Some
        &&& r.seats[j]->0.win <==> forall|k: int| 0 <= k < r.seats.len() && (#[trigger] r.seats[k]) is Some
            ==> rank_le(r.seats[k]->0.cards_rank->0, r.seats[j]->0.cards_rank->0)
    } by {
        assert(rs[j] is Some);
        let x = rs[j]->0.cards_rank->0;
        assert(r.seats[j]->0.cards_rank == rs[j]->0.cards_rank);
        if r.seats[j]->0.win {
            assert(x == best);
            assert forall|k: int| 0 <= k < r.seats.len() && (#[trigger] r.seats[k]) is Some implies rank_le(
                r.seats[k]->0.cards_rank->0,
                x,
            ) by {
                assert(rs[k] is Some);
            }
        }
        if forall|k: int| 0 <= k < r.seats.len() && (#[trigger] r.seats[k]) is Some ==> rank_le(
            r.seats[k]->0.cards_rank->0,
            x,
        ) {
            let k = choose|k: int| 0 <= k < rs.len() && (#[trigger] rs[k]) is Some && rs[k]->0.cards_rank->0 == best;
            assert(r.seats[k] is Some);
            assert(rank_le(best, x));
            lemma_rank_order(x, best, best);
        }
    }
}

// ---------------------------------------------------------------------------
// Who is paid a pot
// ---------------------------------------------------------------------------

proof fn lemma_best_rank_is_max(seats: Seq<Option<PlayerModel>>, cs: Seq<usize>, n: int)
    requires
        1 <= n <= cs.len(),
    ensures
        forall|j: int| 0 <= j < n ==> rank_le(seat_rank(seats, #[trigger] cs[j]), best_rank_upto(seats, cs, n)),
        exists|j: int| 0 <= j < n && seat_rank(seats, #[trigger] cs[j]) == best_rank_upto(seats, cs, n),
    decreases n,
{
    if n == 1 {
        lemma_rank_order(seat_rank(seats, cs[0]), seat_rank(seats, cs[0]), seat_rank(seats, cs[0]));
        assert(seat_rank(seats, cs[0]) == best_rank_upto(seats, cs, 1));
    } else {
        lemma_best_rank_is_max(seats, cs, n - 1);
        let y = best_rank_upto(seats, cs, n - 1);
        let x = seat_rank(seats, cs[n - 1]);
        let b = best_rank_upto(seats, cs, n);
        lemma_rank_order(y, x, x);
        lemma_rank_order(x, x, x);
        lemma_rank_order(y, y, y);
        assert forall|j: int| 0 <= j < n implies rank_le(seat_rank(seats, #[trigger] cs[j]), b) by {
            if j < n - 1 {
                lemma_rank_order(seat_rank(seats, cs[j]), y, b);
            }
        }
        if rank_le(y, x) {
            assert(seat_rank(seats, cs[n - 1]) == b);
        } else {
            let j = choose|j: int| 0 <= j < n - 1 && seat_rank(seats, #[trigger] cs[j]) == y;
            assert(seat_rank(seats, cs[j]) == b);
        }
    }
}

proof fn lemma_winners_members(seats: Seq<Option<PlayerModel>>, cs: Seq<usize>, best: HandRank, n: int)
    requires
        0 <= n <= cs.len(),
    ensures
        forall|x: usize| winners_upto(seats, cs, best, n).contains(x) <==> exists|j: int| 0 <= j < n && #[trigger] cs[j] == x
            && seat_rank(seats, x) == best,
    decreases n,
{
    if n > 0 {
        lemma_winners_members(seats, cs, best, n - 1);
        let r = winners_upto(seats, cs, best, n - 1);
        let w = winners_upto(seats, cs, best, n);
        assert forall|x: usize| w.contains(x) <==> exists|j: int| 0 <= j < n && #[trigger] cs[j] == x && seat_rank(seats, x)
            == best by {
            if w.contains(x) {
                let i = choose|i: int| 0 <= i < w.len() && w[i] == x;
                if i < r.len() {
                    assert(w[i] == r[i]);
                    assert(r.contains(x));
                } else {
                    assert(cs[n - 1] == x);
                }
            }
            if exists|j: int| 0 <= j < n && #[trigger] cs[j] == x && seat_rank(seats, x) == best {
                let j = choose|j: int| 0 <= j < n && #[trigger] cs[j] == x && seat_rank(seats, x) == best;
                if j < n - 1 {
                    assert(r.contains(x));
                    let i = choose|i: int| 0 <= i < r.len() && r[i] == x;
                    assert(w[i] == x);
                } else {
                    assert(w[w.len() - 1] == x);
                }
            }
        }
    }
}

proof fn lemma_credit_win(seats: Seq<Option<PlayerModel>>, w: Seq<usize>, share: u64, odd: u64, n: int)
    requires
        0 <= n <= w.len(),
        forall|i: int| 0 <= i < w.len() ==> #[trigger] w[i] < seats.len() && seats[w[i] as int] is Some,
    ensures
        credit_winners(seats, w, share, odd, n).len() == seats.len(),
        forall|c: int| 0 <= c < seats.len() ==> (#[trigger] credit_winners(seats, w, share, odd, n)[c] is Some <==> seats[c] is Some),
        forall|c: int| 0 <= c < seats.len() && seats[c] is Some ==> (#[trigger] credit_winners(seats, w, share, odd, n)[c])->0.win
            == (seats[c]->0.win || exists|i: int| 0 <= i < n && w[i] as int == c),
    decreases n,
{
    if n > 0 {
        lemma_credit_win(seats, w, share, odd, n - 1);
        let s = credit_winners(seats, w, share, odd, n - 1);
        let s2 = credit_winners(seats, w, share, odd, n);
        let wi = w[n - 1] as int;
        assert forall|c: int| 0 <= c < seats.len() && seats[c] is Some implies (#[trigger] s2[c])->0.win == (seats[c]->0.win
            || exists|i: int| 0 <= i < n && w[i] as int == c) by {
            if c == wi {
                assert(w[n - 1] as int == c);
            } else {
                assert(s2[c] == s[c]);
                if exists|i: int| 0 <= i < n && w[i] as int == c {
                    let i = choose|i: int| 0 <= i < n && w[i] as int == c;
                    assert(i < n - 1);
                }
            }
        }
    }
}

/// A pot goes to its contenders with the strongest hand: among players who
/// were not winners before, a contender becomes a winner of the pot exactly
/// when no other contender's hand beats theirs.
pub proof fn lemma_pot_paid_to_strongest(m: TableModel, pot: SidePotModel, c: usize)
    requires
        pot.contenders.len() > 0,
        contenders_ranked(m.seats, seq![pot]),
        pot.contenders.contains(c),
        !m.seats[c as int]->0.win,
    ensures
        settle_pot_model(m, pot).seats[c as int] is Some,
        settle_pot_model(m, pot).seats[c as int]->0.win <==> forall|k: int| 0 <= k < pot.contenders.len() ==> rank_le(
            seat_rank(m.seats, #[trigger] pot.contenders[k]),
            seat_rank(m.seats, c),
        ),
{
    let cs = pot.contenders;
    let n = cs.len() as int;
    assert forall|j: int| 0 <= j < n implies #[trigger] cs[j] < m.seats.len() && m.seats[cs[j] as int] is Some by {
        assert(seq![pot][0] == pot);
        let cc = seq![pot][0].contenders[j];
    }
    let jc = choose|j: int| 0 <= j < n && cs[j] == c;
    assert(cs[jc] < m.seats.len());
    let best = best_rank_upto(m.seats, cs, n);
    lemma_best_rank_is_max(m.seats, cs, n);
    lemma_winners_members(m.seats, cs, best, n);
    let w = winners_upto(m.seats, cs, best, n);
    assert forall|i: int| 0 <= i < w.len() implies #[trigger] w[i] < m.seats.len() && m.seats[w[i] as int] is Some by {
        assert(w.contains(w[i]));
        let j = choose|j: int| 0 <= j < n && #[trigger] cs[j] == w[i] && seat_rank(m.seats, w[i]) == best;
        assert(cs[j] < m.seats.len());
    }
    lemma_credit_win(m.seats, w, (pot.amount as int / w.len() as int) as u64, (pot.amount as int % w.len() as int) as u64, w.len() as int);
    let r = settle_pot_model(m, pot);
    let rc = seat_rank(m.seats, c);
    if r.seats[c as int]->0.win {
        let i = choose|i: int| 0 <= i < w.len() && w[i] as int == c as int;
        assert(w.contains(c));
        assert(rc == best);
    }
    if forall|k: int| 0 <= k < n ==> rank_le(seat_rank(m.seats, #[trigger] cs[k]), rc) {
        let k = choose|k: int| 0 <= k < n && seat_rank(m.seats, #[trigger] cs[k]) == best;
        assert(rank_le(best, rc));
        assert(rank_le(rc, best));
        lemma_rank_order(rc, best, best);
        assert(w.contains(c));
        let i = choose|i: int| 0 <= i < w.len() && w[i] == c;
        assert(w[i] as int == c as int);
    }
}

} // verus!
