//! Where the 52 cards are. Every card of the deck is, at any time, in exactly
//! one place: in a player's hand, on the board, or still in the deck.
use vstd::prelude::*;
use vstd::multiset::Multiset;
use crate::card::AtlasCard;
use crate::deck::{full_deck, is_full_deck_permutation, lemma_full_deck};
use crate::player::{PlayerAct, PlayerModel};
use crate::table::{TableModel, TableStreet, TableState, round_complete, balance_of, lemma_seat_sum_nonneg, find_seat,
    lemma_find_seat_from, post_amount_model};
use crate::table_act::{pop_card, deal_holes, lemma_deal_holes_frame, start_model, start_ok, start_error, start_seats,
    start_positions, start_after_small_blind, start_after_big_blind, start_prefix, unmark_acted, new_table_model, sit_model,
    leave_model, seated_fresh};
use crate::table_play::{deal_board, close_round, open_round, end_round_model, advance_model, end_round_ok, advance_ok,
    street_rank, act_model, act_ok, act_refusal, apply_action, after_action, set_seat};
use crate::evaluate::{evaluate_model, ranked_seats, mark_winners, best_seated_upto};
use crate::pot::pots_for;
use crate::laws::{lemma_settle_model_total, lemma_paid_total_nonneg, lemma_start_blinds};

verus! {

broadcast use vstd::seq_lib::group_to_multiset_ensures;

/// The card in a slot, if any.
pub open spec fn slot_cards(o: Option<AtlasCard>) -> Multiset<AtlasCard> {
    match o {
        Some(c) => Multiset::singleton(c),
        None => Multiset::empty(),
    }
}

/// The cards in a row of slots (a hand, or the board).
pub open spec fn slots_cards(s: Seq<Option<AtlasCard>>) -> Multiset<AtlasCard>
    decreases s.len(),
{
    if s.len() == 0 {
        Multiset::empty()
    } else {
        slots_cards(s.drop_last()).add(slot_cards(s.last()))
    }
}

/// The hole cards of the player in a seat.
pub open spec fn seat_cards(o: Option<PlayerModel>) -> Multiset<AtlasCard> {
    match o {
        Some(p) => slots_cards(p.hand_cards),
        None => Multiset::empty(),
    }
}

/// The hole cards of all players.
pub open spec fn seats_cards(s: Seq<Option<PlayerModel>>) -> Multiset<AtlasCard>
    decreases s.len(),
{
    if s.len() == 0 {
        Multiset::empty()
    } else {
        seats_cards(s.drop_last()).add(seat_cards(s.last()))
    }
}

/// Every card at the table: in the hands, on the board and in the deck.
pub open spec fn cards_in_play(m: TableModel) -> Multiset<AtlasCard> {
    seats_cards(m.seats).add(slots_cards(m.community_cards)).add(m.deck.to_multiset())
}

/// The board has five slots, and those of the streets still to come are empty.
pub open spec fn board_fits_street(m: TableModel) -> bool {
    &&& m.community_cards.len() == 5
    &&& match m.street {
        TableStreet::PreFlop => forall|k: int| 0 <= k < 5 ==> #[trigger] m.community_cards[k] is None,
        TableStreet::Flop => m.community_cards[3] is None && m.community_cards[4] is None,
        TableStreet::Turn => m.community_cards[4] is None,
        TableStreet::River => true,
    }
}

/// The cards at the table are the 52 cards of a deck, each once, and the
/// board is dealt no further than the street.
pub open spec fn cards_kept(m: TableModel) -> bool {
    &&& cards_in_play(m) == full_deck().to_multiset()
    &&& board_fits_street(m)
}

/// Where the cards are kept, each of the 52 cards is at the table exactly
/// once: no card is dealt twice, and none is lost.
pub proof fn lemma_each_card_once(m: TableModel, c: AtlasCard)
    requires
        cards_kept(m),
    ensures
        cards_in_play(m).count(c) == 1,
{
    lemma_full_deck();
    full_deck().lemma_multiset_has_no_duplicates();
    assert(full_deck().contains(c));
    assert(full_deck().to_multiset().count(c) > 0);
}

/// Two seatings whose players hold the same hole cards.
pub open spec fn same_hands(a: Seq<Option<PlayerModel>>, b: Seq<Option<PlayerModel>>) -> bool {
    &&& a.len() == b.len()
    &&& forall|j: int| 0 <= j < a.len() ==> #[trigger] seat_cards(a[j]) == seat_cards(b[j])
}

proof fn lemma_slots_update(s: Seq<Option<AtlasCard>>, k: int, c: Option<AtlasCard>)
    requires
        0 <= k < s.len(),
    ensures
        slots_cards(s.update(k, c)).add(slot_cards(s[k])) =~= slots_cards(s).add(slot_cards(c)),
    decreases s.len(),
{
    let u = s.update(k, c);
    assert(slots_cards(u) == slots_cards(u.drop_last()).add(slot_cards(u.last())));
    assert(slots_cards(s) == slots_cards(s.drop_last()).add(slot_cards(s.last())));
    if k == s.len() - 1 {
        assert(u.drop_last() =~= s.drop_last());
        assert(u.last() == c);
        assert(s.last() == s[k]);
    } else {
        assert(u.drop_last() =~= s.drop_last().update(k, c));
        lemma_slots_update(s.drop_last(), k, c);
        assert(u.last() == s.last());
        assert(s.drop_last()[k] == s[k]);
    }
    assert forall|v: AtlasCard| #[trigger] slots_cards(u).add(slot_cards(s[k])).count(v) == slots_cards(s).add(
        slot_cards(c),
    ).count(v) by {
        let d = s.drop_last();
        if k < s.len() - 1 {
            assert(slots_cards(d.update(k, c)).add(slot_cards(d[k])).count(v) == slots_cards(d).add(slot_cards(c)).count(v));
        }
    }
}

proof fn lemma_slots_empty(s: Seq<Option<AtlasCard>>)
    requires
        forall|k: int| 0 <= k < s.len() ==> #[trigger] s[k] is None,
    ensures
        slots_cards(s) =~= Multiset::empty(),
    decreases s.len(),
{
    if s.len() > 0 {
        lemma_slots_empty(s.drop_last());
    }
}

proof fn lemma_seats_update(s: Seq<Option<PlayerModel>>, i: int, o: Option<PlayerModel>)
    requires
        0 <= i < s.len(),
    ensures
        seats_cards(s.update(i, o)).add(seat_cards(s[i])) =~= seats_cards(s).add(seat_cards(o)),
    decreases s.len(),
{
    let u = s.update(i, o);
    assert(seats_cards(u) == seats_cards(u.drop_last()).add(seat_cards(u.last())));
    assert(seats_cards(s) == seats_cards(s.drop_last()).add(seat_cards(s.last())));
    if i == s.len() - 1 {
        assert(u.drop_last() =~= s.drop_last());
        assert(u.last() == o);
    } else {
        assert(u.drop_last() =~= s.drop_last().update(i, o));
        lemma_seats_update(s.drop_last(), i, o);
        assert(u.last() == s.last());
        assert(s.drop_last()[i] == s[i]);
    }
    assert forall|v: AtlasCard| #[trigger] seats_cards(u).add(seat_cards(s[i])).count(v) == seats_cards(s).add(
        seat_cards(o),
    ).count(v) by {
        let d = s.drop_last();
        if i < s.len() - 1 {
            assert(seats_cards(d.update(i, o)).add(seat_cards(d[i])).count(v) == seats_cards(d).add(seat_cards(o)).count(v));
        }
    }
}

proof fn lemma_same_hands(a: Seq<Option<PlayerModel>>, b: Seq<Option<PlayerModel>>)
    requires
        same_hands(a, b),
    ensures
        seats_cards(a) == seats_cards(b),
    decreases a.len(),
{
    if a.len() > 0 {
        assert(same_hands(a.drop_last(), b.drop_last())) by {
            assert forall|j: int| 0 <= j < a.len() - 1 implies #[trigger] seat_cards(a.drop_last()[j]) == seat_cards(
                b.drop_last()[j],
            ) by {
                assert(seat_cards(a[j]) == seat_cards(b[j]));
            }
        }
        lemma_same_hands(a.drop_last(), b.drop_last());
        assert(seat_cards(a[a.len() - 1]) == seat_cards(b[a.len() - 1]));
    }
}

proof fn lemma_seats_empty(s: Seq<Option<PlayerModel>>)
    requires
        forall|j: int| 0 <= j < s.len() ==> #[trigger] seat_cards(s[j]) == Multiset::<AtlasCard>::empty(),
    ensures
        seats_cards(s) =~= Multiset::empty(),
    decreases s.len(),
{
    if s.len() > 0 {
        assert forall|j: int| 0 <= j < s.len() - 1 implies #[trigger] seat_cards(s.drop_last()[j])
            == Multiset::<AtlasCard>::empty() by {
            assert(seat_cards(s[j]) == Multiset::<AtlasCard>::empty());
        }
        lemma_seats_empty(s.drop_last());
        assert(seat_cards(s[s.len() - 1]) == Multiset::<AtlasCard>::empty());
    }
}

proof fn lemma_pop(d: Seq<AtlasCard>)
    ensures
        slot_cards(pop_card(d).0).add(pop_card(d).1.to_multiset()) =~= d.to_multiset(),
{
    if d.len() > 0 {
        assert(d =~= d.drop_last().push(d.last()));
    }
}

/// The same seats are taken, and each player holds the same hole cards.
pub open spec fn keeps_hands(a: Seq<Option<PlayerModel>>, b: Seq<Option<PlayerModel>>) -> bool {
    &&& a.len() == b.len()
    &&& forall|j: int| 0 <= j < a.len() ==> (#[trigger] a[j] is Some <==> b[j] is Some)
    &&& forall|j: int| 0 <= j < a.len() && a[j] is Some ==> (#[trigger] a[j])->0.hand_cards == b[j]->0.hand_cards
}

proof fn lemma_keeps_hands(a: Seq<Option<PlayerModel>>, b: Seq<Option<PlayerModel>>)
    requires
        keeps_hands(a, b),
    ensures
        same_hands(a, b),
        seats_cards(a) == seats_cards(b),
{
    assert forall|j: int| 0 <= j < a.len() implies #[trigger] seat_cards(a[j]) == seat_cards(b[j]) by {
        if a[j] is Some {
            assert(a[j]->0.hand_cards == b[j]->0.hand_cards);
        }
    }
    lemma_same_hands(a, b);
}

proof fn lemma_evaluate_hands(m: TableModel)
    ensures
        keeps_hands(m.seats, evaluate_model(m).seats),
{
    let r = ranked_seats(m.seats, m.community_cards);
    let best = best_seated_upto(r, r.len() as int)->0;
    assert(keeps_hands(m.seats, r));
    assert(keeps_hands(r, mark_winners(r, best)));
}

/// Dealing the board of the next street moves cards from the deck to the
/// empty board slots of that street.
proof fn lemma_deal_board_cards(m: TableModel)
    requires
        board_fits_street(m),
        m.street != TableStreet::River,
    ensures
        deal_board(m).seats == m.seats,
        cards_in_play(deal_board(m)) == cards_in_play(m),
        board_fits_street(deal_board(m)),
{
    let b = m.community_cards;
    let d = m.deck;
    let m1 = deal_board(m);
    lemma_pop(d);
    let (c0, d0) = pop_card(d);
    match m.street {
        TableStreet::PreFlop => {
            let (c1, d1) = pop_card(d0);
            let (c2, d2) = pop_card(d1);
            lemma_pop(d0);
            lemma_pop(d1);
            let b1 = b.update(0, c0);
            let b2 = b1.update(1, c1);
            let b3 = b2.update(2, c2);
            assert(b[0] is None && b[1] is None && b[2] is None);
            lemma_slots_update(b, 0, c0);
            lemma_slots_update(b1, 1, c1);
            lemma_slots_update(b2, 2, c2);
            assert(m1.community_cards == b3);
            assert(m1.deck == d2);
            assert forall|v: AtlasCard| #[trigger] cards_in_play(m1).count(v) == cards_in_play(m).count(v) by {
                assert(slots_cards(b1).add(slot_cards(b[0])).count(v) == slots_cards(b).add(slot_cards(c0)).count(v));
                assert(slots_cards(b2).add(slot_cards(b1[1])).count(v) == slots_cards(b1).add(slot_cards(c1)).count(v));
                assert(slots_cards(b3).add(slot_cards(b2[2])).count(v) == slots_cards(b2).add(slot_cards(c2)).count(v));
                assert(slot_cards(c0).add(d0.to_multiset()).count(v) == d.to_multiset().count(v));
                assert(slot_cards(c1).add(d1.to_multiset()).count(v) == d0.to_multiset().count(v));
                assert(slot_cards(c2).add(d2.to_multiset()).count(v) == d1.to_multiset().count(v));
            }
            assert(cards_in_play(m1) =~= cards_in_play(m));
        },
        TableStreet::Flop => {
            let b1 = b.update(3, c0);
            lemma_slots_update(b, 3, c0);
            assert forall|v: AtlasCard| #[trigger] cards_in_play(m1).count(v) == cards_in_play(m).count(v) by {
                assert(slots_cards(b1).add(slot_cards(b[3])).count(v) == slots_cards(b).add(slot_cards(c0)).count(v));
                assert(slot_cards(c0).add(d0.to_multiset()).count(v) == d.to_multiset().count(v));
            }
            assert(cards_in_play(m1) =~= cards_in_play(m));
        },
        TableStreet::Turn => {
            let b1 = b.update(4, c0);
            lemma_slots_update(b, 4, c0);
            assert forall|v: AtlasCard| #[trigger] cards_in_play(m1).count(v) == cards_in_play(m).count(v) by {
                assert(slots_cards(b1).add(slot_cards(b[4])).count(v) == slots_cards(b).add(slot_cards(c0)).count(v));
                assert(slot_cards(c0).add(d0.to_multiset()).count(v) == d.to_multiset().count(v));
            }
            assert(cards_in_play(m1) =~= cards_in_play(m));
        },
        TableStreet::River => {},
    }
}

proof fn lemma_end_round_cards(m: TableModel)
    requires
        end_round_ok(m),
        board_fits_street(m),
    ensures
        cards_in_play(end_round_model(m)) == cards_in_play(m),
        board_fits_street(end_round_model(m)),
    decreases street_rank(m.street), 1nat,
{
    let c = close_round(m);
    assert(keeps_hands(m.seats, c.seats));
    lemma_keeps_hands(m.seats, c.seats);
    lemma_advance_cards(c);
}

proof fn lemma_advance_cards(m: TableModel)
    requires
        advance_ok(m),
        board_fits_street(m),
    ensures
        cards_in_play(advance_model(m)) == cards_in_play(m),
        board_fits_street(advance_model(m)),
    decreases street_rank(m.street), 0nat,
{
    if m.street == TableStreet::River {
        let m1 = TableModel { state: TableState::Concluding, ..m };
        lemma_seat_sum_nonneg(m1.seats, |p: PlayerModel| balance_of(p));
        lemma_paid_total_nonneg(pots_for(m1.seats));
        lemma_settle_model_total(m1, pots_for(m1.seats));
        lemma_keeps_hands(m1.seats, advance_model(m).seats);
    } else {
        let m1 = deal_board(m);
        lemma_deal_board_cards(m);
        let m2 = evaluate_model(m1);
        lemma_evaluate_hands(m1);
        lemma_keeps_hands(m1.seats, m2.seats);
        let m3 = open_round(m2);
        assert(cards_in_play(m3) == cards_in_play(m));
        if round_complete(m3.seats) {
            lemma_end_round_cards(m3);
        }
    }
}

/// Closing a betting round and moving on to the next street (or to the
/// showdown) keeps the 52 cards at the table: the board cards of the next
/// street come from the deck, into the board slots still empty.
pub proof fn lemma_end_round_keeps_cards(m: TableModel)
    requires
        end_round_ok(m),
        cards_kept(m),
    ensures
        cards_kept(end_round_model(m)),
{
    lemma_end_round_cards(m);
}

/// Moving on to the next street (or to the showdown) keeps the 52 cards at
/// the table.
pub proof fn lemma_advance_keeps_cards(m: TableModel)
    requires
        advance_ok(m),
        cards_kept(m),
    ensures
        cards_kept(advance_model(m)),
{
    lemma_advance_cards(m);
}

proof fn lemma_post_hands(m: TableModel, seat: int, amount: u64)
    requires
        0 <= seat < m.seats.len(),
        m.seats[seat] is Some,
    ensures
        keeps_hands(m.seats, post_amount_model(m, seat, amount).0.seats),
{
}

/// An action keeps the 52 cards at the table: a refused one changes
/// nothing, an accepted one moves no card unless it closes the betting
/// round, and then the next street's board comes from the deck.
pub proof fn lemma_act_keeps_cards(m: TableModel, id: Seq<char>, action: PlayerAct)
    requires
        act_ok(m, id, action),
        cards_kept(m),
    ensures
        cards_kept(act_model(m, id, action).0),
{
    if act_refusal(m, id, action) is None {
        let seat = find_seat(m.seats, id)->0;
        lemma_find_seat_from(m.seats, id, 0);
        let p = m.seats[seat]->0;
        let m1 = apply_action(m, seat, action).0;
        match action {
            PlayerAct::Fold => {},
            PlayerAct::Check => {},
            PlayerAct::Call => {
                let ms = set_seat(m, seat, PlayerModel { acted_view: "call"@, ..p });
                lemma_post_hands(ms, seat, (m.current_bet - p.street_bet) as u64);
            },
            PlayerAct::Bet(a) => {
                let ms = set_seat(m, seat, PlayerModel { acted_view: "bet"@, ..p });
                lemma_post_hands(ms, seat, a);
            },
            PlayerAct::Raise(a) => {
                let ms = set_seat(m, seat, PlayerModel { acted_view: "raise"@, ..p });
                lemma_post_hands(ms, seat, (a - p.street_bet) as u64);
            },
        }
        assert(keeps_hands(m.seats, m1.seats));
        let m2 = after_action(m, seat, action);
        assert(keeps_hands(m1.seats, m2.seats));
        assert(keeps_hands(m.seats, m2.seats));
        lemma_keeps_hands(m.seats, m2.seats);
        assert(cards_in_play(m2) == cards_in_play(m));
        if round_complete(m2.seats) {
            lemma_end_round_cards(m2);
        }
    }
}

proof fn lemma_two_slots(c0: Option<AtlasCard>, c1: Option<AtlasCard>)
    ensures
        slots_cards(seq![c0, c1]) =~= slot_cards(c0).add(slot_cards(c1)),
{
    let s = seq![c0, c1];
    let s1 = seq![c0];
    assert(s.drop_last() =~= s1);
    assert(s1.drop_last() =~= Seq::<Option<AtlasCard>>::empty());
    assert(slots_cards(s1.drop_last()) == Multiset::<AtlasCard>::empty());
    assert(slots_cards(s1) == slots_cards(s1.drop_last()).add(slot_cards(c0)));
    assert(slots_cards(s) == slots_cards(s1).add(slot_cards(c1)));
    assert forall|v: AtlasCard| #[trigger] slots_cards(s).count(v) == slot_cards(c0).add(slot_cards(c1)).count(v) by {
        assert(slots_cards(s1).count(v) == slot_cards(c0).count(v));
    }
}

/// Dealing hole cards to empty-handed players moves cards from the deck
/// into their hands.
proof fn lemma_deal_holes_cards(seats: Seq<Option<PlayerModel>>, deck: Seq<AtlasCard>, n: int)
    requires
        0 <= n <= seats.len(),
        forall|j: int| 0 <= j < seats.len() && (#[trigger] seats[j]) is Some ==> seats[j]->0.hand_cards == seq![
            None::<AtlasCard>,
            None,
        ],
    ensures
        seats_cards(deal_holes(seats, deck, n).0).add(deal_holes(seats, deck, n).1.to_multiset()) == seats_cards(seats).add(
            deck.to_multiset(),
        ),
    decreases n,
{
    if n > 0 {
        lemma_deal_holes_cards(seats, deck, n - 1);
        lemma_deal_holes_frame(seats, deck, n - 1);
        let (s, d) = deal_holes(seats, deck, n - 1);
        assert(s[n - 1] == seats[n - 1]);
        let (s2, d2) = deal_holes(seats, deck, n);
        match s[n - 1] {
            Some(p) => {
                let (c0, d1) = pop_card(d);
                let (c1, d3) = pop_card(d1);
                lemma_pop(d);
                lemma_pop(d1);
                let np = PlayerModel { hand_cards: p.hand_cards.update(0, c0).update(1, c1), ..p };
                assert(np.hand_cards =~= seq![c0, c1]);
                lemma_two_slots(c0, c1);
                lemma_two_slots(None, None);
                lemma_seats_update(s, n - 1, Some(np));
                assert(s2 == s.update(n - 1, Some(np)));
                assert(d2 == d3);
                assert forall|v: AtlasCard| #[trigger] seats_cards(s2).add(d2.to_multiset()).count(v) == seats_cards(
                    seats,
                ).add(deck.to_multiset()).count(v) by {
                    assert(seats_cards(s2).add(seat_cards(s[n - 1])).count(v) == seats_cards(s).add(seat_cards(Some(np))).count(
                        v,
                    ));
                    assert(seats_cards(s).add(d.to_multiset()).count(v) == seats_cards(seats).add(deck.to_multiset()).count(v));
                    assert(slot_cards(c0).add(d1.to_multiset()).count(v) == d.to_multiset().count(v));
                    assert(slot_cards(c1).add(d3.to_multiset()).count(v) == d1.to_multiset().count(v));
                }
                assert(seats_cards(s2).add(d2.to_multiset()) =~= seats_cards(seats).add(deck.to_multiset()));
            },
            None => {},
        }
    }
}

proof fn lemma_start_prefix_hands(m: TableModel)
    requires
        start_ok(m),
        start_error(m) is None,
    ensures
        keeps_hands(start_seats(m.seats), start_prefix(m).seats),
{
    lemma_start_blinds(m);
    let m2 = start_positions(m);
    let sb = m2.small_blind_pos as int;
    let bb = m2.big_blind_pos as int;
    let p1 = post_amount_model(m2, sb, m2.small_blind_amount).0;
    lemma_post_hands(m2, sb, m2.small_blind_amount);
    let m3 = start_after_small_blind(m);
    assert(m3 == unmark_acted(p1, sb));
    assert(keeps_hands(p1.seats, m3.seats));
    assert(m3.seats[bb] is Some);
    let p2 = post_amount_model(m3, bb, m3.big_blind_amount).0;
    lemma_post_hands(m3, bb, m3.big_blind_amount);
    let m4 = start_after_big_blind(m);
    assert(m4 == unmark_acted(p2, bb));
    assert(keeps_hands(p2.seats, m4.seats));
    assert(keeps_hands(m2.seats, m4.seats));
    assert(start_prefix(m).seats == m4.seats);
}

/// Starting a hand gathers the 52 cards again: the players' hands are
/// emptied, the board cleared, and the hole cards are dealt from a freshly
/// shuffled deck.
pub proof fn lemma_start_keeps_cards(m: TableModel, hand_id: Seq<char>, shuffled: Seq<AtlasCard>)
    requires
        start_ok(m),
        start_error(m) is None,
        is_full_deck_permutation(shuffled),
    ensures
        cards_kept(start_model(m, hand_id, shuffled)),
{
    let s = start_seats(m.seats);
    let m5 = start_prefix(m);
    lemma_start_prefix_hands(m);
    assert forall|j: int| 0 <= j < m5.seats.len() && (#[trigger] m5.seats[j]) is Some implies m5.seats[j]->0.hand_cards
        == seq![None::<AtlasCard>, None] by {
        assert(s[j] is Some);
        assert(s[j]->0.hand_cards =~= seq![None::<AtlasCard>, None]);
    }
    assert forall|j: int| 0 <= j < m5.seats.len() implies #[trigger] seat_cards(m5.seats[j]) == Multiset::<AtlasCard>::empty() by {
        lemma_two_slots(None, None);
    }
    lemma_seats_empty(m5.seats);
    lemma_deal_holes_cards(m5.seats, shuffled, m5.seats.len() as int);
    let fin = start_model(m, hand_id, shuffled);
    lemma_slots_empty(fin.community_cards);
    let dealt = deal_holes(m5.seats, shuffled, m5.seats.len() as int);
    assert(fin.seats == dealt.0 && fin.deck == dealt.1);
    assert forall|v: AtlasCard| #[trigger] cards_in_play(fin).count(v) == full_deck().to_multiset().count(v) by {
        assert(seats_cards(dealt.0).add(dealt.1.to_multiset()).count(v) == seats_cards(m5.seats).add(shuffled.to_multiset()).count(v));
    }
    assert(cards_in_play(fin) =~= full_deck().to_multiset());
}

/// A new table holds the 52 cards of a fresh deck, none dealt.
pub proof fn lemma_new_table_cards(id: Seq<char>, size: nat, small_blind: u64, big_blind: u64)
    ensures
        cards_kept(new_table_model(id, size, small_blind, big_blind)),
{
    let m = new_table_model(id, size, small_blind, big_blind);
    lemma_seats_empty(m.seats);
    lemma_slots_empty(m.community_cards);
    assert(cards_in_play(m) =~= full_deck().to_multiset());
}

/// A player sits down with no cards, so the cards at the table stay as they
/// were.
pub proof fn lemma_sit_keeps_cards(m: TableModel, seat: int, p: PlayerModel)
    ensures
        cards_in_play(sit_model(m, seat, p).0) == cards_in_play(m),
        sit_model(m, seat, p).0.community_cards == m.community_cards,
        sit_model(m, seat, p).0.street == m.street,
        cards_kept(m) ==> cards_kept(sit_model(m, seat, p).0),
{
    let r = sit_model(m, seat, p).0;
    if r != m {
        lemma_seats_update(m.seats, seat, Some(seated_fresh(p)));
        lemma_two_slots(None, None);
        assert(seated_fresh(p).hand_cards == seq![None::<AtlasCard>, None]);
        assert(seats_cards(r.seats) =~= seats_cards(m.seats)) by {
            assert forall|v: AtlasCard| #[trigger] seats_cards(r.seats).count(v) == seats_cards(m.seats).count(v) by {
                assert(seats_cards(r.seats).add(seat_cards(m.seats[seat])).count(v) == seats_cards(m.seats).add(
                    seat_cards(Some(seated_fresh(p))),
                ).count(v));
            }
        }
    }
}

/// The hole cards of a leaving player leave the table with them; every other
/// card stays. A refused request changes nothing.
pub proof fn lemma_leave_cards(m: TableModel, id: Seq<char>)
    ensures
        leave_model(m, id).1 is Err ==> leave_model(m, id).0 == m,
        leave_model(m, id).1 is Ok ==> cards_in_play(leave_model(m, id).0).add(seat_cards(m.seats[find_seat(m.seats, id)->0]))
            == cards_in_play(m),
        leave_model(m, id).0.community_cards == m.community_cards,
        leave_model(m, id).0.street == m.street,
{
    if find_seat(m.seats, id) is Some {
        let seat = find_seat(m.seats, id)->0;
        lemma_find_seat_from(m.seats, id, 0);
        let r = leave_model(m, id).0;
        lemma_seats_update(m.seats, seat, None);
        assert forall|v: AtlasCard| #[trigger] cards_in_play(r).add(seat_cards(m.seats[seat])).count(v) == cards_in_play(m).count(v) by {
            assert(seats_cards(r.seats).add(seat_cards(m.seats[seat])).count(v) == seats_cards(m.seats).add(
                seat_cards(None),
            ).count(v));
        }
        assert(cards_in_play(r).add(seat_cards(m.seats[seat])) =~= cards_in_play(m));
    }
}

} // verus!
