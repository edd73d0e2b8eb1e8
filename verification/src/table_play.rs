use vstd::prelude::*;
use crate::player::{PlayerAct, PlayerModel, available_for};
use crate::table::{Table, TableModel, TableState, TableStreet, TableError, seat_eligible, next_seat,
    some_seat_eligible, find_seat, round_complete, post_amount_model, post_amount_fits, sum_total_bets, sum_balances};
use crate::table_act::pop_card;
use crate::pot::{pots_for, settle_model, contenders_ranked, paid_total};
use crate::text::push_text;
use crate::evaluate::{evaluate_model, evaluate_ok};

verus! {

/// How many betting rounds follow this one.
pub open spec fn street_rank(s: TableStreet) -> nat {
    match s {
        TableStreet::PreFlop => 3,
        TableStreet::Flop => 2,
        TableStreet::Turn => 1,
        TableStreet::River => 0,
    }
}

/// Seats with the per-round state cleared: no bet this round, not acted.
pub open spec fn clear_round_seats(seats: Seq<Option<PlayerModel>>) -> Seq<Option<PlayerModel>> {
    Seq::new(seats.len(), |i: int| match seats[i] {
        Some(p) => Some(PlayerModel { street_bet: 0, has_acted: false, acted_view: seq![], ..p }),
        None => None,
    })
}

/// A betting round is closed: it is logged and the per-round state cleared.
pub open spec fn close_round(m: TableModel) -> TableModel {
    TableModel { street_log: m.street_log.push(m.street), seats: clear_round_seats(m.seats), ..m }
}

/// The board cards of the next street are dealt from the top of the deck:
/// three for the flop, one for the turn, one for the river.
pub open spec fn deal_board(m: TableModel) -> TableModel {
    match m.street {
        TableStreet::PreFlop => {
            let (c0, d0) = pop_card(m.deck);
            let (c1, d1) = pop_card(d0);
            let (c2, d2) = pop_card(d1);
            TableModel {
                community_cards: m.community_cards.update(0, c0).update(1, c1).update(2, c2),
                deck: d2,
                street: TableStreet::Flop,
                ..m
            }
        },
        TableStreet::Flop => {
            let (c3, d3) = pop_card(m.deck);
            TableModel { community_cards: m.community_cards.update(3, c3), deck: d3, street: TableStreet::Turn, ..m }
        },
        TableStreet::Turn => {
            let (c4, d4) = pop_card(m.deck);
            TableModel { community_cards: m.community_cards.update(4, c4), deck: d4, street: TableStreet::River, ..m }
        },
        TableStreet::River => m,
    }
}

/// A new betting round opens: nobody has bet, the dealer counts as last raiser.
pub open spec fn open_round(m: TableModel) -> TableModel {
    TableModel { last_raiser_pos: m.dealer_pos, current_bet: 0, ..m }
}

pub open spec fn with_turn_after_dealer(m: TableModel) -> TableModel {
    TableModel {
        current_turn: match next_seat(m.seats, m.dealer_pos as int) {
            Some(j) => j as usize,
            None => m.dealer_pos,
        },
        ..m
    }
}

/// Closing a betting round: log it, clear it, go to the next street.
pub open spec fn end_round_model(m: TableModel) -> TableModel
    decreases street_rank(m.street), 1nat,
{
    advance_model(close_round(m))
}

/// Going to the next street. After the river the hand concludes and the pots
/// are built and paid. Otherwise the next board cards are dealt, the hands
/// evaluated and a new round opened; if nobody can act in it, it closes at
/// once. The turn then goes to the first seat after the dealer that may act.
pub open spec fn advance_model(m: TableModel) -> TableModel
    decreases street_rank(m.street), 0nat,
{
    if m.street == TableStreet::River {
        let m1 = TableModel { state: TableState::Concluding, ..m };
        settle_model(m1, pots_for(m1.seats))
    } else {
        let m3 = open_round(evaluate_model(deal_board(m)));
        let m4 = if round_complete(m3.seats) {
            end_round_model(m3)
        } else {
            m3
        };
        with_turn_after_dealer(m4)
    }
}

/// `end_round_model` can be carried out without a failure.
pub open spec fn end_round_ok(m: TableModel) -> bool
    decreases street_rank(m.street), 1nat,
{
    advance_ok(close_round(m))
}

/// `advance_model` can be carried out without a failure: the pots fit in
/// their counters and every contender's hand is evaluated; the hands can be
/// ranked; the search for the next seat terminates.
pub open spec fn advance_ok(m: TableModel) -> bool
    decreases street_rank(m.street), 0nat,
{
    if m.street == TableStreet::River {
        let pots = pots_for(m.seats);
        &&& sum_total_bets(m.seats) <= u64::MAX
        &&& contenders_ranked(m.seats, pots)
        &&& sum_balances(m.seats) + paid_total(pots) <= u64::MAX
    } else {
        let m1 = deal_board(m);
        let m3 = open_round(evaluate_model(m1));
        let m4 = if round_complete(m3.seats) {
            end_round_model(m3)
        } else {
            m3
        };
        &&& evaluate_ok(m1)
        &&& round_complete(m3.seats) ==> end_round_ok(m3)
        &&& m4.seats.len() > 0
        &&& m4.dealer_pos < usize::MAX
        &&& (m4.dealer_pos < m4.seats.len() || some_seat_eligible(m4.seats))
    }
}

/// The player of `seat` with a new state.
pub open spec fn set_seat(m: TableModel, seat: int, p: PlayerModel) -> TableModel {
    TableModel { seats: m.seats.update(seat, Some(p)), ..m }
}

/// Why an action is refused in the current betting situation, if it is:
/// checking and betting need an unopened round, calling and raising an opened
/// one, a bet must be above zero and a raise at least the amount to call.
pub open spec fn action_error(m: TableModel, seat: int, action: PlayerAct) -> Option<TableError> {
    let p = m.seats[seat]->0;
    match action {
        PlayerAct::Fold => None,
        PlayerAct::Check => if m.current_bet != 0 { Some(TableError::InvalidAction) } else { None },
        PlayerAct::Call => if m.current_bet == 0 { Some(TableError::InvalidAction) } else { None },
        PlayerAct::Bet(a) => if m.current_bet != 0 || a == 0 { Some(TableError::InvalidAction) } else { None },
        PlayerAct::Raise(a) => if m.current_bet == 0 || a < m.current_bet - p.street_bet {
            Some(TableError::InvalidAction)
        } else {
            None
        },
    }
}

/// Carries out an accepted action of the player of `seat`. A fold leaves the
/// hand; a call puts in what is missing to the round's bet; a bet puts in
/// its amount; a raise brings the player's round bet to its amount. The flag
/// tells whether a bet or raise raised the round's bet.
pub open spec fn apply_action(m: TableModel, seat: int, action: PlayerAct) -> (TableModel, bool) {
    let p = m.seats[seat]->0;
    match action {
        PlayerAct::Fold => (set_seat(m, seat, PlayerModel { is_active: false, has_acted: true, acted_view: "fold"@, ..p }), false),
        PlayerAct::Check => (set_seat(m, seat, PlayerModel { has_acted: true, acted_view: "check"@, ..p }), false),
        PlayerAct::Call => (
            post_amount_model(set_seat(m, seat, PlayerModel { acted_view: "call"@, ..p }), seat, (m.current_bet - p.street_bet) as u64).0,
            false,
        ),
        PlayerAct::Bet(a) => post_amount_model(set_seat(m, seat, PlayerModel { acted_view: "bet"@, ..p }), seat, a),
        PlayerAct::Raise(a) => post_amount_model(set_seat(m, seat, PlayerModel { acted_view: "raise"@, ..p }), seat, (a - p.street_bet) as u64),
    }
}

/// After a bet or raise, everyone but the bettor has to act again.
pub open spec fn reopen_seats(seats: Seq<Option<PlayerModel>>, seat: int) -> Seq<Option<PlayerModel>> {
    Seq::new(seats.len(), |i: int| if i == seat {
        seats[i]
    } else {
        match seats[i] {
            Some(p) => Some(PlayerModel { has_acted: false, ..p }),
            None => None,
        }
    })
}

/// The line that the action log records for an action of `p`, with the
/// way `p` acted.
pub open spec fn act_line(hand_id: Seq<char>, p: PlayerModel) -> Seq<char> {
    "HAND "@ + hand_id + " | ["@ + p.nickname + "] act "@ + p.acted_view + " "@
}

/// The table after an accepted action, before the round is checked: the
/// action is carried out and logged, and after a bet or raise the others
/// have to act again.
pub open spec fn after_action(m: TableModel, seat: int, action: PlayerAct) -> TableModel {
    let (m0, reopened) = apply_action(m, seat, action);
    let m1 = TableModel { act_log: m0.act_log.push(act_line(m0.hand_id, m0.seats[seat]->0)), ..m0 };
    if reopened {
        TableModel { seats: reopen_seats(m1.seats, seat), ..m1 }
    } else {
        m1
    }
}

/// Why `act` refuses before changing anything, if it does: the table is not
/// in a hand, the player is not seated, it is not their turn, they cannot act
/// (folded or all-in), or the action is not allowed now.
pub open spec fn act_refusal(m: TableModel, id: Seq<char>, action: PlayerAct) -> Option<TableError> {
    if m.state != TableState::Battling {
        Some(TableError::InvalidState)
    } else {
        match find_seat(m.seats, id) {
            None => Some(TableError::PlayerNotAtTable),
            Some(seat) => if seat != m.current_turn {
                Some(TableError::InvalidSeat)
            } else if !seat_eligible(m.seats[seat]) {
                Some(TableError::InvalidAction)
            } else {
                action_error(m, seat, action)
            },
        }
    }
}

/// The player `id` acts. A refused action changes nothing. Otherwise the
/// action is carried out; if the betting round is then over, it is closed
/// and the hand moves on, else the turn passes to the next seat that may act
/// (and if there is none, the action stands but `InvalidState` is returned).
/// On success the available actions are set for the new situation.
pub open spec fn act_model(m: TableModel, id: Seq<char>, action: PlayerAct) -> (TableModel, Result<(), TableError>) {
    match act_refusal(m, id, action) {
        Some(e) => (m, Err(e)),
        None => {
            let seat = find_seat(m.seats, id)->0;
            let m2 = after_action(m, seat, action);
            if round_complete(m2.seats) {
                let m3 = end_round_model(m2);
                (TableModel { current_turn_act: available_for(m3.current_bet), ..m3 }, Ok(()))
            } else {
                match next_seat(m2.seats, m2.current_turn as int) {
                    None => (m2, Err(TableError::InvalidState)),
                    Some(j) => (TableModel { current_turn: j as usize, current_turn_act: available_for(m2.current_bet), ..m2 }, Ok(())),
                }
            }
        },
    }
}

/// `act` can be carried out without a failure: amounts to call or raise do
/// not go below zero, chips fit in their counters, and closing the round
/// can be carried out.
pub open spec fn act_ok(m: TableModel, id: Seq<char>, action: PlayerAct) -> bool {
    act_refusal(m, id, action) is None ==> {
        let seat = find_seat(m.seats, id)->0;
        let p = m.seats[seat]->0;
        let m1 = apply_action(m, seat, action).0;
        let m2 = after_action(m, seat, action);
        &&& match action {
            PlayerAct::Call => p.street_bet <= m.current_bet && post_amount_fits(m, seat, (m.current_bet - p.street_bet) as u64),
            PlayerAct::Bet(a) => post_amount_fits(m, seat, a),
            PlayerAct::Raise(a) => p.street_bet <= m.current_bet && a >= p.street_bet && post_amount_fits(m, seat, (a - p.street_bet) as u64),
            _ => true,
        }
        &&& round_complete(m2.seats) ==> end_round_ok(m2)
    }
}

impl Table {
    fn clear_round_state(&mut self)
        ensures
            final(self)@ == (TableModel { seats: clear_round_seats(old(self)@.seats), ..old(self)@ }),
    {
        let ghost m = self@;
        let ghost target = clear_round_seats(m.seats);
        let mut i: usize = 0;
        while i < self.seats.len()
            invariant
                i <= m.seats.len(),
                target == clear_round_seats(m.seats),
                self@.seats.len() == m.seats.len(),
                forall|j: int| 0 <= j < m.seats.len() ==> #[trigger] self@.seats[j] == if j < i { target[j] } else { m.seats[j] },
                self@ == (TableModel { seats: self@.seats, ..m }),
            decreases m.seats.len() - i,
        {
            let ghost prev = self.seats@;
            let ghost prev_model = self@.seats;
            proof {
                assert(prev_model[i as int] == m.seats[i as int]);
            }
            match &mut self.seats[i] {
                Some(p) => {
                    p.street_bet = 0;
                    p.has_acted = false;
                    p.acted_view = String::new();
                },
                None => {},
            }
            proof {
                if prev[i as int] is Some {
                    assert(self@.seats[i as int]->0.acted_view =~= seq![]);
                }
                assert(self@.seats[i as int] == target[i as int]);
                assert forall|j: int| 0 <= j < m.seats.len() implies #[trigger] self@.seats[j] == if j < i + 1 { target[j] } else { m.seats[j] } by {
                    if j != i {
                        assert(prev_model[j] == if j < i { target[j] } else { m.seats[j] });
                        assert(self.seats@[j] == prev[j]);
                    }
                }
            }
            i = i + 1;
        }
        proof {
            assert(self@.seats =~= target);
        }
    }

    fn set_acted_view(&mut self, seat: usize, label: &str)
        requires
            seat < old(self)@.seats.len(),
            old(self)@.seats[seat as int] is Some,
        ensures
            final(self)@ == set_seat(old(self)@, seat as int, PlayerModel { acted_view: label@, ..old(self)@.seats[seat as int]->0 }),
    {
        match &mut self.seats[seat] {
            Some(p) => {
                p.acted_view = label.to_owned();
            },
            None => {},
        }
        proof {
            assert(self@.seats =~= old(self)@.seats.update(seat as int, Some(PlayerModel { acted_view: label@, ..old(self)@.seats[seat as int]->0 })));
        }
    }

    fn reopen_betting(&mut self, seat: usize)
        ensures
            final(self)@ == (TableModel { seats: reopen_seats(old(self)@.seats, seat as int), ..old(self)@ }),
    {
        let ghost m = self@;
        let ghost target = reopen_seats(m.seats, seat as int);
        let mut i: usize = 0;
        while i < self.seats.len()
            invariant
                i <= m.seats.len(),
                target == reopen_seats(m.seats, seat as int),
                self@.seats.len() == m.seats.len(),
                forall|j: int| 0 <= j < m.seats.len() ==> #[trigger] self@.seats[j] == if j < i { target[j] } else { m.seats[j] },
                self@ == (TableModel { seats: self@.seats, ..m }),
            decreases m.seats.len() - i,
        {
            let ghost prev = self.seats@;
            let ghost prev_model = self@.seats;
            proof {
                assert(prev_model[i as int] == m.seats[i as int]);
            }
            if i != seat {
                match &mut self.seats[i] {
                    Some(p) => {
                        p.has_acted = false;
                    },
                    None => {},
                }
            }
            proof {
                assert(self@.seats[i as int] == target[i as int]);
                assert forall|j: int| 0 <= j < m.seats.len() implies #[trigger] self@.seats[j] == if j < i + 1 { target[j] } else { m.seats[j] } by {
                    if j != i {
                        assert(prev_model[j] == if j < i { target[j] } else { m.seats[j] });
                        assert(self.seats@[j] == prev[j]);
                    }
                }
            }
            i = i + 1;
        }
        proof {
            assert(self@.seats =~= target);
        }
    }

    fn apply_action_exec(&mut self, seat: usize, action: PlayerAct, street_bet: u64) -> (r: Result<bool, TableError>)
        requires
            seat < old(self)@.seats.len(),
            old(self)@.seats[seat as int] is Some,
            street_bet == old(self)@.seats[seat as int]->0.street_bet,
            ({
                let m = old(self)@;
                let p = m.seats[seat as int]->0;
                action_error(m, seat as int, action) is None ==> match action {
                    PlayerAct::Call => p.street_bet <= m.current_bet && post_amount_fits(m, seat as int, (m.current_bet - p.street_bet) as u64),
                    PlayerAct::Bet(a) => post_amount_fits(m, seat as int, a),
                    PlayerAct::Raise(a) => p.street_bet <= m.current_bet && a >= p.street_bet && post_amount_fits(m, seat as int, (a - p.street_bet) as u64),
                    _ => true,
                }
            }),
            action is Raise && old(self)@.current_bet != 0 ==> street_bet <= old(self)@.current_bet,
        ensures
            action_error(old(self)@, seat as int, action) matches Some(e) ==> r == Err::<bool, TableError>(e) && final(self)@ == old(self)@,
            action_error(old(self)@, seat as int, action) is None ==> r == Ok::<bool, TableError>(apply_action(old(self)@, seat as int, action).1)
                && final(self)@ == apply_action(old(self)@, seat as int, action).0,
    {
        let ghost m = self@;
        let mut reopened_betting = false;
        match action {
            PlayerAct::Fold => {
                match &mut self.seats[seat] {
                    Some(p) => {
                        p.is_active = false;
                        p.has_acted = true;
                        p.acted_view = "fold".to_owned();
                    },
                    None => {},
                }
                proof {
                    assert(self@.seats =~= apply_action(m, seat as int, action).0.seats);
                }
            },
            PlayerAct::Check => {
                if self.current_bet != 0 {
                    return Err(TableError::InvalidAction);
                }
                match &mut self.seats[seat] {
                    Some(p) => {
                        p.has_acted = true;
                        p.acted_view = "check".to_owned();
                    },
                    None => {},
                }
                proof {
                    assert(self@.seats =~= apply_action(m, seat as int, action).0.seats);
                }
            },
            PlayerAct::Call => {
                if self.current_bet == 0 {
                    return Err(TableError::InvalidAction);
                }
                self.set_acted_view(seat, "call");
                let need = self.current_bet - street_bet;
                self.post_amount(seat, need);
            },
            PlayerAct::Bet(amount) => {
                if self.current_bet != 0 || amount == 0 {
                    return Err(TableError::InvalidAction);
                }
                self.set_acted_view(seat, "bet");
                reopened_betting = self.post_amount(seat, amount);
            },
            PlayerAct::Raise(amount) => {
                if self.current_bet == 0 {
                    return Err(TableError::InvalidAction);
                }
                if amount < self.current_bet - street_bet {
                    return Err(TableError::InvalidAction);
                }
                self.set_acted_view(seat, "raise");
                let need = amount - street_bet;
                reopened_betting = self.post_amount(seat, need);
            },
        }
        proof {
            assert(self@ == apply_action(m, seat as int, action).0);
        }
        Ok(reopened_betting)
    }

    /// Whether the chips of an accepted action fit in their counters (and
    /// the amount to call or raise does not go below zero).
    fn action_fits(&self, seat: usize, action: PlayerAct, street_bet: u64) -> (r: bool)
        requires
            seat < self@.seats.len(),
            self@.seats[seat as int] is Some,
            street_bet == self@.seats[seat as int]->0.street_bet,
        ensures
            r == ({
                let m = self@;
                let p = m.seats[seat as int]->0;
                action_error(m, seat as int, action) is None ==> match action {
                    PlayerAct::Call => p.street_bet <= m.current_bet && post_amount_fits(m, seat as int, (m.current_bet - p.street_bet) as u64),
                    PlayerAct::Bet(a) => post_amount_fits(m, seat as int, a),
                    PlayerAct::Raise(a) => p.street_bet <= m.current_bet && a >= p.street_bet && post_amount_fits(m, seat as int, (a - p.street_bet) as u64),
                    _ => true,
                }
            }),
    {
        match action {
            PlayerAct::Call => {
                if self.current_bet == 0 {
                    return true;
                }
                street_bet <= self.current_bet && self.can_post(seat, self.current_bet - street_bet)
            },
            PlayerAct::Bet(a) => {
                if self.current_bet != 0 || a == 0 {
                    return true;
                }
                self.can_post(seat, a)
            },
            PlayerAct::Raise(a) => {
                if self.current_bet == 0 {
                    return true;
                }
                if street_bet > self.current_bet {
                    return false;
                }
                if a < self.current_bet - street_bet {
                    return true;
                }
                a >= street_bet && self.can_post(seat, a - street_bet)
            },
            _ => true,
        }
    }

    /// Carries out `act` where it can run to the end, and says so; `None`
    /// where it cannot (see `act_ok`), with the table in an unspecified state.
    fn act_inner(&mut self, player_id: &String, action: PlayerAct) -> (r: Option<Result<(), TableError>>)
        ensures
            r is Some == act_ok(old(self)@, player_id@, action),
            r matches Some(x) ==> (final(self)@, x) == act_model(old(self)@, player_id@, action),
    {
        let ghost m = self@;
        if self.state != TableState::Battling {
            return Some(Err(TableError::InvalidState));
        }
        let seat = match self.find_seat_index_by_player_id(player_id.as_str()) {
            Some(s) => s,
            None => {
                return Some(Err(TableError::PlayerNotAtTable));
            },
        };
        proof {
            crate::table::lemma_find_seat_from(m.seats, player_id@, 0);
        }
        if seat != self.current_turn {
            return Some(Err(TableError::InvalidSeat));
        }
        let (player_active, street_bet) = match &self.seats[seat] {
            Some(p) => (p.is_active && !p.is_all_in, p.street_bet),
            None => (false, 0),
        };
        if !player_active {
            return Some(Err(TableError::InvalidAction));
        }
        if !self.action_fits(seat, action, street_bet) {
            return None;
        }
        let reopened_betting = match self.apply_action_exec(seat, action, street_bet) {
            Ok(b) => b,
            Err(e) => {
                return Some(Err(e));
            },
        };
        let line = self.act_line_of(seat);
        self.write_act_log(line);
        if reopened_betting {
            self.reopen_betting(seat);
        }
        proof {
            assert(self@ == after_action(m, seat as int, action));
        }
        let n_seats = self.seats.len();
        proof {
            assert(self@.current_turn == m.current_turn);
            assert(self@.seats.len() == m.seats.len());
            assert(self.current_turn < n_seats);
        }
        if self.betting_round_complete() {
            if !self.end_betting_round() {
                return None;
            }
        } else {
            self.current_turn = match self.next_occupied_seat(self.current_turn) {
                Some(j) => j,
                None => {
                    return Some(Err(TableError::InvalidState));
                },
            };
        }
        self.current_turn_act.set_available(self.current_bet);
        Some(Ok(()))
    }

    /// The log line of the player in `seat`; see `act_line`.
    fn act_line_of(&self, seat: usize) -> (r: String)
        requires
            seat < self@.seats.len(),
            self@.seats[seat as int] is Some,
        ensures
            r@ == act_line(self@.hand_id, self@.seats[seat as int]->0),
    {
        let mut line = String::new();
        match &self.seats[seat] {
            Some(p) => {
                push_text(&mut line, "HAND ");
                push_text(&mut line, self.hand_id.as_str());
                push_text(&mut line, " | [");
                push_text(&mut line, p.nickname.as_str());
                push_text(&mut line, "] act ");
                push_text(&mut line, p.acted_view.as_str());
                push_text(&mut line, " ");
            },
            None => {},
        }
        proof {
            assert(line@ =~= act_line(self@.hand_id, self@.seats[seat as int]->0));
        }
        line
    }

    /// Records the street whose betting round closes.
    fn write_street_log(&mut self)
        ensures
            final(self)@ == (TableModel { street_log: old(self)@.street_log.push(old(self)@.street), ..old(self)@ }),
    {
        self.street_log.push(self.street);
    }

    /// Adds a line to the action log.
    fn write_act_log(&mut self, line: String)
        ensures
            final(self)@ == (TableModel { act_log: old(self)@.act_log.push(line@), ..old(self)@ }),
    {
        self.act_log.push(line);
        proof {
            assert(self@.act_log =~= old(self)@.act_log.push(line@));
        }
    }

    /// The player `player_id` takes `action` on their turn; see `act_model`.
    pub fn act(&mut self, player_id: String, action: PlayerAct) -> (r: Result<(), TableError>)
        requires
            act_ok(old(self)@, player_id@, action),
        ensures
            (final(self)@, r) == act_model(old(self)@, player_id@, action),
    {
        match self.act_inner(&player_id, action) {
            Some(r) => r,
            None => Err(TableError::InvalidState),
        }
    }

    /// Whether `act(player_id, action)` can run to the end; see `act_ok`.
    pub fn can_act(&self, player_id: &String, action: PlayerAct) -> (r: bool)
        ensures
            r == act_ok(self@, player_id@, action),
    {
        let mut t = self.duplicate();
        t.act_inner(player_id, action).is_some()
    }

    /// Closes the betting round: logs it, clears each player's bet and action
    /// of the round, and goes to the next street. Says whether this could run
    /// to the end; see `end_round_ok`.
    fn end_betting_round(&mut self) -> (ok: bool)
        ensures
            ok == end_round_ok(old(self)@),
            ok ==> final(self)@ == end_round_model(old(self)@),
        decreases street_rank(old(self)@.street), 1nat,
    {
        let ghost m = self@;
        self.write_street_log();
        self.clear_round_state();
        proof {
            assert(self@ == close_round(m));
        }
        self.advance_street()
    }

    /// Goes to the next street; see `advance_model`. Says whether this could
    /// run to the end; see `advance_ok`.
    fn advance_street(&mut self) -> (ok: bool)
        ensures
            ok == advance_ok(old(self)@),
            ok ==> final(self)@ == advance_model(old(self)@),
        decreases street_rank(old(self)@.street), 0nat,
    {
        let ghost m = self@;
        match self.street {
            TableStreet::PreFlop => {
                let c0 = self.deck.deal_one();
                let c1 = self.deck.deal_one();
                let c2 = self.deck.deal_one();
                self.community_cards[0] = c0;
                self.community_cards[1] = c1;
                self.community_cards[2] = c2;
                self.street = TableStreet::Flop;
            },
            TableStreet::Flop => {
                let c3 = self.deck.deal_one();
                self.community_cards[3] = c3;
                self.street = TableStreet::Turn;
            },
            TableStreet::Turn => {
                let c4 = self.deck.deal_one();
                self.community_cards[4] = c4;
                self.street = TableStreet::River;
            },
            TableStreet::River => {
                self.state = TableState::Concluding;
                if self.bet_total().is_none() {
                    return false;
                }
                let pots = self.build_pots();
                if !self.can_settle(&pots) {
                    return false;
                }
                self.settle_pots(pots);
                return true;
            },
        }
        proof {
            assert(self@.community_cards =~= deal_board(m).community_cards);
            assert(self@ == deal_board(m));
        }
        if !self.can_evaluate() {
            return false;
        }
        self.evaluate_hands();
        self.last_raiser_pos = self.dealer_pos;
        self.current_bet = 0;
        let ghost m3 = self@;
        proof {
            assert(m3 == open_round(evaluate_model(deal_board(m))));
        }
        if self.betting_round_complete() {
            if !self.end_betting_round() {
                return false;
            }
        }
        if !self.can_walk_from(self.dealer_pos) {
            return false;
        }
        self.current_turn = match self.next_occupied_seat(self.dealer_pos) {
            Some(j) => j,
            None => self.dealer_pos,
        };
        true
    }
}

} // verus!
