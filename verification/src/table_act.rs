use vstd::prelude::*;
use crate::card::AtlasCard;
use crate::deck::{AtlasDeck, full_deck, is_full_deck_permutation};
use crate::ids::new_ulid_string;
use crate::player::{Player, PlayerModel, PlayerAvailableAct, reset_model};
use crate::table::{Table, TableModel, TableState, TableStreet, TableError, find_seat,
    next_seat, count_seated, post_amount_model, post_amount_fits, some_seat_eligible};

verus! {

/// A table of `size` empty seats, waiting for players, with a fresh deck.
pub open spec fn new_table_model(id: Seq<char>, size: nat, small_blind: u64, big_blind: u64) -> TableModel {
    TableModel {
        id,
        seats: Seq::new(size, |i: int| None),
        state: TableState::Waiting,
        hand_id: seq![],
        street: TableStreet::PreFlop,
        small_blind_amount: small_blind,
        big_blind_amount: big_blind,
        pot: 0,
        current_bet: 0,
        dealer_pos: 0,
        small_blind_pos: 0,
        big_blind_pos: 0,
        current_turn: 0,
        current_turn_act: PlayerAvailableAct { fold: false, call: false, check: false, bet: false, raise: false },
        last_raiser_pos: 0,
        deck: full_deck(),
        community_cards: seq![None, None, None, None, None],
        table_log: seq![],
        act_log: seq![],
        street_log: seq![],
    }
}

/// A player as they sit down: no cards, no bets, not in the current hand.
pub open spec fn seated_fresh(p: PlayerModel) -> PlayerModel {
    PlayerModel {
        hand_cards: seq![None, None],
        sit_out: false,
        win: false,
        cards_rank: None,
        is_active: false,
        has_acted: false,
        is_all_in: false,
        street_bet: 0,
        total_bet: 0,
        ..p
    }
}

/// The smallest and largest buy-in: 20 and 100 big blinds.
pub open spec fn min_buy_in(m: TableModel) -> int {
    m.big_blind_amount * 20
}

pub open spec fn max_buy_in(m: TableModel) -> int {
    m.big_blind_amount * 100
}

/// `sit` reaches the buy-in check.
pub open spec fn sit_checks_buy_in(m: TableModel, seat: int, p: PlayerModel) -> bool {
    0 <= seat < m.seats.len() && find_seat(m.seats, p.id) is None && m.seats[seat] is None
}

/// Seating `p` in `seat`: refused for a seat out of range, accepted without
/// change when the player already sits at the table, refused for a taken
/// seat and for a buy-in outside 20 to 100 big blinds.
pub open spec fn sit_model(m: TableModel, seat: int, p: PlayerModel) -> (TableModel, Result<(), TableError>) {
    if seat < 0 || seat >= m.seats.len() {
        (m, Err(TableError::InvalidSeat))
    } else if find_seat(m.seats, p.id) is Some {
        (m, Ok(()))
    } else if m.seats[seat] is Some {
        (m, Err(TableError::SeatOccupied))
    } else if p.balance < min_buy_in(m) || p.balance > max_buy_in(m) {
        (m, Err(TableError::InvalidBuyIn {
            min: min_buy_in(m) as u64,
            max: max_buy_in(m) as u64,
            actual: p.balance,
        }))
    } else {
        (TableModel { seats: m.seats.update(seat, Some(seated_fresh(p))), ..m }, Ok(()))
    }
}

/// The player `id` leaves: their seat is emptied.
pub open spec fn leave_model(m: TableModel, id: Seq<char>) -> (TableModel, Result<(), TableError>) {
    match find_seat(m.seats, id) {
        None => (m, Err(TableError::PlayerNotAtTable)),
        Some(seat) => (TableModel { seats: m.seats.update(seat, None), ..m }, Ok(())),
    }
}

/// The seats as a new hand starts: players who asked to sit out leave, the
/// others are reset.
pub open spec fn start_seats(seats: Seq<Option<PlayerModel>>) -> Seq<Option<PlayerModel>> {
    Seq::new(seats.len(), |i: int| match seats[i] {
        Some(p) => if p.sit_out { None } else { Some(reset_model(p)) },
        None => None,
    })
}

/// The player of seat `i` has not acted yet.
pub open spec fn unmark_acted(m: TableModel, i: int) -> TableModel {
    TableModel { seats: m.seats.update(i, Some(PlayerModel { has_acted: false, ..m.seats[i]->0 })), ..m }
}

/// The table once a new hand is set up, before anyone posts: seats reset,
/// pot and bet cleared, the dealer button moved to the next seat that may
/// act, the small and big blinds on the two seats after it.
pub open spec fn start_positions(m: TableModel) -> TableModel {
    let m1 = TableModel {
        state: TableState::Preparing,
        seats: start_seats(m.seats),
        street: TableStreet::PreFlop,
        pot: 0,
        current_bet: 0,
        ..m
    };
    let dealer = next_seat(m1.seats, m1.dealer_pos as int)->0;
    let sb = next_seat(m1.seats, dealer)->0;
    let bb = next_seat(m1.seats, sb)->0;
    TableModel { dealer_pos: dealer as usize, small_blind_pos: sb as usize, big_blind_pos: bb as usize, ..m1 }
}

/// After the small blind is posted; posting it does not count as acting.
pub open spec fn start_after_small_blind(m: TableModel) -> TableModel {
    let m2 = start_positions(m);
    unmark_acted(post_amount_model(m2, m2.small_blind_pos as int, m2.small_blind_amount).0, m2.small_blind_pos as int)
}

/// After the big blind is posted; posting it does not count as acting.
pub open spec fn start_after_big_blind(m: TableModel) -> TableModel {
    let m3 = start_after_small_blind(m);
    unmark_acted(post_amount_model(m3, m3.big_blind_pos as int, m3.big_blind_amount).0, m3.big_blind_pos as int)
}

/// The table after the first steps of `start`: the blinds posted, the bet to
/// call set to the big blind, and the turn given to the first seat after the
/// big blind that may act.
pub open spec fn start_prefix(m: TableModel) -> TableModel {
    let m4 = start_after_big_blind(m);
    TableModel {
        current_bet: m4.big_blind_amount,
        current_turn: next_seat(m4.seats, m4.big_blind_pos as int)->0 as usize,
        last_raiser_pos: m4.big_blind_pos,
        ..m4
    }
}

/// The top card of a pile, and the pile without it.
pub open spec fn pop_card(deck: Seq<AtlasCard>) -> (Option<AtlasCard>, Seq<AtlasCard>) {
    if deck.len() == 0 {
        (None, deck)
    } else {
        (Some(deck.last()), deck.drop_last())
    }
}

/// Deals two hole cards, one after the other, to each player of the first `n`
/// seats, in seat order.
pub open spec fn deal_holes(seats: Seq<Option<PlayerModel>>, deck: Seq<AtlasCard>, n: int) -> (Seq<Option<PlayerModel>>, Seq<AtlasCard>)
    decreases n,
{
    if n <= 0 {
        (seats, deck)
    } else {
        let (s, d) = deal_holes(seats, deck, n - 1);
        match s[n - 1] {
            Some(p) => {
                let (c0, d1) = pop_card(d);
                let (c1, d2) = pop_card(d1);
                (s.update(n - 1, Some(PlayerModel { hand_cards: p.hand_cards.update(0, c0).update(1, c1), ..p })), d2)
            },
            None => (s, d),
        }
    }
}

/// A new hand with the given id and shuffled deck: `start_prefix`, then two
/// hole cards to each player, an empty board and an empty round log.
pub open spec fn start_model(m: TableModel, hand_id: Seq<char>, shuffled: Seq<AtlasCard>) -> TableModel {
    let m1 = start_prefix(m);
    let (seats, deck) = deal_holes(m1.seats, shuffled, m1.seats.len() as int);
    TableModel {
        seats,
        deck,
        hand_id,
        community_cards: seq![None, None, None, None, None],
        street_log: seq![],
        state: TableState::Battling,
        ..m1
    }
}

/// Why `start` refuses, if it does.
pub open spec fn start_error(m: TableModel) -> Option<TableError> {
    if m.state != TableState::Waiting && m.state != TableState::Concluding {
        Some(TableError::InvalidState)
    } else if count_seated(m.seats) < 2 {
        Some(TableError::NotEnoughPlayers)
    } else {
        None
    }
}

/// `start` can run to the end: each search for the next seat that may act
/// finds one, and posting the blinds does not overflow.
pub open spec fn start_ok(m: TableModel) -> bool {
    start_error(m) is None ==> {
        let s = start_seats(m.seats);
        let dealer = next_seat(s, m.dealer_pos as int);
        &&& m.dealer_pos < usize::MAX
        &&& (m.dealer_pos < s.len() || some_seat_eligible(s))
        &&& dealer is Some
        &&& next_seat(s, dealer->0) is Some
        &&& next_seat(s, next_seat(s, dealer->0)->0) is Some
        &&& post_amount_fits(start_positions(m), start_positions(m).small_blind_pos as int, m.small_blind_amount)
        &&& post_amount_fits(start_after_small_blind(m), start_positions(m).big_blind_pos as int, m.big_blind_amount)
        &&& next_seat(start_after_big_blind(m).seats, start_positions(m).big_blind_pos as int) is Some
    }
}

impl Table {
    fn new(size: usize, small_blind: u64, big_blind: u64) -> (r: Self)
        ensures
            r@ == new_table_model(r@.id, size as nat, small_blind, big_blind),
            r@.id.len() == 26,
    {
        let mut seats: Vec<Option<Player>> = Vec::new();
        let mut i: usize = 0;
        while i < size
            invariant
                i <= size,
                seats@.len() == i,
                forall|j: int| 0 <= j < i ==> seats@[j] is None,
            decreases size - i,
        {
            seats.push(None);
            i = i + 1;
        }
        let t = Table {
            id: new_ulid_string(),
            seats,
            state: TableState::Waiting,
            hand_id: String::new(),
            street: TableStreet::PreFlop,
            small_blind_amount: small_blind,
            big_blind_amount: big_blind,
            pot: 0,
            current_bet: 0,
            dealer_pos: 0,
            small_blind_pos: 0,
            big_blind_pos: 0,
            current_turn: 0,
            current_turn_act: PlayerAvailableAct::none(),
            last_raiser_pos: 0,
            deck: AtlasDeck::new(),
            community_cards: [None, None, None, None, None],
            table_log: Vec::new(),
            act_log: Vec::new(),
            street_log: Vec::new(),
        };
        proof {
            assert(t@.seats =~= Seq::new(size as nat, |i: int| None));
            assert(t@.community_cards =~= seq![None, None, None, None, None]);
            assert(t@.hand_id =~= seq![]);
            assert(t@.street_log =~= seq![]);
            assert(t@.table_log =~= seq![]);
            assert(t@.act_log =~= seq![]);
        }
        t
    }

    /// A six-seat table with the given blinds.
    pub fn new_six(small_blind: u64, big_blind: u64) -> (r: Self)
        ensures
            r@ == new_table_model(r@.id, 6, small_blind, big_blind),
            r@.id.len() == 26,
    {
        Self::new(6, small_blind, big_blind)
    }

    /// A ten-seat table with the given blinds.
    pub fn new_ten(small_blind: u64, big_blind: u64) -> (r: Self)
        ensures
            r@ == new_table_model(r@.id, 10, small_blind, big_blind),
            r@.id.len() == 26,
    {
        Self::new(10, small_blind, big_blind)
    }

    /// Seats `player` in `seat`, with no cards and no bets, out of the hand
    /// being played. A player already at the table is accepted as is.
    pub fn sit(&mut self, seat: usize, player: Player) -> (r: Result<(), TableError>)
        requires
            sit_checks_buy_in(old(self)@, seat as int, player@) ==> old(self)@.big_blind_amount * 100 <= u64::MAX,
        ensures
            (final(self)@, r) == sit_model(old(self)@, seat as int, player@),
    {
        let mut player = player;
        if seat >= self.seats.len() {
            return Err(TableError::InvalidSeat);
        }
        match self.find_seat_index_by_player_id(player.id.as_str()) {
            Some(existing_seat) => {
                return Ok(());
            },
            None => {},
        }
        if self.seats[seat].is_some() {
            return Err(TableError::SeatOccupied);
        }
        let min_buy_in = self.big_blind_amount * 20;
        let max_buy_in = self.big_blind_amount * 100;
        if player.balance < min_buy_in || player.balance > max_buy_in {
            return Err(TableError::InvalidBuyIn { min: min_buy_in, max: max_buy_in, actual: player.balance });
        }
        player.hand_cards = [None, None];
        player.sit_out = false;
        player.win = false;
        player.cards_rank = None;
        player.is_active = false;
        player.has_acted = false;
        player.is_all_in = false;
        player.street_bet = 0;
        player.total_bet = 0;
        let ghost fresh = player@;
        self.seats.set(seat, Some(player));
        proof {
            assert(fresh.hand_cards =~= seq![None, None]);
            assert(self@.seats =~= old(self)@.seats.update(seat as int, Some(fresh)));
        }
        Ok(())
    }

    /// The player `player_id` leaves the table and their seat is emptied.
    pub fn leave(&mut self, player_id: &str) -> (r: Result<(), TableError>)
        ensures
            (final(self)@, r) == leave_model(old(self)@, player_id@),
    {
        let seat = match self.find_seat_index_by_player_id(player_id) {
            Some(s) => s,
            None => {
                return Err(TableError::PlayerNotAtTable);
            },
        };
        proof {
            crate::table::lemma_find_seat_from(self@.seats, player_id@, 0);
        }
        match &mut self.seats[seat] {
            Some(player) => {
                if player.is_active {
                    player.sit_out = true;
                }
            },
            None => {
                return Err(TableError::PlayerNotAtTable);
            },
        }
        self.seats.set(seat, None);
        proof {
            assert(self@.seats =~= old(self)@.seats.update(seat as int, None));
        }
        Ok(())
    }
}

impl Table {
    fn count_seated_exec(&self) -> (r: usize)
        ensures
            r == count_seated(self@.seats),
    {
        let ghost seats = self@.seats;
        let mut n: usize = 0;
        let mut i: usize = 0;
        while i < self.seats.len()
            invariant
                seats == self@.seats,
                i <= seats.len(),
                n == count_seated(seats.take(i as int)),
                n <= i,
            decreases seats.len() - i,
        {
            assert(seats.take(i + 1).drop_last() =~= seats.take(i as int));
            if self.seats[i].is_some() {
                n = n + 1;
            }
            i = i + 1;
        }
        assert(seats.take(seats.len() as int) =~= seats);
        n
    }

    fn reset_seats_for_hand(&mut self)
        ensures
            final(self)@ == (TableModel { seats: start_seats(old(self)@.seats), ..old(self)@ }),
    {
        let ghost m = self@;
        let ghost target = start_seats(m.seats);
        let mut i: usize = 0;
        while i < self.seats.len()
            invariant
                i <= m.seats.len(),
                target == start_seats(m.seats),
                self@.seats.len() == m.seats.len(),
                forall|j: int| 0 <= j < m.seats.len() ==> #[trigger] self@.seats[j] == if j < i { target[j] } else { m.seats[j] },
                self@ == (TableModel { seats: self@.seats, ..m }),
            decreases m.seats.len() - i,
        {
            let ghost prev = self.seats@;
            let ghost prev_model = self@.seats;
            proof {
                assert(prev_model[i as int] == m.seats[i as int]);
            }
            let leaving = match &self.seats[i] {
                Some(p) => p.sit_out,
                None => false,
            };
            if leaving {
                self.seats.set(i, None);
            } else {
                match &mut self.seats[i] {
                    Some(p) => p.reset(),
                    None => {},
                }
            }
            proof {
                assert(self@.seats[i as int] == target[i as int]);
                assert forall|j: int| 0 <= j < m.seats.len() implies #[trigger] self@.seats[j] == if j < i + 1 { target[j] } else { m.seats[j] } by {
                    if j != i {
                        assert(prev_model[j] == if j < i { target[j] } else { m.seats[j] });
                        assert(self.seats@[j] == prev[j]);
                    }
                }
            }
            i = i + 1;
        }
        proof {
            assert(self@.seats =~= target);
        }
    }

    fn unmark_acted_exec(&mut self, i: usize)
        requires
            i < old(self)@.seats.len(),
            old(self)@.seats[i as int] is Some,
        ensures
            final(self)@ == unmark_acted(old(self)@, i as int),
    {
        match &mut self.seats[i] {
            Some(p) => {
                p.has_acted = false;
            },
            None => {},
        }
        proof {
            assert(self@.seats =~= unmark_acted(old(self)@, i as int).seats);
        }
    }

    fn deal_hole_cards(&mut self)
        ensures
            final(self)@ == (TableModel {
                seats: deal_holes(old(self)@.seats, old(self)@.deck, old(self)@.seats.len() as int).0,
                deck: deal_holes(old(self)@.seats, old(self)@.deck, old(self)@.seats.len() as int).1,
                ..old(self)@
            }),
    {
        let ghost m = self@;
        let mut i: usize = 0;
        while i < self.seats.len()
            invariant
                i <= m.seats.len(),
                self@ == (TableModel {
                    seats: deal_holes(m.seats, m.deck, i as int).0,
                    deck: deal_holes(m.seats, m.deck, i as int).1,
                    ..m
                }),
            decreases m.seats.len() - i,
        {
            proof {
                lemma_deal_holes_frame(m.seats, m.deck, i as int);
            }
            let ghost prev = self.seats@;
            let ghost prev_model = self@.seats;
            if self.seats[i].is_some() {
                let c0 = self.deck.deal_one();
                let c1 = self.deck.deal_one();
                match &mut self.seats[i] {
                    Some(p) => {
                        p.hand_cards[0] = c0;
                        p.hand_cards[1] = c1;
                    },
                    None => {},
                }
                proof {
                    let p = prev[i as int]->0;
                    assert(self.seats@[i as int]->0.hand_cards@ =~= p.hand_cards@.update(0, c0).update(1, c1));
                }
            }
            proof {
                assert(self@.seats =~= deal_holes(m.seats, m.deck, i + 1).0) by {
                    assert forall|j: int| 0 <= j < prev.len() && j != i implies self.seats@[j] == prev[j] by {}
                }
            }
            i = i + 1;
        }
        proof {
            lemma_deal_holes_frame(m.seats, m.deck, i as int);
        }
    }
}

/// Dealing to the first `n` seats leaves the number of seats and the later
/// seats as they were.
pub(crate) proof fn lemma_deal_holes_frame(seats: Seq<Option<PlayerModel>>, deck: Seq<AtlasCard>, n: int)
    requires
        0 <= n <= seats.len(),
    ensures
        deal_holes(seats, deck, n).0.len() == seats.len(),
        forall|j: int| n <= j < seats.len() ==> #[trigger] deal_holes(seats, deck, n).0[j] == seats[j],
    decreases n,
{
    if n > 0 {
        lemma_deal_holes_frame(seats, deck, n - 1);
    }
}

impl Table {
    /// Starts a new hand. Players who asked to sit out leave; the others are
    /// reset. The dealer button moves to the next seat that may act, the two
    /// seats after it post the blinds, and the seat after the big blind is
    /// first to act. The deck is refilled and shuffled, each player gets two
    /// hole cards, and the board is cleared. Refused unless the table is
    /// waiting or has concluded a hand, and unless two players are seated.
    pub fn start(&mut self) -> (r: Result<(), TableError>)
        requires
            start_ok(old(self)@),
        ensures
            start_error(old(self)@) matches Some(e) ==> r == Err::<(), TableError>(e) && final(self)@ == old(self)@,
            start_error(old(self)@) is None ==> r is Ok && final(self)@.hand_id.len() == 26
                && exists|d: Seq<AtlasCard>| is_full_deck_permutation(d) && final(self)@ == start_model(old(self)@, final(self)@.hand_id, d),
    {
        match self.start_inner() {
            Some(r) => r,
            None => Err(TableError::InvalidState),
        }
    }

    /// Whether `start` can run to the end; see `start_ok`.
    pub fn can_start(&self) -> (r: bool)
        ensures
            r == start_ok(self@),
    {
        let mut t = self.duplicate();
        t.start_inner().is_some()
    }

    /// Carries out `start` where it can run to the end, and says so; `None`
    /// where it cannot (see `start_ok`), with the table in an unspecified state.
    fn start_inner(&mut self) -> (r: Option<Result<(), TableError>>)
        ensures
            r is Some == start_ok(old(self)@),
            start_error(old(self)@) matches Some(e) ==> r == Some(Err::<(), TableError>(e)) && final(self)@ == old(self)@,
            r is Some && start_error(old(self)@) is None ==> r == Some(Ok::<(), TableError>(())) && final(self)@.hand_id.len() == 26
                && exists|d: Seq<AtlasCard>| is_full_deck_permutation(d) && final(self)@ == start_model(old(self)@, final(self)@.hand_id, d),
    {
        let ghost m = self@;
        if self.state != TableState::Waiting && self.state != TableState::Concluding {
            return Some(Err(TableError::InvalidState));
        }
        if self.count_seated_exec() < 2 {
            return Some(Err(TableError::NotEnoughPlayers));
        }
        self.state = TableState::Preparing;
        self.reset_seats_for_hand();
        self.hand_id = new_ulid_string();
        let ghost hid = self@.hand_id;
        self.street = TableStreet::PreFlop;
        self.pot = 0;
        self.current_bet = 0;
        let n_seats = self.seats.len();
        if !self.can_walk_from(self.dealer_pos) {
            return None;
        }
        let dealer = match self.next_occupied_seat(self.dealer_pos) {
            Some(j) => j,
            None => {
                return None;
            },
        };
        self.dealer_pos = dealer;
        proof {
            assert(self@.seats == start_seats(m.seats));
            crate::table_utils::lemma_next_seat(self@.seats, m.dealer_pos as int, 1);
            assert(dealer < n_seats);
        }
        let sb = match self.next_occupied_seat(dealer) {
            Some(j) => j,
            None => {
                return None;
            },
        };
        self.small_blind_pos = sb;
        proof {
            crate::table_utils::lemma_next_seat(self@.seats, dealer as int, 1);
        }
        let bb = match self.next_occupied_seat(sb) {
            Some(j) => j,
            None => {
                return None;
            },
        };
        self.big_blind_pos = bb;
        proof {
            crate::table_utils::lemma_next_seat(self@.seats, sb as int, 1);
            assert(self@ == (TableModel { hand_id: hid, ..start_positions(m) }));
        }
        if !self.can_post(sb, self.small_blind_amount) {
            return None;
        }
        self.post_amount(sb, self.small_blind_amount);
        self.unmark_acted_exec(sb);
        proof {
            assert(self@ == (TableModel { hand_id: hid, ..start_after_small_blind(m) }));
        }
        if !self.can_post(bb, self.big_blind_amount) {
            return None;
        }
        self.post_amount(bb, self.big_blind_amount);
        self.unmark_acted_exec(bb);
        proof {
            assert(self@ == (TableModel { hand_id: hid, ..start_after_big_blind(m) }));
        }
        self.current_bet = self.big_blind_amount;
        self.current_turn = match self.next_occupied_seat(bb) {
            Some(j) => j,
            None => {
                return None;
            },
        };
        self.last_raiser_pos = bb;
        proof {
            assert(self@ == (TableModel { hand_id: hid, ..start_prefix(m) }));
        }
        self.deck.shuffle();
        let ghost shuffled = self.deck.cards@;
        self.deal_hole_cards();
        self.community_cards = [None, None, None, None, None];
        self.street_log.clear();
        self.state = TableState::Battling;
        proof {
            assert(self@.community_cards =~= seq![None, None, None, None, None]);
            assert(self@.street_log =~= seq![]);
            assert(self@ == start_model(m, hid, shuffled));
        }
        Some(Ok(()))
    }
}

} // verus!
