use vstd::prelude::*;
use crate::card::AtlasCard;
use crate::deck::AtlasDeck;
use crate::player::{Player, PlayerModel, PlayerAvailableAct};

verus! {

/// The phases of a table.
#[derive(Debug, Clone, Copy, PartialEq, Eq, Structural)]
pub enum TableState {
    /// No hand is being played.
    Waiting,
    /// A hand is being set up.
    Preparing,
    /// A hand is being played.
    Battling,
    /// The last hand was settled.
    Concluding,
}

/// The betting rounds of a hand.
#[derive(Debug, Clone, Copy, PartialEq, Eq, Structural)]
pub enum TableStreet {
    PreFlop,
    Flop,
    Turn,
    River,
}

/// Why a table refused a request.
#[derive(Debug, Clone, Copy, PartialEq, Eq, Structural)]
pub enum TableError {
    /// The seat index is out of range, or it is not that seat's turn.
    InvalidSeat,
    SeatOccupied,
    AlreadySeated,
    PlayerNotAtTable,
    /// The table's phase does not allow the request.
    InvalidState,
    NotEnoughPlayers,
    /// The action is not allowed in the current betting situation.
    InvalidAction,
    /// The buy-in is outside `min..=max`.
    InvalidBuyIn { min: u64, max: u64, actual: u64 },
}

/// A poker table and the hand being played at it.
#[derive(Debug)]
pub struct Table {
    pub id: String,
    pub seats: Vec<Option<Player>>,
    pub state: TableState,
    /// Id of the current hand.
    pub hand_id: String,
    pub street: TableStreet,
    pub small_blind_amount: u64,
    pub big_blind_amount: u64,
    /// Chips put in during the current hand.
    pub pot: u64,
    /// The highest bet of the current betting round.
    pub current_bet: u64,
    pub dealer_pos: usize,
    pub small_blind_pos: usize,
    pub big_blind_pos: usize,
    /// The seat whose turn it is.
    pub current_turn: usize,
    /// What the player on turn may do.
    pub current_turn_act: PlayerAvailableAct,
    /// The seat that last raised the bet of the round.
    pub last_raiser_pos: usize,
    pub deck: AtlasDeck,
    pub community_cards: [Option<AtlasCard>; 5],
    /// Free-form notes about the table; nothing writes them yet.
    pub table_log: Vec<String>,
    /// One line per accepted action, as `act_line` writes it.
    pub act_log: Vec<String>,
    /// The betting rounds closed during the current hand.
    pub street_log: Vec<TableStreet>,
}

/// The mathematical model of a `Table`.
pub struct TableModel {
    pub id: Seq<char>,
    pub seats: Seq<Option<PlayerModel>>,
    pub state: TableState,
    pub hand_id: Seq<char>,
    pub street: TableStreet,
    pub small_blind_amount: u64,
    pub big_blind_amount: u64,
    pub pot: u64,
    pub current_bet: u64,
    pub dealer_pos: usize,
    pub small_blind_pos: usize,
    pub big_blind_pos: usize,
    pub current_turn: usize,
    pub current_turn_act: PlayerAvailableAct,
    pub last_raiser_pos: usize,
    pub deck: Seq<AtlasCard>,
    pub community_cards: Seq<Option<AtlasCard>>,
    pub table_log: Seq<Seq<char>>,
    pub act_log: Seq<Seq<char>>,
    pub street_log: Seq<TableStreet>,
}

/// A list of texts, each by its characters.
pub open spec fn texts_model(s: Seq<String>) -> Seq<Seq<char>> {
    Seq::new(s.len(), |i: int| s[i]@)
}

pub open spec fn seat_model(o: Option<Player>) -> Option<PlayerModel> {
    match o {
        Some(p) => Some(p@),
        None => None,
    }
}

pub open spec fn seats_model(s: Seq<Option<Player>>) -> Seq<Option<PlayerModel>> {
    Seq::new(s.len(), |i: int| seat_model(s[i]))
}

impl View for Table {
    type V = TableModel;

    open spec fn view(&self) -> TableModel {
        TableModel {
            id: self.id@,
            seats: seats_model(self.seats@),
            state: self.state,
            hand_id: self.hand_id@,
            street: self.street,
            small_blind_amount: self.small_blind_amount,
            big_blind_amount: self.big_blind_amount,
            pot: self.pot,
            current_bet: self.current_bet,
            dealer_pos: self.dealer_pos,
            small_blind_pos: self.small_blind_pos,
            big_blind_pos: self.big_blind_pos,
            current_turn: self.current_turn,
            current_turn_act: self.current_turn_act,
            last_raiser_pos: self.last_raiser_pos,
            deck: self.deck.cards@,
            community_cards: self.community_cards@,
            table_log: texts_model(self.table_log@),
            act_log: texts_model(self.act_log@),
            street_log: self.street_log@,
        }
    }
}

// ---------------------------------------------------------------------------
// Seats
// ---------------------------------------------------------------------------

/// A taken seat whose player is still in the hand.
pub open spec fn seat_active(o: Option<PlayerModel>) -> bool {
    o is Some && o->0.is_active
}

/// A player still in the hand who may act and has not acted this round.
pub open spec fn seat_pending(o: Option<PlayerModel>) -> bool {
    match o {
        Some(p) => p.is_active && !p.is_all_in && !p.has_acted,
        None => false,
    }
}

/// Number of players still in the hand.
pub open spec fn count_active(seats: Seq<Option<PlayerModel>>) -> nat
    decreases seats.len(),
{
    if seats.len() == 0 {
        0
    } else {
        count_active(seats.drop_last()) + if seat_active(seats.last()) { 1nat } else { 0 }
    }
}

/// The betting round is over: at most one player is left in the hand, or
/// every player who may still act has acted.
pub open spec fn round_complete(seats: Seq<Option<PlayerModel>>) -> bool {
    count_active(seats) <= 1 || !(exists|j: int| 0 <= j < seats.len() && seat_pending(#[trigger] seats[j]))
}

/// The player of seat `seat` puts in `amount` chips, or all they have if that
/// is less. The flag tells whether this raised the highest bet of the round.
pub open spec fn post_amount_model(m: TableModel, seat: int, amount: u64) -> (TableModel, bool) {
    let p = m.seats[seat]->0;
    let actual = if amount < p.balance { amount } else { p.balance };
    let np = PlayerModel {
        balance: (p.balance - actual) as u64,
        street_bet: (p.street_bet + actual) as u64,
        total_bet: (p.total_bet + actual) as u64,
        has_acted: true,
        is_all_in: if p.balance - actual == 0 { true } else { p.is_all_in },
        ..p
    };
    let raised = np.street_bet > m.current_bet;
    (TableModel {
        seats: m.seats.update(seat, Some(np)),
        pot: (m.pot + actual) as u64,
        current_bet: if raised { np.street_bet } else { m.current_bet },
        last_raiser_pos: if raised { seat as usize } else { m.last_raiser_pos },
        ..m
    }, raised)
}

/// `post_amount_model` can be computed without overflow.
pub open spec fn post_amount_fits(m: TableModel, seat: int, amount: u64) -> bool {
    let p = m.seats[seat]->0;
    let actual = if amount < p.balance { amount } else { p.balance };
    &&& 0 <= seat < m.seats.len()
    &&& m.seats[seat] is Some
    &&& p.street_bet + actual <= u64::MAX
    &&& p.total_bet + actual <= u64::MAX
    &&& m.pot + actual <= u64::MAX
}

/// A seat that may act: taken by a player still in the hand and not all-in.
pub open spec fn seat_eligible(o: Option<PlayerModel>) -> bool {
    match o {
        Some(p) => p.is_active && !p.is_all_in,
        None => false,
    }
}

/// Walks clockwise from `from`, at offset `k` and beyond, and gives the first
/// seat that may act; `None` once the walk is back at `from`.
pub open spec fn scan_seats(seats: Seq<Option<PlayerModel>>, from: int, k: int) -> Option<int>
    decreases seats.len() + 1 - k,
{
    if seats.len() == 0 || k > seats.len() || k < 1 {
        None
    } else {
        let j = (from + k) % (seats.len() as int);
        if j == from {
            None
        } else if seat_eligible(seats[j]) {
            Some(j)
        } else {
            scan_seats(seats, from, k + 1)
        }
    }
}

/// The first seat after `from`, clockwise, whose player may act.
pub open spec fn next_seat(seats: Seq<Option<PlayerModel>>, from: int) -> Option<int> {
    scan_seats(seats, from, 1)
}

pub open spec fn some_seat_eligible(seats: Seq<Option<PlayerModel>>) -> bool {
    exists|j: int| 0 <= j < seats.len() && seat_eligible(#[trigger] seats[j])
}

/// The first seat at or after `i` taken by the player `id`.
pub open spec fn find_seat_from(seats: Seq<Option<PlayerModel>>, id: Seq<char>, i: int) -> Option<int>
    decreases seats.len() - i,
{
    if i >= seats.len() || i < 0 {
        None
    } else if seats[i] is Some && seats[i]->0.id == id {
        Some(i)
    } else {
        find_seat_from(seats, id, i + 1)
    }
}

/// The first seat taken by the player `id`.
pub open spec fn find_seat(seats: Seq<Option<PlayerModel>>, id: Seq<char>) -> Option<int> {
    find_seat_from(seats, id, 0)
}

pub proof fn lemma_find_seat_from(seats: Seq<Option<PlayerModel>>, id: Seq<char>, i: int)
    requires
        0 <= i,
    ensures
        find_seat_from(seats, id, i) matches Some(j) ==> i <= j < seats.len() && seats[j] is Some
            && seats[j]->0.id == id && forall|k: int| i <= k < j ==> !(seats[k] is Some && #[trigger] seats[k]->0.id == id),
        find_seat_from(seats, id, i) is None ==> forall|k: int|
            i <= k < seats.len() ==> !(seats[k] is Some && #[trigger] seats[k]->0.id == id),
    decreases seats.len() - i,
{
    if i < seats.len() {
        lemma_find_seat_from(seats, id, i + 1);
    }
}

/// Number of seats taken.
pub open spec fn count_seated(seats: Seq<Option<PlayerModel>>) -> nat
    decreases seats.len(),
{
    if seats.len() == 0 {
        0
    } else {
        count_seated(seats.drop_last()) + if seats.last() is Some { 1nat } else { 0 }
    }
}

/// Sum, over the taken seats, of `f` of their player.
pub open spec fn seat_sum(seats: Seq<Option<PlayerModel>>, f: spec_fn(PlayerModel) -> int) -> int
    decreases seats.len(),
{
    if seats.len() == 0 {
        0
    } else {
        seat_sum(seats.drop_last(), f) + match seats.last() {
            Some(p) => f(p),
            None => 0,
        }
    }
}

pub open spec fn balance_of(p: PlayerModel) -> int {
    p.balance as int
}

pub open spec fn total_bet_of(p: PlayerModel) -> int {
    p.total_bet as int
}

/// The chips the seated players hold.
pub open spec fn sum_balances(seats: Seq<Option<PlayerModel>>) -> int {
    seat_sum(seats, |p: PlayerModel| balance_of(p))
}

/// The chips the seated players have put in during the hand.
pub open spec fn sum_total_bets(seats: Seq<Option<PlayerModel>>) -> int {
    seat_sum(seats, |p: PlayerModel| total_bet_of(p))
}

pub open spec fn seat_value(o: Option<PlayerModel>, f: spec_fn(PlayerModel) -> int) -> int {
    match o {
        Some(p) => f(p),
        None => 0,
    }
}

/// Replacing one seat changes a seat sum by the difference of the two seats.
pub proof fn lemma_seat_sum_update(
    seats: Seq<Option<PlayerModel>>,
    f: spec_fn(PlayerModel) -> int,
    i: int,
    o: Option<PlayerModel>,
)
    requires
        0 <= i < seats.len(),
    ensures
        seat_sum(seats.update(i, o), f) == seat_sum(seats, f) - seat_value(seats[i], f) + seat_value(o, f),
    decreases seats.len(),
{
    let s2 = seats.update(i, o);
    if i == seats.len() - 1 {
        assert(s2.drop_last() =~= seats.drop_last());
    } else {
        assert(s2.drop_last() =~= seats.drop_last().update(i, o));
        lemma_seat_sum_update(seats.drop_last(), f, i, o);
    }
}

/// A seat sum of non-negative terms bounds each term.
pub proof fn lemma_seat_sum_bounds(seats: Seq<Option<PlayerModel>>, f: spec_fn(PlayerModel) -> int, i: int)
    requires
        0 <= i < seats.len(),
        forall|p: PlayerModel| #[trigger] f(p) >= 0,
    ensures
        0 <= seat_value(seats[i], f) <= seat_sum(seats, f),
    decreases seats.len(),
{
    lemma_seat_sum_nonneg(seats.drop_last(), f);
    if i < seats.len() - 1 {
        lemma_seat_sum_bounds(seats.drop_last(), f, i);
    }
}

pub proof fn lemma_seat_sum_nonneg(seats: Seq<Option<PlayerModel>>, f: spec_fn(PlayerModel) -> int)
    requires
        forall|p: PlayerModel| #[trigger] f(p) >= 0,
    ensures
        seat_sum(seats, f) >= 0,
    decreases seats.len(),
{
    if seats.len() > 0 {
        lemma_seat_sum_nonneg(seats.drop_last(), f);
    }
}

} // verus!
