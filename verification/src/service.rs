use vstd::prelude::*;
use crate::card::AtlasCard;
use crate::holdem_rpc::{GetTableInfoResp, SitTableResp, LeaveTableResp, GameActResp, GameStartResp};
use crate::holdem_types::{TableView, PlayerView, AtlasCardView, player_view_of, card_view,
    state_kind, street_kind, available_view};
use crate::player::{Player, PlayerAct};
use crate::table::{Table, TableError, find_seat};
use crate::ids::{ulid_text, ulid_string_of};
use crate::table_act::{sit_model, leave_model, start_ok, start_error, start_model, sit_checks_buy_in};
use crate::deck::is_full_deck_permutation;
use crate::table_play::{act_ok, act_model};
use crate::wire::{AtlasWireError, table_error_code, table_error_message, data_model};

verus! {

// ---------------------------------------------------------------------------
// What the hold'em RPC methods answer, given the table they are about.
// ---------------------------------------------------------------------------

/// An error with a code, a message and no data.
pub open spec fn is_plain_error(e: AtlasWireError, code: u32, message: Seq<char>) -> bool {
    e.code == code && e.message@ == message && e.data is None
}

/// A message that reads `text`.
pub open spec fn says(message: Option<String>, text: Seq<char>) -> bool {
    message matches Some(m) && m@ == text
}

/// The wire form of a table error, as `AtlasWireError::from_table_error` makes it.
pub open spec fn is_table_error(w: AtlasWireError, e: TableError) -> bool {
    &&& w.code == table_error_code(e)
    &&& w.message@ == table_error_message(e)
    &&& e matches TableError::InvalidBuyIn { min, max, actual } ==> data_model(w.data) == Some(
        seq![("min"@, min), ("max"@, max), ("actual"@, actual)],
    )
    &&& !(e is InvalidBuyIn) ==> w.data is None
}

/// The answer to a request about a table that does not exist.
pub fn table_not_found() -> (r: AtlasWireError)
    ensures
        is_plain_error(r, 404, "table not found"@),
{
    proof {
        reveal_strlit("table not found");
    }
    AtlasWireError { code: 404, message: "table not found".to_owned(), data: None }
}

/// The answer to a request from a user that does not exist.
pub fn user_not_found() -> (r: AtlasWireError)
    ensures
        is_plain_error(r, 404, "user not found"@),
{
    AtlasWireError { code: 404, message: "user not found".to_owned(), data: None }
}

/// The seats of a table as the list of tables shows them: the nickname of
/// each seated player.
pub open spec fn seat_names(seats: Seq<Option<Player>>) -> Seq<Option<String>> {
    Seq::new(seats.len(), |i: int| match seats[i] {
        Some(p) => Some(p.nickname),
        None => None,
    })
}

/// A table as the list of tables shows it.
pub fn table_view(table: &Table) -> (r: TableView)
    ensures
        r.id == table.id,
        r.seats@ == seat_names(table.seats@),
        r.small_blind_amount == table.small_blind_amount,
        r.big_blind_amount == table.big_blind_amount,
{
    let mut seats: Vec<Option<String>> = Vec::new();
    let mut i: usize = 0;
    while i < table.seats.len()
        invariant
            i <= table.seats@.len(),
            seats@ == seat_names(table.seats@).take(i as int),
        decreases table.seats@.len() - i,
    {
        let s = match &table.seats[i] {
            Some(p) => Some(p.nickname.clone()),
            None => None,
        };
        seats.push(s);
        i = i + 1;
        proof {
            assert(seats@ =~= seat_names(table.seats@).take(i as int));
        }
    }
    proof {
        assert(seat_names(table.seats@).take(table.seats@.len() as int) =~= seat_names(table.seats@));
    }
    TableView {
        id: table.id.clone(),
        seats,
        small_blind_amount: table.small_blind_amount,
        big_blind_amount: table.big_blind_amount,
    }
}

/// What every client sees of the seats.
pub open spec fn seat_views(seats: Seq<Option<Player>>) -> Seq<Option<PlayerView>> {
    Seq::new(seats.len(), |i: int| match seats[i] {
        Some(p) => Some(player_view_of(p)),
        None => None,
    })
}

/// A card slot as clients see it.
pub open spec fn slot_view(c: Option<AtlasCard>) -> Option<AtlasCardView> {
    match c {
        Some(card) => Some(card_view(card)),
        None => None,
    }
}

fn slot_view_exec(c: Option<AtlasCard>) -> (r: Option<AtlasCardView>)
    ensures
        r == slot_view(c),
{
    match c {
        Some(card) => Some(AtlasCardView::from(card)),
        None => None,
    }
}

/// The state of `table` as the player `uid` sees it: every seat's public
/// state and the player's own hole cards. Refused with code 403 when the
/// player is not seated there.
pub open spec fn table_info_ok(table: Table, uid: Seq<char>, r: GetTableInfoResp) -> bool {
    let i = find_seat(table@.seats, uid)->0;
    let me = table.seats@[i]->0;
    &&& r.id == table.id
    &&& r.seats@ == seat_views(table.seats@)
    &&& r.state == state_kind(table.state)
    &&& r.hand_id == table.hand_id
    &&& r.street == street_kind(table.street)
    &&& r.small_blind_amount == table.small_blind_amount
    &&& r.big_blind_amount == table.big_blind_amount
    &&& r.pot == table.pot
    &&& r.current_bet == table.current_bet
    &&& r.dealer_pos == table.dealer_pos
    &&& r.small_blind_pos == table.small_blind_pos
    &&& r.big_blind_pos == table.big_blind_pos
    &&& r.current_turn == table.current_turn
    &&& r.current_turn_act == available_view(table.current_turn_act)
    &&& r.last_raiser_pos == table.last_raiser_pos
    &&& r.community_cards@ == table.community_cards@.map_values(|c: Option<AtlasCard>| slot_view(c))
    &&& r.hand_cards@ == me.hand_cards@.map_values(|c: Option<AtlasCard>| slot_view(c))
    &&& r.seat_index == i
}

/// Answers a request for the state of `table` from the player `uid`; see
/// `table_info_ok`.
pub fn get_table_info(table: &Table, uid: &str) -> (r: Result<GetTableInfoResp, AtlasWireError>)
    ensures
        find_seat(table@.seats, uid@) is None ==> (r matches Err(e) && is_plain_error(e, 403, "player not seated at this table"@)),
        find_seat(table@.seats, uid@) is Some ==> (r matches Ok(resp) && table_info_ok(*table, uid@, resp)),
{
    let seat_index = match table.find_seat_index_by_player_id(uid) {
        Some(i) => i,
        None => {
            return Err(AtlasWireError { code: 403, message: "player not seated at this table".to_owned(), data: None });
        },
    };
    proof {
        crate::table::lemma_find_seat_from(table@.seats, uid@, 0);
    }
    let player = match &table.seats[seat_index] {
        Some(p) => p,
        None => {
            return Err(AtlasWireError { code: 500, message: "seat exists but player missing".to_owned(), data: None });
        },
    };
    let mut seats: Vec<Option<PlayerView>> = Vec::new();
    let mut i: usize = 0;
    while i < table.seats.len()
        invariant
            i <= table.seats@.len(),
            seats@ == seat_views(table.seats@).take(i as int),
        decreases table.seats@.len() - i,
    {
        let s = match &table.seats[i] {
            Some(p) => Some(PlayerView::from(p)),
            None => None,
        };
        seats.push(s);
        i = i + 1;
        proof {
            assert(seats@ =~= seat_views(table.seats@).take(i as int));
        }
    }
    proof {
        assert(seat_views(table.seats@).take(table.seats@.len() as int) =~= seat_views(table.seats@));
    }
    let cc = table.community_cards;
    let community_cards = [
        slot_view_exec(cc[0]),
        slot_view_exec(cc[1]),
        slot_view_exec(cc[2]),
        slot_view_exec(cc[3]),
        slot_view_exec(cc[4]),
    ];
    let hc = player.hand_cards;
    let hand_cards = [slot_view_exec(hc[0]), slot_view_exec(hc[1])];
    let resp = GetTableInfoResp {
        id: table.id.clone(),
        seats,
        state: table.state.into(),
        hand_id: table.hand_id.clone(),
        street: table.street.into(),
        small_blind_amount: table.small_blind_amount,
        big_blind_amount: table.big_blind_amount,
        pot: table.pot,
        current_bet: table.current_bet,
        dealer_pos: table.dealer_pos,
        small_blind_pos: table.small_blind_pos,
        big_blind_pos: table.big_blind_pos,
        current_turn: table.current_turn,
        current_turn_act: table.current_turn_act.into(),
        last_raiser_pos: table.last_raiser_pos,
        community_cards,
        hand_cards,
        seat_index,
    };
    proof {
        assert(resp.community_cards@ =~= table.community_cards@.map_values(|c: Option<AtlasCard>| slot_view(c)));
        assert(resp.hand_cards@ =~= player.hand_cards@.map_values(|c: Option<AtlasCard>| slot_view(c)));
    }
    Ok(resp)
}

/// The player that a user who sits down with `buy_in` chips becomes.
pub fn new_seated_player(id: String, nickname: String, buy_in: u64) -> (r: Player)
    ensures
        r.id == id,
        r.nickname == nickname,
        r.balance == buy_in,
        r@.hand_cards == seq![None::<AtlasCard>, None],
        r.cards_str@ == Seq::<char>::empty(),
        r.cards_rank is None,
        !r.sit_out && !r.win && !r.is_active && !r.has_acted && !r.is_all_in,
        r.acted_view@ == Seq::<char>::empty(),
        r.street_bet == 0 && r.total_bet == 0,
{
    let p = Player {
        id,
        nickname,
        balance: buy_in,
        hand_cards: [None, None],
        cards_str: String::new(),
        cards_rank: None,
        sit_out: false,
        win: false,
        is_active: false,
        has_acted: false,
        acted_view: String::new(),
        is_all_in: false,
        street_bet: 0,
        total_bet: 0,
    };
    proof {
        assert(p@.hand_cards =~= seq![None::<AtlasCard>, None]);
    }
    p
}

/// Seats `player` at `seat_index` of `table`; see `Table::sit`. Answers
/// with the table's id, or with the wire form of the table's refusal.
pub fn sit_table(table: &mut Table, seat_index: u8, player: Player) -> (r: Result<SitTableResp, AtlasWireError>)
    requires
        sit_checks_buy_in(old(table)@, seat_index as int, player@) ==> old(table)@.big_blind_amount * 100 <= u64::MAX,
    ensures
        final(table)@ == sit_model(old(table)@, seat_index as int, player@).0,
        match (sit_model(old(table)@, seat_index as int, player@).1, r) {
            (Ok(_), Ok(resp)) => resp.ok && resp.table_id@ == old(table)@.id && says(resp.message, "sit table success"@),
            (Err(e), Err(w)) => is_table_error(w, e),
            _ => false,
        },
{
    match table.sit(seat_index as usize, player) {
        Ok(_) => Ok(SitTableResp { ok: true, table_id: table.id.clone(), message: Some("sit table success".to_owned()) }),
        Err(e) => Err(AtlasWireError::from_table_error(e)),
    }
}

/// The player `uid` leaves `table`; see `Table::leave`.
pub fn leave_table(table: &mut Table, uid: &str) -> (r: Result<LeaveTableResp, AtlasWireError>)
    ensures
        final(table)@ == leave_model(old(table)@, uid@).0,
        match (leave_model(old(table)@, uid@).1, r) {
            (Ok(_), Ok(resp)) => resp.ok && says(resp.message, "leave table success"@),
            (Err(e), Err(w)) => is_table_error(w, e),
            _ => false,
        },
{
    match table.leave(uid) {
        Ok(_) => Ok(LeaveTableResp { ok: true, message: Some("leave table success".to_owned()) }),
        Err(e) => Err(AtlasWireError::from_table_error(e)),
    }
}

/// The player `uid` takes `action` at `table`; see `Table::act`.
pub fn game_act(table: &mut Table, uid: String, action: PlayerAct) -> (r: Result<GameActResp, AtlasWireError>)
    requires
        act_ok(old(table)@, uid@, action),
    ensures
        final(table)@ == act_model(old(table)@, uid@, action).0,
        match (act_model(old(table)@, uid@, action).1, r) {
            (Ok(_), Ok(resp)) => resp.ok && says(resp.message, "player act success"@),
            (Err(e), Err(w)) => is_table_error(w, e),
            _ => false,
        },
{
    match table.act(uid, action) {
        Ok(_) => Ok(GameActResp { ok: true, message: Some("player act success".to_owned()) }),
        Err(e) => Err(AtlasWireError::from_table_error(e)),
    }
}

/// Starts a hand at `table`; see `Table::start`.
pub fn game_start(table: &mut Table) -> (r: Result<GameStartResp, AtlasWireError>)
    requires
        start_ok(old(table)@),
    ensures
        start_error(old(table)@) matches Some(e) ==> final(table)@ == old(table)@ && (r matches Err(w) && is_table_error(w, e)),
        start_error(old(table)@) is None ==> (r matches Ok(resp) && resp.ok && says(resp.message, "start game success"@)),
        start_error(old(table)@) is None ==> final(table)@.hand_id.len() == 26 && exists|d: Seq<AtlasCard>|
            is_full_deck_permutation(d) && final(table)@ == start_model(old(table)@, final(table)@.hand_id, d),
{
    match table.start() {
        Ok(_) => Ok(GameStartResp { ok: true, message: Some("start game success".to_owned()) }),
        Err(e) => Err(AtlasWireError::from_table_error(e)),
    }
}

/// `get_table_info` for the caller whose id bytes are `uid`, as a request
/// header carries them: the caller is the player with the ULID text of
/// those bytes.
pub fn get_table_info_for(table: &Table, uid: [u8; 16]) -> (r: Result<GetTableInfoResp, AtlasWireError>)
    ensures
        find_seat(table@.seats, ulid_text(uid@)) is None ==> (r matches Err(e) && is_plain_error(
            e,
            403,
            "player not seated at this table"@,
        )),
        find_seat(table@.seats, ulid_text(uid@)) is Some ==> (r matches Ok(resp) && table_info_ok(*table, ulid_text(uid@), resp)),
{
    let id = ulid_string_of(uid);
    get_table_info(table, id.as_str())
}

/// `leave_table` for the caller whose id bytes are `uid`.
pub fn leave_table_for(table: &mut Table, uid: [u8; 16]) -> (r: Result<LeaveTableResp, AtlasWireError>)
    ensures
        final(table)@ == leave_model(old(table)@, ulid_text(uid@)).0,
        match (leave_model(old(table)@, ulid_text(uid@)).1, r) {
            (Ok(_), Ok(resp)) => resp.ok && says(resp.message, "leave table success"@),
            (Err(e), Err(w)) => is_table_error(w, e),
            _ => false,
        },
{
    let id = ulid_string_of(uid);
    leave_table(table, id.as_str())
}

/// `game_act` for the caller whose id bytes are `uid`, where it can be
/// carried out (see `act_ok`); `None`, with the table unchanged, where it
/// cannot.
pub fn game_act_for(table: &mut Table, uid: [u8; 16], action: PlayerAct) -> (r: Option<Result<GameActResp, AtlasWireError>>)
    ensures
        !act_ok(old(table)@, ulid_text(uid@), action) ==> r is None && final(table)@ == old(table)@,
        act_ok(old(table)@, ulid_text(uid@), action) ==> {
            &&& r is Some
            &&& final(table)@ == act_model(old(table)@, ulid_text(uid@), action).0
            &&& match (act_model(old(table)@, ulid_text(uid@), action).1, r->0) {
                (Ok(_), Ok(resp)) => resp.ok && says(resp.message, "player act success"@),
                (Err(e), Err(w)) => is_table_error(w, e),
                _ => false,
            }
        },
{
    let id = ulid_string_of(uid);
    if table.can_act(&id, action) {
        Some(game_act(table, id, action))
    } else {
        None
    }
}

/// The answer to `get_table_info` shows each seated player's chips as they
/// are: the stack, the bet of the current round, and everything put in
/// during the whole hand, each independently of the others.
pub proof fn lemma_table_info_shows_chips(table: Table, uid: Seq<char>, r: GetTableInfoResp)
    requires
        table_info_ok(table, uid, r),
    ensures
        r.seats@.len() == table.seats@.len(),
        forall|j: int| 0 <= j < table.seats@.len() ==> (#[trigger] r.seats@[j] is Some <==> table.seats@[j] is Some),
        forall|j: int| 0 <= j < table.seats@.len() && (#[trigger] table.seats@[j]) is Some ==> {
            let v = r.seats@[j]->0;
            let p = table.seats@[j]->0;
            &&& v.id@ == p.id@
            &&& v.balance == p.balance
            &&& v.street_bet == p.street_bet
            &&& v.total_bet == p.total_bet
        },
{
}

} // verus!
