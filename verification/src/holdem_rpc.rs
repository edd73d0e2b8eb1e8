use vstd::prelude::*;
use crate::holdem_types::{AtlasCardView, PlayerAvailableActView, PlayerView, TableStateKind, TableStreetKind, TableView};

verus! {

/// Asks for the list of tables.
#[derive(Debug, Clone)]
pub struct GetTableListReq {}

/// The list of tables.
#[derive(Debug, Clone)]
pub struct GetTableListResp {
    pub tables: Vec<TableView>,
}

/// Asks for the state of one table, as the asking player sees it.
#[derive(Debug, Clone)]
pub struct GetTableInfoReq {
    pub table_id: String,
}

/// The state of a table as a seated player sees it: everything public, and
/// their own hole cards.
#[derive(Debug, Clone)]
pub struct GetTableInfoResp {
    pub id: String,
    pub seats: Vec<Option<PlayerView>>,
    pub state: TableStateKind,
    pub hand_id: String,
    pub street: TableStreetKind,
    pub small_blind_amount: u64,
    pub big_blind_amount: u64,
    pub pot: u64,
    pub current_bet: u64,
    pub dealer_pos: usize,
    pub small_blind_pos: usize,
    pub big_blind_pos: usize,
    pub current_turn: usize,
    pub current_turn_act: PlayerAvailableActView,
    pub last_raiser_pos: usize,
    pub community_cards: [Option<AtlasCardView>; 5],
    /// The asking player's hole cards.
    pub hand_cards: [Option<AtlasCardView>; 2],
    /// The asking player's seat.
    pub seat_index: usize,
}

/// Asks to sit down at a seat with a buy-in.
#[derive(Debug, Clone)]
pub struct SitTableReq {
    pub table_id: String,
    pub seat_index: u8,
    pub buy_in: u64,
}

#[derive(Debug, Clone)]
pub struct SitTableResp {
    pub ok: bool,
    pub table_id: String,
    pub message: Option<String>,
}

/// Asks to leave a table.
#[derive(Debug, Clone)]
pub struct LeaveTableReq {
    pub table_id: String,
}

#[derive(Debug, Clone)]
pub struct LeaveTableResp {
    pub ok: bool,
    pub message: Option<String>,
}

/// Asks to act at a table.
#[derive(Debug, Clone)]
pub struct GameActReq {
    pub table_id: String,
}

#[derive(Debug, Clone)]
pub struct GameActResp {
    pub ok: bool,
    pub message: Option<String>,
}

/// Asks to start a hand at a table.
#[derive(Debug, Clone)]
pub struct GameStartReq {
    pub table_id: String,
}

#[derive(Debug, Clone)]
pub struct GameStartResp {
    pub ok: bool,
    pub message: Option<String>,
}

} // verus!
