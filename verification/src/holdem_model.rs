use vstd::prelude::*;
use vstd::std_specs::convert::FromSpecImpl;
use crate::player::PlayerAct;

verus! {

/// Asks for the list of tables.
#[derive(Debug, Clone)]
pub struct GetTableListReq {}

/// The list of tables.
#[derive(Debug, Clone)]
pub struct GetTableListResp {
    pub tables: Vec<TableListView>,
}

/// A table in the list of tables: who sits where, and the blinds.
#[derive(Debug, Clone)]
pub struct TableListView {
    pub id: String,
    /// The nickname of the player in each seat.
    pub seats: Vec<Option<String>>,
    pub small_blind_amount: u64,
    pub big_blind_amount: u64,
}

/// Asks for the state of one table.
#[derive(Debug, Clone)]
pub struct GetTableInfoReq {
    pub table_id: String,
}

/// Names the table that was asked for.
#[derive(Debug, Clone)]
pub struct GetTableInfoResp {
    pub table_id: String,
}

/// Asks to sit down at a seat with a buy-in.
#[derive(Debug, Clone)]
pub struct SitTableReq {
    pub table_id: String,
    pub seat_index: u8,
    pub buy_in: u64,
}

#[derive(Debug, Clone)]
pub struct SitTableResp {
    pub ok: bool,
    pub table_id: String,
    pub message: Option<String>,
}

/// Asks to leave a table.
#[derive(Debug, Clone)]
pub struct LeaveTableReq {
    pub table_id: String,
}

#[derive(Debug, Clone)]
pub struct LeaveTableResp {
    pub ok: bool,
    pub message: Option<String>,
}

/// The action a player asks for.
#[derive(Debug, Clone, Copy, PartialEq, Eq, Structural)]
pub enum GameAction {
    Fold,
    Call,
    Check,
    Bet(u64),
    Raise(u64),
}

/// The table action a client's request stands for.
pub open spec fn act_of_action(a: GameAction) -> PlayerAct {
    match a {
        GameAction::Fold => PlayerAct::Fold,
        GameAction::Call => PlayerAct::Call,
        GameAction::Check => PlayerAct::Check,
        GameAction::Bet(x) => PlayerAct::Bet(x),
        GameAction::Raise(x) => PlayerAct::Raise(x),
    }
}

impl From<GameAction> for PlayerAct {
    fn from(action: GameAction) -> (r: Self) {
        match action {
            GameAction::Fold => PlayerAct::Fold,
            GameAction::Call => PlayerAct::Call,
            GameAction::Check => PlayerAct::Check,
            GameAction::Bet(amount) => PlayerAct::Bet(amount),
            GameAction::Raise(amount) => PlayerAct::Raise(amount),
        }
    }
}

impl FromSpecImpl<GameAction> for PlayerAct {
    open spec fn obeys_from_spec() -> bool {
        true
    }

    open spec fn from_spec(v: GameAction) -> PlayerAct {
        act_of_action(v)
    }
}

/// Asks to act at a table.
#[derive(Debug, Clone)]
pub struct GameActReq {
    pub table_id: String,
    pub act: GameAction,
}

#[derive(Debug, Clone)]
pub struct GameActResp {
    pub ok: bool,
    pub message: Option<String>,
}

} // verus!
