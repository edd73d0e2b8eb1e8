//! Texas hold'em table logic, the wire header of the RPC protocol and the
//! message types that travel over it.

pub mod card;
pub mod rank;
pub mod player;
pub mod deck;
pub mod table;
pub mod table_utils;
pub mod pot;
pub mod evaluate;
pub mod ids;
pub mod table_act;
pub mod table_play;
pub mod table_check;
pub mod text;
pub mod chars;
pub mod wire;
pub mod holdem_types;
pub mod holdem_model;
pub mod holdem_rpc;
pub mod auth_model;
pub mod auth_rpc;
pub mod module_rpc;
pub mod service;
pub mod codegen;
pub mod cli;
pub mod render;
pub mod laws;
pub mod cards_in_play;
pub mod chips_at_table;
pub mod turns;
pub mod user_notify;
pub mod auth_notify;
pub mod play_laws;
