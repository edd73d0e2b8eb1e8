//! The notice that the auth module sends when a user's record changed.
use vstd::prelude::*;
use crate::module_rpc::AtlasModuleId;
use crate::user_notify::DecimalAmount;

verus! {

/// A user's record changed: sent by the auth module.
#[derive(Debug, Clone)]
pub struct UserUpdateNotify {
    pub id: String,
    pub account: String,
    pub name: String,
    pub balance: DecimalAmount,
    pub avatar: Option<String>,
}

impl UserUpdateNotify {
    pub const MODULE_ID: AtlasModuleId = AtlasModuleId::Auth;
    pub const NOTIFY_TYPE_ID: u16 = 1;
}

} // verus!
