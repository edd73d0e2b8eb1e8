use vstd::prelude::*;

verus! {

/// Logs in with an account and its password.
#[derive(Debug, Clone)]
pub struct BasicAuthReq {
    pub account: String,
    pub password: String,
}

/// Asks to create an account.
#[derive(Debug, Clone)]
pub struct RegisterReq {
    pub account: String,
    pub password: String,
    pub nickname: String,
}

#[derive(Debug, Clone)]
pub struct RegisterResp {
    pub ok: bool,
    pub message: Option<String>,
}

} // verus!
