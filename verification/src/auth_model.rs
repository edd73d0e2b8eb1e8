use vstd::prelude::*;

verus! {

/// Asks to create an account.
#[derive(Debug, Clone)]
pub struct RegisterReq {
    pub account: String,
    pub password: String,
    pub nickname: String,
}

#[derive(Debug, Clone)]
pub struct RegisterResp {
    pub ok: bool,
    pub message: Option<String>,
}

/// Logs in with an account and its password.
#[derive(Debug, Clone)]
pub struct BasicAuthReq {
    pub account: String,
    pub password: String,
}

/// Logs in again with a token handed out earlier.
#[derive(Debug, Clone)]
pub struct TokenAuthReq {
    pub token: String,
}

/// The answer to a login.
#[derive(Debug, Clone)]
pub struct AuthResp {
    pub ok: bool,
    pub uid: Option<String>,
    pub token: Option<String>,
    pub expire_at: Option<u64>,
    pub error: Option<String>,
}

} // verus!
