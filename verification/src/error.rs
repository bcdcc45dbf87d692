//! Unified error type: the front end branches on `code`, `message` is only shown.
//!
//! `Auth` means a credential problem (retrying is useless, log in again);
//! `Network` means the network or the site is temporarily unavailable (retryable);
//! `Data` means a response could not be parsed or broke the interface contract;
//! `Input` means an argument was rejected; `Storage` means a local failure
//! (database, encryption, window).

use vstd::prelude::*;
use vstd::string::*;

verus! {

#[derive(Debug, Clone, Copy, PartialEq, Eq, Structural)]
pub enum ErrorCode {
    Auth,
    Network,
    Data,
    Input,
    Storage,
}

#[derive(Debug, Clone, PartialEq, Eq)]
pub struct AppError {
    pub code: ErrorCode,
    pub message: String,
}

impl AppError {
    pub fn new(code: ErrorCode, message: &str) -> (res: Self)
        ensures
            res.code == code,
            res.message@ == message@,
    {
        AppError { code, message: String::from_str(message) }
    }

    pub fn auth(message: &str) -> (res: Self)
        ensures
            res.code == ErrorCode::Auth,
            res.message@ == message@,
    {
        Self::new(ErrorCode::Auth, message)
    }

    pub fn network(message: &str) -> (res: Self)
        ensures
            res.code == ErrorCode::Network,
            res.message@ == message@,
    {
        Self::new(ErrorCode::Network, message)
    }

    pub fn data(message: &str) -> (res: Self)
        ensures
            res.code == ErrorCode::Data,
            res.message@ == message@,
    {
        Self::new(ErrorCode::Data, message)
    }

    pub fn input(message: &str) -> (res: Self)
        ensures
            res.code == ErrorCode::Input,
            res.message@ == message@,
    {
        Self::new(ErrorCode::Input, message)
    }

    pub fn storage(message: &str) -> (res: Self)
        ensures
            res.code == ErrorCode::Storage,
            res.message@ == message@,
    {
        Self::new(ErrorCode::Storage, message)
    }

    pub fn is_auth(&self) -> (res: bool)
        ensures
            res == (self.code == ErrorCode::Auth),
    {
        self.code == ErrorCode::Auth
    }

    /// The text shown for this error: its message alone.
    pub fn to_string(&self) -> (res: String)
        ensures
            res@ == self.message@,
    {
        self.message.clone()
    }
}

/// A poisoned lock means in-process state is corrupt: a local (`Storage`) failure.
pub fn poisoned(what: &str) -> (res: AppError)
    ensures
        res.code == ErrorCode::Storage,
        res.message@ == what@ + "状态已损坏，请重启应用"@,
{
    let mut message = String::from_str(what);
    message.append("状态已损坏，请重启应用");
    AppError::storage(message.as_str())
}

/// Error class of a non-success HTTP status from the site: 401 and 403 mean the
/// credential was refused; 429 and 5xx are temporary and may be retried; any other
/// status breaks the interface contract.
pub open spec fn status_code_class(status: u16) -> ErrorCode {
    if status == 401 || status == 403 {
        ErrorCode::Auth
    } else if status == 429 || status >= 500 {
        ErrorCode::Network
    } else {
        ErrorCode::Data
    }
}

pub open spec fn status_detail(status: u16, status_text: Seq<char>) -> Seq<char> {
    if status == 401 || status == 403 {
        "Cookie 无效或已过期, 请从浏览器重新获取"@
    } else if status == 429 {
        "请求过于频繁, 请稍后重试"@
    } else {
        "HTTP "@ + status_text
    }
}

/// The error for a non-success HTTP reply: `context` names the request, and
/// `status_text` is the status as displayed (code and reason).
pub fn status_error(status: u16, status_text: &str, context: &str) -> (res: AppError)
    ensures
        res.code == status_code_class(status),
        res.message@ == context@ + ": "@ + status_detail(status, status_text@),
{
    let mut message = String::from_str(context);
    message.append(": ");
    if status == 401 || status == 403 {
        message.append("Cookie 无效或已过期, 请从浏览器重新获取");
        AppError::auth(message.as_str())
    } else if status == 429 {
        message.append("请求过于频繁, 请稍后重试");
        AppError::network(message.as_str())
    } else {
        message.append("HTTP ");
        message.append(status_text);
        if status >= 500 {
            AppError::network(message.as_str())
        } else {
            AppError::data(message.as_str())
        }
    }
}

} // verus!
