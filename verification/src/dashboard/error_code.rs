//! The error codes dashboard replies carry.

use vstd::prelude::*;

verus! {

/// The outcome codes a dashboard reply may carry.
#[derive(Debug, Clone, Copy, PartialEq, Eq, Structural)]
pub enum ErrorCode {
    OK,
    /// Channel connected to the server context closed abnormally.
    BadRpc,
    /// Unknown error.
    UnknownError,
    /// Username or password error.
    UsernamePasswordError,
    /// Empty username or password.
    EmptyUsernamePassword,
    /// User does not exist.
    UserNotFound,
    /// Admin can not be deleted.
    DeleteAdminDenied,
    /// Missing request parameter.
    MissingRequiredParam,
    /// Request parameter type error.
    ParamTypeError,
    /// Request parameter is not a json.
    ParamInvalidJson,
}

/// The numeric code of each outcome.
pub open spec fn spec_error_code_value(c: ErrorCode) -> u8 {
    match c {
        ErrorCode::OK => 0,
        ErrorCode::BadRpc => 101,
        ErrorCode::UnknownError => 102,
        ErrorCode::UsernamePasswordError => 103,
        ErrorCode::EmptyUsernamePassword => 104,
        ErrorCode::UserNotFound => 105,
        ErrorCode::DeleteAdminDenied => 106,
        ErrorCode::MissingRequiredParam => 107,
        ErrorCode::ParamTypeError => 108,
        ErrorCode::ParamInvalidJson => 109,
    }
}

impl ErrorCode {
    /// The numeric code sent to dashboard clients.
    pub fn code(self) -> (r: u8)
        ensures
            r == spec_error_code_value(self),
    {
        match self {
            ErrorCode::OK => 0,
            ErrorCode::BadRpc => 101,
            ErrorCode::UnknownError => 102,
            ErrorCode::UsernamePasswordError => 103,
            ErrorCode::EmptyUsernamePassword => 104,
            ErrorCode::UserNotFound => 105,
            ErrorCode::DeleteAdminDenied => 106,
            ErrorCode::MissingRequiredParam => 107,
            ErrorCode::ParamTypeError => 108,
            ErrorCode::ParamInvalidJson => 109,
        }
    }
}

} // verus!
