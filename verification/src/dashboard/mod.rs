//! Types shared with the management dashboard.

pub mod error_code;

pub use error_code::ErrorCode;
