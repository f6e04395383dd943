//! Core of an MQTT broker: wire-format codec, topic matching, session state,
//! authentication records and the dispatcher's routing rules.

pub mod auth;
pub mod base;
pub mod byte_array;
pub mod commands;
pub mod connect_flags;
pub mod connectors;
pub mod dashboard;
pub mod data;
pub mod dispatcher;
pub mod error;
pub mod metrics;
pub mod session;
pub mod stream;
pub mod string_pair_data;
pub mod topic;
pub mod u16_data;
pub mod utils;
pub mod v3;
pub mod v5;
