//! Configuration of backend connectors.

pub mod pgsql_conn;

pub use pgsql_conn::PgSQLConnConfig;
