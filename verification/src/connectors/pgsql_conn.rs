//! Configuration for a connection to a PostgreSQL backend.

use vstd::prelude::*;

verus! {

/// Configuration for a connection to a PostgreSQL server; the defaults
/// point at a local server.
#[derive(Debug, Clone, PartialEq, Eq)]
pub struct PgSQLConnConfig {
    /// Use a unix domain socket connection.
    pub use_uds: bool,
    /// Socket path, when a unix domain socket is used.
    pub socket: Option<String>,
    /// Server address or hostname.
    pub ip: String,
    /// Server port number.
    pub port: u16,
    /// Database name.
    pub database: String,
    /// Connection username.
    pub username: String,
    /// Connection password.
    pub password: String,
    /// Connection pool size.
    pub pool_size: usize,
    /// Connection and query timeout in seconds.
    pub query_timeout: u32,
}

impl PgSQLConnConfig {
    /// The default transport: plain TCP, no unix domain socket.
    pub fn default_use_uds() -> (r: bool)
        ensures
            r == false,
    {
        false
    }

    /// The default socket path: none.
    pub fn default_socket() -> (r: Option<String>)
        ensures
            r is None,
    {
        None
    }

    /// The default server address.
    pub fn default_ip() -> (r: String)
        ensures
            r@ == "127.0.0.1"@,
    {
        "127.0.0.1".to_owned()
    }

    /// The default server port.
    pub fn default_port() -> (r: u16)
        ensures
            r == 5432,
    {
        5432
    }

    /// The default connection username.
    pub fn default_username() -> (r: String)
        ensures
            r@ == "postgres"@,
    {
        "postgres".to_owned()
    }

    /// The default connection password: empty.
    pub fn default_password() -> (r: String)
        ensures
            r@ == Seq::<char>::empty(),
    {
        String::new()
    }

    /// The default database name.
    pub fn default_database() -> (r: String)
        ensures
            r@ == "hebo-mqtt"@,
    {
        "hebo-mqtt".to_owned()
    }

    /// The default pool size.
    pub fn default_pool_size() -> (r: usize)
        ensures
            r == 4,
    {
        4
    }

    /// The default query timeout in seconds.
    pub fn default_query_timeout() -> (r: u32)
        ensures
            r == 5,
    {
        5
    }

    /// The query timeout in seconds.
    pub fn query_timeout(&self) -> (r: u64)
        ensures
            r == self.query_timeout,
    {
        self.query_timeout as u64
    }
}

impl Default for PgSQLConnConfig {
    fn default() -> (r: Self)
        ensures
            r.use_uds == false,
            r.socket is None,
            r.ip@ == "127.0.0.1"@,
            r.port == 5432,
            r.database@ == "hebo-mqtt"@,
            r.username@ == "postgres"@,
            r.password@ == Seq::<char>::empty(),
            r.pool_size == 4,
            r.query_timeout == 5,
    {
        PgSQLConnConfig {
            use_uds: PgSQLConnConfig::default_use_uds(),
            socket: PgSQLConnConfig::default_socket(),
            ip: PgSQLConnConfig::default_ip(),
            port: PgSQLConnConfig::default_port(),
            database: PgSQLConnConfig::default_database(),
            username: PgSQLConnConfig::default_username(),
            password: PgSQLConnConfig::default_password(),
            pool_size: PgSQLConnConfig::default_pool_size(),
            query_timeout: PgSQLConnConfig::default_query_timeout(),
        }
    }
}

} // verus!
