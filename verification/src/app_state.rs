//! The server's state: its replication role, its configuration and the
//! key/value data it serves.
use crate::store::RedisStore;
use vstd::prelude::*;
use vstd::string::StringExecFns;

verus! {

/// The port a server listens on unless `--port` says otherwise.
pub const DEFAULT_PORT: i32 = 6379i32;

/// Whether the server leads or follows a replication.
#[derive(Debug, Clone, Copy, PartialEq, Eq, Structural)]
pub enum ServerRole {
    Master,
    Slave,
}

/// What the server knows of its place in a replication.
#[derive(Debug, Clone, Copy, PartialEq, Eq, Structural)]
pub struct ReplicationInfo {
    pub role: ServerRole,
}

impl Default for ReplicationInfo {
    /// A server starts as a master.
    fn default() -> (r: Self)
        ensures
            r.role == ServerRole::Master,
    {
        ReplicationInfo { role: ServerRole::Master }
    }
}

/// A stored value and the instant after which it is gone, if any. Instants
/// are nanoseconds on the server's monotonic clock.
#[derive(Debug)]
pub struct RedisStateValue {
    pub expiry: Option<u128>,
    pub value: String,
}

impl View for RedisStateValue {
    type V = (Seq<char>, Option<u128>);

    open spec fn view(&self) -> (Seq<char>, Option<u128>) {
        (self.value@, self.expiry)
    }
}

impl Clone for RedisStateValue {
    fn clone(&self) -> (r: Self)
        ensures
            r == *self,
    {
        RedisStateValue { expiry: self.expiry, value: self.value.clone() }
    }
}

/// Everything a running server holds, but its connections to replicas.
pub struct AppState {
    pub _master_host: String,
    pub _master_port: i32,
    pub master_replid: String,
    pub master_repl_offset: usize,
    pub port: i32,
    pub replication_info: ReplicationInfo,
    pub redis_state: RedisStore,
}

impl Default for AppState {
    /// A master on the default port, following `localhost:6379` by default,
    /// with a fixed replication id, offset zero and no data.
    fn default() -> (r: Self)
        ensures
            r._master_host@ == "localhost"@,
            r._master_port == 6379,
            r.master_replid@ == "8371b4fb1155b71f4a04d3e1bc3e18c4a990aeeb"@,
            r.master_repl_offset == 0,
            r.port == DEFAULT_PORT,
            r.replication_info.role == ServerRole::Master,
            r.redis_state@ == Map::<Seq<char>, (Seq<char>, Option<u128>)>::empty(),
    {
        AppState {
            _master_host: String::from_str("localhost"),
            _master_port: 6379,
            master_replid: String::from_str("8371b4fb1155b71f4a04d3e1bc3e18c4a990aeeb"),
            master_repl_offset: 0,
            port: DEFAULT_PORT,
            replication_info: ReplicationInfo::default(),
            redis_state: RedisStore::new(),
        }
    }
}

} // verus!
