//! The server's configuration values. Reading and writing the configuration
//! file is the surrounding process's business; this core only defines the
//! values and their defaults.
use vstd::prelude::*;

verus! {

/// The configuration values the server runs with.
pub struct Config {
    pub http_sock: String,
    pub server_name: String,
    pub server_bot_id: i32,
    pub sql_server: String,
    pub sql_db: String,
    pub sql_user: String,
    pub sql_passwd: String,
}

impl Config {
    /// The default configuration, used when generating a fresh one.
    pub fn default() -> (c: Config)
        ensures
            c.http_sock@ == "/tmp/kisumi.sock"@,
            c.server_name@ == "KisumiDev"@,
            c.server_bot_id == 999,
            c.sql_server@ == "localhost"@,
            c.sql_db@ == "rosu"@,
            c.sql_user@ == "rosu"@,
            c.sql_passwd@ == Seq::<char>::empty(),
    {
        Config {
            http_sock: "/tmp/kisumi.sock".to_owned(),
            server_name: "KisumiDev".to_owned(),
            server_bot_id: 999,
            sql_server: "localhost".to_owned(),
            sql_db: "rosu".to_owned(),
            sql_user: "rosu".to_owned(),
            sql_passwd: String::new(),
        }
    }
}

} // verus!
