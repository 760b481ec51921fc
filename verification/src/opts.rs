//! Connection options.
//!
//! Everything a pool is built from: the server list, the database, the
//! credentials, the TLS configuration and the retry budget.  Immutable
//! once a pool has been built from it.

use vstd::prelude::*;

verus! {

/// TLS configuration: the CA certificate bundle to trust.
#[derive(Debug, Clone)]
pub struct SslCfg {
    pub ca_certs: String,
}

/// Options a connection pool is built from.
#[derive(Debug, Clone)]
pub struct ConnectOpts {
    pub servers: Vec<String>,
    pub db: String,
    pub user: String,
    pub password: String,
    pub retries: u32,
    pub tls: Option<SslCfg>,
}

impl Default for ConnectOpts {
    /// The stock options: one local server, database `test`, user
    /// `admin`, an empty password, five attempts, no TLS.
    fn default() -> (r: ConnectOpts)
        ensures
            r.servers@.len() == 1,
            r.servers@[0]@ == "localhost:28015"@,
            r.db@ == "test"@,
            r.user@ == "admin"@,
            r.password@.len() == 0,
            r.retries == 5,
            r.tls is None,
    {
        proof {
            reveal_strlit("");
        }
        let mut servers: Vec<String> = Vec::new();
        servers.push("localhost:28015".to_owned());
        ConnectOpts {
            servers,
            db: "test".to_owned(),
            user: "admin".to_owned(),
            password: "".to_owned(),
            retries: 5,
            tls: None,
        }
    }
}

impl ConnectOpts {
    /// Sets the servers.
    pub fn set_servers(self, s: Vec<String>) -> (r: Self)
        ensures
            r.servers == s,
            r.db == self.db,
            r.user == self.user,
            r.password == self.password,
            r.retries == self.retries,
            r.tls == self.tls,
    {
        ConnectOpts { servers: s, ..self }
    }

    /// Sets the database.
    pub fn set_db(self, d: String) -> (r: Self)
        ensures
            r.db == d,
            r.servers == self.servers,
            r.user == self.user,
            r.password == self.password,
            r.retries == self.retries,
            r.tls == self.tls,
    {
        ConnectOpts { db: d, ..self }
    }

    /// Sets the user.
    pub fn set_user(self, u: String) -> (r: Self)
        ensures
            r.user == u,
            r.servers == self.servers,
            r.db == self.db,
            r.password == self.password,
            r.retries == self.retries,
            r.tls == self.tls,
    {
        ConnectOpts { user: u, ..self }
    }

    /// Sets the password.
    pub fn set_password(self, p: String) -> (r: Self)
        ensures
            r.password == p,
            r.servers == self.servers,
            r.db == self.db,
            r.user == self.user,
            r.retries == self.retries,
            r.tls == self.tls,
    {
        ConnectOpts { password: p, ..self }
    }

    /// Sets the retry budget.
    pub fn set_retries(self, n: u32) -> (r: Self)
        ensures
            r.retries == n,
            r.servers == self.servers,
            r.db == self.db,
            r.user == self.user,
            r.password == self.password,
            r.tls == self.tls,
    {
        ConnectOpts { retries: n, ..self }
    }
}

/// The status a write operation reports back.
#[derive(Debug, Clone, PartialEq, Eq)]
pub struct WriteStatus {
    pub inserted: u32,
    pub replaced: u32,
    pub unchanged: u32,
    pub skipped: u32,
    pub deleted: u32,
    pub errors: u32,
    pub first_error: Option<String>,
    pub generated_keys: Option<Vec<String>>,
    pub warnings: Option<String>,
}

} // verus!
