//! Assembling the web server: a builder that collects the Discord HTTP
//! client, the shard manager, the configuration, the poll index, the
//! database and the bind address, and refuses to build while one is missing.

use vstd::prelude::*;

verus! {

/// What the routes of the web server share.
#[derive(Clone)]
pub struct AppState<H, S, C, P, D> {
    pub http: H,
    pub shard_manager: S,
    pub config_manager: C,
    pub poll_cache: P,
    pub db: D,
}

/// A web server ready to run: its shared state and its bind address (IPv4
/// octets and port).
pub struct WebServer<H, S, C, P, D> {
    pub state: AppState<H, S, C, P, D>,
    pub addr: ([u8; 4], u16),
}

impl<H, S, C, P, D> WebServer<H, S, C, P, D> {
    /// A builder with nothing set.
    pub fn builder() -> (r: WebServerBuilder<H, S, C, P, D>)
        ensures
            r.http is None,
            r.shard_manager is None,
            r.config_manager is None,
            r.addr is None,
            r.poll_cache is None,
            r.db is None,
    {
        WebServerBuilder::new()
    }
}

/// The part a builder still lacks.
#[derive(Clone, Copy, PartialEq, Eq, Structural, Debug)]
pub enum BuildError {
    MissingHttp,
    MissingShardManager,
    MissingConfig,
    MissingAddress,
    MissingPollCache,
    MissingDatabase,
}

/// The message of a build error.
pub fn build_error_text(e: BuildError) -> (r: &'static str)
    ensures
        r@ == match e {
            BuildError::MissingHttp => "http must be provided to WebServerBuilder"@,
            BuildError::MissingShardManager => "shard_manager must be provided to WebServerBuilder"@,
            BuildError::MissingConfig => "config must be provided to WebServerBuilder"@,
            BuildError::MissingAddress => "bind address must be provided to WebServerBuilder"@,
            BuildError::MissingPollCache => "poll cache must be provided to WebServerBuilder"@,
            BuildError::MissingDatabase => "db must be provided to WebServerBuilder"@,
        },
{
    match e {
        BuildError::MissingHttp => "http must be provided to WebServerBuilder",
        BuildError::MissingShardManager => "shard_manager must be provided to WebServerBuilder",
        BuildError::MissingConfig => "config must be provided to WebServerBuilder",
        BuildError::MissingAddress => "bind address must be provided to WebServerBuilder",
        BuildError::MissingPollCache => "poll cache must be provided to WebServerBuilder",
        BuildError::MissingDatabase => "db must be provided to WebServerBuilder",
    }
}

/// Collects the parts of a web server.
pub struct WebServerBuilder<H, S, C, P, D> {
    pub http: Option<H>,
    pub shard_manager: Option<S>,
    pub config_manager: Option<C>,
    pub addr: Option<([u8; 4], u16)>,
    pub poll_cache: Option<P>,
    pub db: Option<D>,
}

/// The first part that `b` lacks, in the order `build` checks them.
pub open spec fn first_missing<H, S, C, P, D>(b: WebServerBuilder<H, S, C, P, D>) -> Option<BuildError> {
    if b.http is None {
        Some(BuildError::MissingHttp)
    } else if b.shard_manager is None {
        Some(BuildError::MissingShardManager)
    } else if b.config_manager is None {
        Some(BuildError::MissingConfig)
    } else if b.addr is None {
        Some(BuildError::MissingAddress)
    } else if b.poll_cache is None {
        Some(BuildError::MissingPollCache)
    } else if b.db is None {
        Some(BuildError::MissingDatabase)
    } else {
        None
    }
}

impl<H, S, C, P, D> WebServerBuilder<H, S, C, P, D> {
    /// A builder with nothing set.
    pub fn new() -> (r: Self)
        ensures
            r.http is None,
            r.shard_manager is None,
            r.config_manager is None,
            r.addr is None,
            r.poll_cache is None,
            r.db is None,
    {
        WebServerBuilder {
            http: None,
            shard_manager: None,
            config_manager: None,
            addr: None,
            poll_cache: None,
            db: None,
        }
    }

    /// Sets the Discord HTTP client.
    pub fn http(self, http: H) -> (r: Self)
        ensures
            r == (WebServerBuilder { http: Some(http), ..self }),
    {
        WebServerBuilder { http: Some(http), ..self }
    }

    /// Sets the shard manager.
    pub fn shard_manager(self, shard_manager: S) -> (r: Self)
        ensures
            r == (WebServerBuilder { shard_manager: Some(shard_manager), ..self }),
    {
        WebServerBuilder { shard_manager: Some(shard_manager), ..self }
    }

    /// Sets the configuration.
    pub fn config_manager(self, config_manager: C) -> (r: Self)
        ensures
            r == (WebServerBuilder { config_manager: Some(config_manager), ..self }),
    {
        WebServerBuilder { config_manager: Some(config_manager), ..self }
    }

    /// Sets the bind address.
    pub fn bind(self, addr: ([u8; 4], u16)) -> (r: Self)
        ensures
            r == (WebServerBuilder { addr: Some(addr), ..self }),
    {
        WebServerBuilder { addr: Some(addr), ..self }
    }

    /// Sets the poll index.
    pub fn poll_cache(self, poll_cache: P) -> (r: Self)
        ensures
            r == (WebServerBuilder { poll_cache: Some(poll_cache), ..self }),
    {
        WebServerBuilder { poll_cache: Some(poll_cache), ..self }
    }

    /// Sets the database connection.
    pub fn db(self, db: D) -> (r: Self)
        ensures
            r == (WebServerBuilder { db: Some(db), ..self }),
    {
        WebServerBuilder { db: Some(db), ..self }
    }

    /// Builds the server once every part is set; else names the first part
    /// missing (HTTP client, shard manager, configuration, address, poll
    /// index, database, in that order).
    pub fn build(self) -> (r: Result<WebServer<H, S, C, P, D>, BuildError>)
        ensures
            match first_missing(self) {
                Some(e) => r == Err::<WebServer<H, S, C, P, D>, BuildError>(e),
                None => r matches Ok(w) && Some(w.state.http) == self.http && Some(w.state.shard_manager)
                    == self.shard_manager && Some(w.state.config_manager) == self.config_manager
                    && Some(w.addr) == self.addr && Some(w.state.poll_cache) == self.poll_cache
                    && Some(w.state.db) == self.db,
            },
    {
        let http = match self.http {
            Some(h) => h,
            None => return Err(BuildError::MissingHttp),
        };
        let shard_manager = match self.shard_manager {
            Some(s) => s,
            None => return Err(BuildError::MissingShardManager),
        };
        let config_manager = match self.config_manager {
            Some(c) => c,
            None => return Err(BuildError::MissingConfig),
        };
        let addr = match self.addr {
            Some(a) => a,
            None => return Err(BuildError::MissingAddress),
        };
        let poll_cache = match self.poll_cache {
            Some(p) => p,
            None => return Err(BuildError::MissingPollCache),
        };
        let db = match self.db {
            Some(d) => d,
            None => return Err(BuildError::MissingDatabase),
        };
        Ok(WebServer { state: AppState { http, shard_manager, config_manager, poll_cache, db }, addr })
    }
}

} // verus!
