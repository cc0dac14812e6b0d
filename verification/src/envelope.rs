use vstd::prelude::*;

use crate::error::{error_text_spec, Error};
use crate::ping::{Ping, Players, Version};
use crate::query::Query;

verus! {

/// The capability set every result envelope offers: an online flag, a
/// freshness stamp, error folding, and a label for the metrics.
pub trait Metadata: Sized {
    /// When the envelope was fetched, in unix seconds.
    spec fn updated_at_spec(&self) -> u64;

    /// How long the protocol exchange ran, in nanoseconds.
    spec fn duration_spec(&self) -> u64;

    /// Whether the protocol exchange completed and parsed.
    spec fn online_spec(&self) -> bool;

    /// The error text carried by an offline envelope.
    spec fn error_spec(&self) -> Option<Seq<char>>;

    /// The metrics label of this envelope's protocol.
    spec fn label_spec() -> Seq<char>;

    /// Read the fetch time.
    fn updated_at(&self) -> (r: u64)
        ensures
            r == self.updated_at_spec(),
    ;

    /// Read the online flag.
    fn is_online(&self) -> (r: bool)
        ensures
            r == self.online_spec(),
    ;

    /// Stamp the envelope with its fetch time and exchange duration,
    /// leaving everything else as it was.
    fn set_times(self, fetched_at: u64, duration: u64) -> (r: Self)
        ensures
            r.updated_at_spec() == fetched_at,
            r.duration_spec() == duration,
            r.online_spec() == self.online_spec(),
            r.error_spec() == self.error_spec(),
    ;

    /// Fold an error into an offline envelope with zero-filled fields.
    fn from_error(err: Error) -> (r: Self)
        ensures
            !r.online_spec(),
            r.error_spec() == Some(error_text_spec(err)),
            r.updated_at_spec() == 0,
    ;

    /// The metrics label.
    fn label(&self) -> (r: &'static str)
        ensures
            r@ == Self::label_spec(),
    ;
}

/// The envelope returned to callers of the status endpoint.
#[derive(Debug, Clone)]
pub struct ServerPing {
    pub online: bool,
    pub host: String,
    pub port: u16,
    pub version: Version,
    pub players: Players,
    /// The description as the raw JSON text the server sent.
    pub description: String,
    /// The plain-text projection of the description, when it has the
    /// expected shape.
    pub motd: Option<String>,
    pub favicon: Option<String>,
    /// Present only when offline.
    pub error: Option<String>,
    /// Unix seconds at refresh completion.
    pub fetched_at: u64,
    /// Nanoseconds spent in the protocol exchange.
    pub duration: u64,
}

impl ServerPing {
    /// Wrap a completed ping exchange for the given request.
    pub fn from_ping(host: String, port: u16, ping: Ping, motd: Option<String>) -> (r: ServerPing)
        ensures
            r.online,
            r.host == host,
            r.port == port,
            r.version == ping.version,
            r.players == ping.players,
            r.description == ping.description,
            r.motd == motd,
            r.favicon == ping.favicon,
            r.error is None,
            r.fetched_at == 0,
            r.duration == 0,
    {
        ServerPing {
            online: true,
            host,
            port,
            version: ping.version,
            players: ping.players,
            description: ping.description,
            motd,
            favicon: ping.favicon,
            error: None,
            fetched_at: 0,
            duration: 0,
        }
    }

    /// Fold an error into an offline envelope, every protocol field
    /// zero-filled and only the error text carried.
    pub fn offline(err: Error) -> (r: ServerPing)
        ensures
            !r.online,
            r.host@ == Seq::<char>::empty(),
            r.port == 0,
            r.version.name is None,
            r.version.protocol == 0,
            r.players.max == 0,
            r.players.online == 0,
            r.players.sample is None,
            r.description@ == Seq::<char>::empty(),
            r.motd is None,
            r.favicon is None,
            r.error matches Some(m) && m@ == error_text_spec(err),
            r.fetched_at == 0,
            r.duration == 0,
    {
        let text = err.text();
        ServerPing {
            online: false,
            host: String::new(),
            port: 0,
            version: Version { name: None, protocol: 0 },
            players: Players { max: 0, online: 0, sample: None },
            description: String::new(),
            motd: None,
            favicon: None,
            error: Some(text),
            fetched_at: 0,
            duration: 0,
        }
    }

    /// The word reported in the status field.
    pub fn status(&self) -> (r: &'static str)
        ensures
            self.online ==> r@ == "online"@,
            !self.online ==> r@ == "offline"@,
    {
        if self.online {
            "online"
        } else {
            "offline"
        }
    }
}

impl Metadata for ServerPing {
    open spec fn updated_at_spec(&self) -> u64 {
        self.fetched_at
    }

    open spec fn duration_spec(&self) -> u64 {
        self.duration
    }

    open spec fn online_spec(&self) -> bool {
        self.online
    }

    open spec fn error_spec(&self) -> Option<Seq<char>> {
        match self.error {
            Some(e) => Some(e@),
            None => None,
        }
    }

    open spec fn label_spec() -> Seq<char> {
        "ping"@
    }

    fn updated_at(&self) -> u64 {
        self.fetched_at
    }

    fn is_online(&self) -> bool {
        self.online
    }

    fn set_times(self, fetched_at: u64, duration: u64) -> ServerPing {
        ServerPing { fetched_at, duration, ..self }
    }

    fn from_error(err: Error) -> ServerPing {
        ServerPing::offline(err)
    }

    fn label(&self) -> &'static str {
        "ping"
    }
}

/// The envelope returned to callers of the query endpoint.
#[derive(Debug)]
pub struct ServerQuery {
    pub online: bool,
    pub host: String,
    pub port: u16,
    /// Server-supplied stat fields; one entry per key, the last value wins.
    pub kv: Vec<(String, String)>,
    /// The server mod name and its plugin list.
    pub server: (String, Vec<String>),
    /// The player names, in the order the server listed them.
    pub players: Vec<String>,
    /// Present only when offline.
    pub error: Option<String>,
    /// Unix seconds at refresh completion.
    pub fetched_at: u64,
    /// Nanoseconds spent in the protocol exchange.
    pub duration: u64,
}

impl ServerQuery {
    /// Wrap a completed query exchange for the given request.
    pub fn from_query(host: String, port: u16, query: Query) -> (r: ServerQuery)
        ensures
            r.online,
            r.host == host,
            r.port == port,
            r.kv == query.kv,
            r.server == query.server,
            r.players == query.players,
            r.error is None,
            r.fetched_at == 0,
            r.duration == 0,
    {
        ServerQuery {
            online: true,
            host,
            port,
            kv: query.kv,
            server: query.server,
            players: query.players,
            error: None,
            fetched_at: 0,
            duration: 0,
        }
    }

    /// Fold an error into an offline envelope, every protocol field
    /// zero-filled and only the error text carried.
    pub fn offline(err: Error) -> (r: ServerQuery)
        ensures
            !r.online,
            r.host@ == Seq::<char>::empty(),
            r.port == 0,
            r.kv@ == Seq::<(String, String)>::empty(),
            r.server.0@ == Seq::<char>::empty(),
            r.server.1@ == Seq::<String>::empty(),
            r.players@ == Seq::<String>::empty(),
            r.error matches Some(m) && m@ == error_text_spec(err),
            r.fetched_at == 0,
            r.duration == 0,
    {
        let text = err.text();
        ServerQuery {
            online: false,
            host: String::new(),
            port: 0,
            kv: Vec::new(),
            server: (String::new(), Vec::new()),
            players: Vec::new(),
            error: Some(text),
            fetched_at: 0,
            duration: 0,
        }
    }

    /// The word reported in the status field.
    pub fn status(&self) -> (r: &'static str)
        ensures
            self.online ==> r@ == "online"@,
            !self.online ==> r@ == "offline"@,
    {
        if self.online {
            "online"
        } else {
            "offline"
        }
    }
}

impl Metadata for ServerQuery {
    open spec fn updated_at_spec(&self) -> u64 {
        self.fetched_at
    }

    open spec fn duration_spec(&self) -> u64 {
        self.duration
    }

    open spec fn online_spec(&self) -> bool {
        self.online
    }

    open spec fn error_spec(&self) -> Option<Seq<char>> {
        match self.error {
            Some(e) => Some(e@),
            None => None,
        }
    }

    open spec fn label_spec() -> Seq<char> {
        "query"@
    }

    fn updated_at(&self) -> u64 {
        self.fetched_at
    }

    fn is_online(&self) -> bool {
        self.online
    }

    fn set_times(self, fetched_at: u64, duration: u64) -> ServerQuery {
        ServerQuery { fetched_at, duration, ..self }
    }

    fn from_error(err: Error) -> ServerQuery {
        ServerQuery::offline(err)
    }

    fn label(&self) -> &'static str {
        "query"
    }
}

} // verus!
