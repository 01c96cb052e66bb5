//! The server's configuration: a list of virtual servers.

use vstd::prelude::*;

verus! {

/// What a virtual server does with a request.
#[derive(Debug)]
pub enum ServerKind {
    /// Serves files from a directory.
    Files {
        /// The directory that files are looked for in.
        file_root: String,
        /// The file names that are tried, in order, for the index page.
        index: Vec<String>,
    },
    /// Passes requests on to another server.
    Proxy {
        /// The address of the server that requests are passed to.
        pass: String,
    },
}

/// One virtual server.
#[derive(Debug)]
pub struct ServerConfig {
    pub location: String,
    pub port: u16,
    pub server_kind: ServerKind,
}

/// The whole configuration.
#[derive(Debug)]
pub struct HyperionConfig {
    servers: Vec<ServerConfig>,
}

/// What a `ServerKind` holds, as mathematical values.
pub ghost enum ServerKindView {
    Files { file_root: Seq<char>, index: Seq<Seq<char>> },
    Proxy { pass: Seq<char> },
}

/// What a `ServerConfig` holds, as mathematical values.
pub ghost struct ServerConfigView {
    pub location: Seq<char>,
    pub port: u16,
    pub server_kind: ServerKindView,
}

impl View for ServerKind {
    type V = ServerKindView;

    open spec fn view(&self) -> ServerKindView {
        match self {
            ServerKind::Files { file_root, index } => ServerKindView::Files {
                file_root: file_root@,
                index: Seq::new(index@.len(), |i: int| index@[i]@),
            },
            ServerKind::Proxy { pass } => ServerKindView::Proxy { pass: pass@ },
        }
    }
}

impl View for ServerConfig {
    type V = ServerConfigView;

    open spec fn view(&self) -> ServerConfigView {
        ServerConfigView {
            location: self.location@,
            port: self.port,
            server_kind: self.server_kind@,
        }
    }
}

impl View for HyperionConfig {
    type V = Seq<ServerConfigView>;

    closed spec fn view(&self) -> Seq<ServerConfigView> {
        Seq::new(self.servers@.len(), |i: int| self.servers@[i]@)
    }
}

/// The servers of the configuration that is used when none is given: one
/// that serves files on port 82 and one that proxies on port 83.
pub open spec fn default_servers() -> Seq<ServerConfigView> {
    seq![
        ServerConfigView {
            location: "/"@,
            port: 82,
            server_kind: ServerKindView::Files {
                file_root: "/var/www/html"@,
                index: seq!["index"@, "index.html"@],
            },
        },
        ServerConfigView {
            location: "/"@,
            port: 83,
            server_kind: ServerKindView::Proxy { pass: "localhost:80"@ },
        },
    ]
}

impl HyperionConfig {
    /// The configuration that is used when none is given.
    pub fn new() -> (r: HyperionConfig)
        ensures
            r@ == default_servers(),
    {
        let mut index: Vec<String> = Vec::new();
        index.push("index".to_owned());
        index.push("index.html".to_owned());
        let files = ServerConfig {
            location: "/".to_owned(),
            port: 82,
            server_kind: ServerKind::Files { file_root: "/var/www/html".to_owned(), index },
        };
        let proxy = ServerConfig {
            location: "/".to_owned(),
            port: 83,
            server_kind: ServerKind::Proxy { pass: "localhost:80".to_owned() },
        };
        assert(files@.server_kind->index =~= seq!["index"@, "index.html"@]);
        let mut servers: Vec<ServerConfig> = Vec::new();
        servers.push(files);
        servers.push(proxy);
        let config = HyperionConfig { servers };
        assert(config@ =~= default_servers());
        config
    }

    /// A configuration of the given servers, in the given order.
    pub fn with_servers(servers: Vec<ServerConfig>) -> (r: HyperionConfig)
        ensures
            r@ == Seq::new(servers@.len(), |i: int| servers@[i]@),
    {
        HyperionConfig { servers }
    }

    /// The servers of the configuration, in order.
    pub fn servers(&self) -> (r: &Vec<ServerConfig>)
        ensures
            self@ == Seq::new(r@.len(), |i: int| r@[i]@),
    {
        &self.servers
    }
}

} // verus!
