use vstd::prelude::*;

use crate::paths::{join_path, joined};
use crate::text::{decimal, push_decimal};

verus! {

/// `host:port`, the port in decimal.
pub open spec fn address(host: Seq<char>, port: u16) -> Seq<char> {
    host + ":"@ + decimal(port as nat)
}

fn format_address(host: &String, port: u16) -> (r: String)
    ensures
        r@ == address(host@, port),
{
    let mut r = host.clone();
    r.append(":");
    push_decimal(&mut r, port as u64);
    r
}

/// Settings of the engine: where to listen, what to serve and where extensions live.
/// Paths are held as text.
#[derive(Debug, Clone)]
pub struct EngineConfig {
    pub host: String,
    pub port: u16,
    pub document_root: String,
    pub index_file: String,
    pub extensions_dir: String,
}

impl Default for EngineConfig {
    fn default() -> (r: Self)
        ensures
            r.host@ == "127.0.0.1"@,
            r.port == 3000,
            r.document_root@ == "jhp-tests"@,
            r.index_file@ == "index.jhp"@,
            r.extensions_dir@ == "ext"@,
    {
        EngineConfig {
            host: String::from_str("127.0.0.1"),
            port: 3000,
            document_root: String::from_str("jhp-tests"),
            index_file: String::from_str("index.jhp"),
            extensions_dir: String::from_str("ext"),
        }
    }
}

impl EngineConfig {
    /// The listening address, `host:port`.
    pub fn addr(&self) -> (r: String)
        ensures
            r@ == address(self.host@, self.port),
    {
        format_address(&self.host, self.port)
    }

    /// The index document under the document root.
    pub fn index_path(&self) -> (r: String)
        ensures
            r@ == joined(self.document_root@, self.index_file@),
    {
        join_path(self.document_root.as_str(), self.index_file.as_str())
    }

    /// The same settings with another document root.
    pub fn set_document_root(self, root: &str) -> (r: Self)
        ensures
            r.document_root@ == root@,
            r.host == self.host,
            r.port == self.port,
            r.index_file == self.index_file,
            r.extensions_dir == self.extensions_dir,
    {
        let mut c = self;
        c.document_root = String::from_str(root);
        c
    }

    /// The same settings with another extensions directory.
    pub fn set_extensions_dir(self, dir: &str) -> (r: Self)
        ensures
            r.extensions_dir@ == dir@,
            r.host == self.host,
            r.port == self.port,
            r.document_root == self.document_root,
            r.index_file == self.index_file,
    {
        let mut c = self;
        c.extensions_dir = String::from_str(dir);
        c
    }

    /// The part of the settings that the HTTP front end needs.
    pub fn http(&self) -> (r: HttpServerConfig)
        ensures
            r.host == self.host,
            r.port == self.port,
            r.document_root == self.document_root,
            r.index_file == self.index_file,
    {
        HttpServerConfig::from(self)
    }
}

/// Settings of the HTTP front end.
#[derive(Debug, Clone)]
pub struct HttpServerConfig {
    pub host: String,
    pub port: u16,
    pub document_root: String,
    pub index_file: String,
}

impl HttpServerConfig {
    /// The listening address, `host:port`.
    pub fn addr(&self) -> (r: String)
        ensures
            r@ == address(self.host@, self.port),
    {
        format_address(&self.host, self.port)
    }

    /// The index document under the document root.
    pub fn index_path(&self) -> (r: String)
        ensures
            r@ == joined(self.document_root@, self.index_file@),
    {
        join_path(self.document_root.as_str(), self.index_file.as_str())
    }
}

impl<'a> From<&'a EngineConfig> for HttpServerConfig {
    fn from(cfg: &'a EngineConfig) -> (r: Self) {
        HttpServerConfig {
            host: cfg.host.clone(),
            port: cfg.port,
            document_root: cfg.document_root.clone(),
            index_file: cfg.index_file.clone(),
        }
    }
}

impl<'a> vstd::std_specs::convert::FromSpecImpl<&'a EngineConfig> for HttpServerConfig {
    open spec fn obeys_from_spec() -> bool {
        true
    }

    open spec fn from_spec(cfg: &'a EngineConfig) -> Self {
        HttpServerConfig {
            host: cfg.host,
            port: cfg.port,
            document_root: cfg.document_root,
            index_file: cfg.index_file,
        }
    }
}

/// The directory that documents are served from, and its index document.
#[derive(Debug, Clone)]
pub struct DocumentRoot {
    root: String,
    index_file: String,
}

impl DocumentRoot {
    /// The directory, as text.
    pub closed spec fn root_view(&self) -> Seq<char> {
        self.root@
    }

    /// The name of the index document.
    pub closed spec fn index_view(&self) -> Seq<char> {
        self.index_file@
    }

    /// A document root at `root` whose index document is `index_file`.
    pub fn new(root: String, index_file: String) -> (r: Self)
        ensures
            r.root_view() == root@,
            r.index_view() == index_file@,
    {
        DocumentRoot { root, index_file }
    }

    /// The directory itself.
    pub fn root(&self) -> (r: &str)
        ensures
            r@ == self.root_view(),
    {
        self.root.as_str()
    }

    /// The full path of the index document.
    pub fn index_path(&self) -> (r: String)
        ensures
            r@ == joined(self.root_view(), self.index_view()),
    {
        join_path(self.root.as_str(), self.index_file.as_str())
    }

    /// The name of the index document.
    pub fn index_name(&self) -> (r: &str)
        ensures
            r@ == self.index_view(),
    {
        self.index_file.as_str()
    }
}

} // verus!
