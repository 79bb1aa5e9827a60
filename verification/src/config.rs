//! The configuration and its defaults.

use vstd::prelude::*;

verus! {

/// A span of time: whole seconds and a rest in nanoseconds.
#[derive(Clone, Copy, Debug, PartialEq, Eq, Structural)]
pub struct TimeSpan {
    pub secs: u64,
    pub nanos: u32,
}

impl TimeSpan {
    /// The rest is less than a second.
    pub open spec fn wf(&self) -> bool {
        self.nanos < 1_000_000_000
    }

    /// The span of no time at all.
    pub fn zero() -> (t: TimeSpan)
        ensures
            t == (TimeSpan { secs: 0, nanos: 0 }),
            t.wf(),
    {
        TimeSpan { secs: 0, nanos: 0 }
    }

    /// A span of `secs` whole seconds.
    pub fn from_secs(secs: u64) -> (t: TimeSpan)
        ensures
            t == (TimeSpan { secs, nanos: 0 }),
            t.wf(),
    {
        TimeSpan { secs, nanos: 0 }
    }

    pub open spec fn spec_is_zero(&self) -> bool {
        self.secs == 0 && self.nanos == 0
    }

    #[verifier::when_used_as_spec(spec_is_zero)]
    pub fn is_zero(&self) -> (b: bool)
        ensures
            b == self.spec_is_zero(),
    {
        self.secs == 0 && self.nanos == 0
    }

    /// The whole seconds of the span, the rest left out.
    pub fn as_secs(&self) -> (s: u64)
        ensures
            s == self.secs,
    {
        self.secs
    }
}

#[derive(Debug, Clone)]
pub struct Server {
    pub host: String,
    pub port: u16,
    pub root: String,
    pub index: String,
    pub auto_index: bool,
}

impl Server {
    pub open spec fn is_default(&self) -> bool {
        &&& self.host@ == "0.0.0.0"@
        &&& self.port == 8080
        &&& self.root@ == "."@
        &&& self.index@ == "index.html"@
        &&& !self.auto_index
    }
}

impl Default for Server {
    fn default() -> (s: Self)
        ensures
            s.is_default(),
    {
        Server {
            host: "0.0.0.0".to_owned(),
            port: 8080,
            root: ".".to_owned(),
            index: "index.html".to_owned(),
            auto_index: false,
        }
    }
}

#[derive(Debug, Clone)]
pub struct Tls {
    pub enabled: bool,
    pub cert_path: String,
    pub key_path: String,
}

impl Tls {
    pub open spec fn is_default(&self) -> bool {
        &&& !self.enabled
        &&& self.cert_path@.len() == 0
        &&& self.key_path@.len() == 0
    }
}

impl Default for Tls {
    fn default() -> (t: Self)
        ensures
            t.is_default(),
    {
        Tls { enabled: false, cert_path: String::new(), key_path: String::new() }
    }
}

/// An upstream to forward to. `add_headers` lists, in order, the headers to
/// set on each forwarded request, each as a name and a value template.
#[derive(Debug, Clone)]
pub struct Proxy {
    pub url: String,
    pub timeout: TimeSpan,
    pub add_headers: Vec<(String, String)>,
}

impl Proxy {
    pub open spec fn is_default(&self) -> bool {
        &&& self.url@.len() == 0
        &&& self.timeout.is_zero()
        &&& self.add_headers@.len() == 0
    }
}

impl Default for Proxy {
    fn default() -> (p: Self)
        ensures
            p.is_default(),
    {
        Proxy { url: String::new(), timeout: TimeSpan::zero(), add_headers: Vec::new() }
    }
}

#[derive(Debug, Clone)]
pub struct Route {
    pub path: String,
    pub serve: Option<String>,
    pub proxy: Option<Proxy>,
}

impl Route {
    pub open spec fn is_default(&self) -> bool {
        &&& self.path@ == "/"@
        &&& self.serve is None
        &&& self.proxy is None
    }
}

impl Default for Route {
    fn default() -> (r: Self)
        ensures
            r.is_default(),
    {
        Route { path: "/".to_owned(), serve: None, proxy: None }
    }
}

#[derive(Debug, Clone)]
pub struct Spa {
    pub enabled: bool,
    pub fallback: String,
}

impl Spa {
    pub open spec fn is_default(&self) -> bool {
        &&& !self.enabled
        &&& self.fallback@ == "index.html"@
    }
}

impl Default for Spa {
    fn default() -> (s: Self)
        ensures
            s.is_default(),
    {
        Spa { enabled: false, fallback: "index.html".to_owned() }
    }
}

#[derive(Debug, Clone)]
pub struct Cache {
    pub enabled: bool,
    pub max_age: TimeSpan,
    /// Kept for configuration files that set it; entity tags are not computed.
    pub etag: bool,
}

impl Cache {
    pub open spec fn is_default(&self) -> bool {
        &&& !self.enabled
        &&& self.max_age == (TimeSpan { secs: 3600, nanos: 0 })
        &&& self.etag
    }
}

impl Default for Cache {
    fn default() -> (c: Self)
        ensures
            c.is_default(),
    {
        Cache { enabled: false, max_age: TimeSpan::from_secs(3600), etag: true }
    }
}

#[derive(Debug, Clone)]
pub struct Assets {
    pub cache: Cache,
}

impl Assets {
    pub open spec fn is_default(&self) -> bool {
        self.cache.is_default()
    }
}

impl Default for Assets {
    fn default() -> (a: Self)
        ensures
            a.is_default(),
    {
        Assets { cache: Cache::default() }
    }
}

#[derive(Debug, Clone)]
pub struct Compression {
    pub enable: bool,
    pub gzip: bool,
    pub br: bool,
}

impl Compression {
    pub open spec fn is_default(&self) -> bool {
        &&& !self.enable
        &&& self.gzip
        &&& self.br
    }
}

impl Default for Compression {
    fn default() -> (c: Self)
        ensures
            c.is_default(),
    {
        Compression { enable: false, gzip: true, br: true }
    }
}

#[derive(Debug, Clone)]
pub struct Cors {
    pub enabled: bool,
    pub allowed_origins: Vec<String>,
    pub allowed_methods: Vec<String>,
}

impl Cors {
    pub open spec fn is_default(&self) -> bool {
        &&& !self.enabled
        &&& self.allowed_origins@.len() == 0
        &&& self.allowed_methods@.len() == 0
    }
}

impl Default for Cors {
    fn default() -> (c: Self)
        ensures
            c.is_default(),
    {
        Cors { enabled: false, allowed_origins: Vec::new(), allowed_methods: Vec::new() }
    }
}

#[derive(Debug, Clone)]
pub struct RateLimit {
    pub enabled: bool,
    pub requests_per_min: u32,
}

impl RateLimit {
    pub open spec fn is_default(&self) -> bool {
        &&& !self.enabled
        &&& self.requests_per_min == 60
    }
}

impl Default for RateLimit {
    fn default() -> (r: Self)
        ensures
            r.is_default(),
    {
        RateLimit { enabled: false, requests_per_min: 60 }
    }
}

/// Cross-origin policy, rate limit, and the headers to put on every response,
/// each as a name and a value, in order.
#[derive(Debug, Clone)]
pub struct Security {
    pub cors: Cors,
    pub rate_limit: RateLimit,
    pub headers: Vec<(String, String)>,
}

impl Security {
    pub open spec fn is_default(&self) -> bool {
        &&& self.cors.is_default()
        &&& self.rate_limit.is_default()
        &&& self.headers@.len() == 0
    }
}

impl Default for Security {
    fn default() -> (s: Self)
        ensures
            s.is_default(),
    {
        Security { cors: Cors::default(), rate_limit: RateLimit::default(), headers: Vec::new() }
    }
}

#[derive(Debug, Clone)]
pub struct Obs {
    /// The log level: `info`, `debug`, and so on.
    pub level: String,
}

impl Obs {
    pub open spec fn is_default(&self) -> bool {
        self.level@ == "info"@
    }
}

impl Default for Obs {
    fn default() -> (o: Self)
        ensures
            o.is_default(),
    {
        Obs { level: "info".to_owned() }
    }
}

#[derive(Debug, Clone)]
pub struct Config {
    pub server: Server,
    pub tls: Tls,
    pub routing: Vec<Route>,
    pub spa: Spa,
    pub assets: Assets,
    pub compression: Compression,
    pub security: Security,
    pub obs: Obs,
}

impl Config {
    pub open spec fn is_default(&self) -> bool {
        &&& self.server.is_default()
        &&& self.tls.is_default()
        &&& self.routing@.len() == 0
        &&& self.spa.is_default()
        &&& self.assets.is_default()
        &&& self.compression.is_default()
        &&& self.security.is_default()
        &&& self.obs.is_default()
    }
}

impl Default for Config {
    fn default() -> (c: Self)
        ensures
            c.is_default(),
    {
        Config {
            server: Server::default(),
            tls: Tls::default(),
            routing: Vec::new(),
            spa: Spa::default(),
            assets: Assets::default(),
            compression: Compression::default(),
            security: Security::default(),
            obs: Obs::default(),
        }
    }
}

} // verus!
