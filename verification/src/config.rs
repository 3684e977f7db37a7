//! The validated configuration the engine runs on: the main
//! listen/target pair and the extra routes, each with its mode,
//! optional host match, log level, timeout and retry allowance.

use vstd::prelude::*;

verus! {

/// How a route moves bytes.
#[derive(Clone, Copy, Debug, PartialEq, Eq, Structural)]
pub enum Mode {
    /// Raw bidirectional byte splice.
    Tcp,
    /// Parse, resolve and forward one HTTP request.
    Http,
}

/// The bytes of `http`.
pub open spec fn http_mode_bytes() -> Seq<u8> {
    seq![104u8, 116u8, 116u8, 112u8]
}

/// The mode a configured tag selects: exactly `http` selects HTTP
/// handling, any other tag the raw splice.
pub open spec fn mode_of(s: Seq<u8>) -> Mode {
    if s == http_mode_bytes() {
        Mode::Http
    } else {
        Mode::Tcp
    }
}

/// Reads a route's mode tag, once, at startup.
pub fn mode_from_bytes(s: &[u8]) -> (r: Mode)
    ensures
        r == mode_of(s@),
{
    let http = vec![104u8, 116u8, 116u8, 112u8];
    assert(http@ =~= http_mode_bytes());
    if crate::text::bytes_eq(s, http.as_slice()) {
        Mode::Http
    } else {
        Mode::Tcp
    }
}

/// How much one route logs.
#[derive(Clone, Copy, Debug, PartialEq, Eq, Structural)]
pub enum LogLevel {
    /// Log nothing.
    Silent,
    /// Log one line per request.
    Basic,
    /// Log request headers too.
    Verbose,
}

/// The bytes of `none`.
pub open spec fn none_level_bytes() -> Seq<u8> {
    seq![110u8, 111u8, 110u8, 101u8]
}

/// The bytes of `verbose`.
pub open spec fn verbose_level_bytes() -> Seq<u8> {
    seq![118u8, 101u8, 114u8, 98u8, 111u8, 115u8, 101u8]
}

/// The level a configured tag selects: `none` silences the route,
/// `verbose` logs headers too, any other tag logs one line.
pub open spec fn log_level_of(s: Seq<u8>) -> LogLevel {
    if s == none_level_bytes() {
        LogLevel::Silent
    } else if s == verbose_level_bytes() {
        LogLevel::Verbose
    } else {
        LogLevel::Basic
    }
}

/// Reads a route's log-level tag, once, at startup.
pub fn log_level_from_bytes(s: &[u8]) -> (r: LogLevel)
    ensures
        r == log_level_of(s@),
{
    let none_tag = vec![110u8, 111u8, 110u8, 101u8];
    let verbose_tag = vec![118u8, 101u8, 114u8, 98u8, 111u8, 115u8, 101u8];
    assert(none_tag@ =~= none_level_bytes());
    assert(verbose_tag@ =~= verbose_level_bytes());
    if crate::text::bytes_eq(s, none_tag.as_slice()) {
        LogLevel::Silent
    } else if crate::text::bytes_eq(s, verbose_tag.as_slice()) {
        LogLevel::Verbose
    } else {
        LogLevel::Basic
    }
}

impl LogLevel {
    /// Whether the route logs at all.
    pub fn allows_logging(&self) -> (r: bool)
        ensures
            r == (*self != LogLevel::Silent),
    {
        match self {
            LogLevel::Silent => false,
            _ => true,
        }
    }

    /// Whether the route logs request headers too.
    pub fn is_verbose(&self) -> (r: bool)
        ensures
            r == (*self == LogLevel::Verbose),
    {
        match self {
            LogLevel::Verbose => true,
            _ => false,
        }
    }
}

/// One configured forwarding rule.
pub struct Route {
    /// The route's name, for logging.
    pub name: Vec<u8>,
    /// Port the route listens on.
    pub listen_port: u16,
    /// Default target host.
    pub target_addr: Vec<u8>,
    /// Default target port.
    pub target_port: u16,
    /// Whether the route starts at all.
    pub enabled: bool,
    /// Raw splice or HTTP handling.
    pub mode: Mode,
    /// Pin requests whose `Host` header equals this to the default
    /// target.
    pub host: Option<Vec<u8>>,
    /// How much the route logs.
    pub log_level: LogLevel,
    /// Hard per-attempt timeout, in seconds.
    pub timeout_seconds: u64,
    /// Retries allowed beyond the first attempt.
    pub max_retries: u32,
}

/// The mathematical content of one route.
#[verifier::ext_equal]
pub ghost struct RouteModel {
    pub name: Seq<u8>,
    pub listen_port: u16,
    pub target_addr: Seq<u8>,
    pub target_port: u16,
    pub enabled: bool,
    pub mode: Mode,
    pub host: Option<Seq<u8>>,
    pub log_level: LogLevel,
    pub timeout_seconds: u64,
    pub max_retries: u32,
}

impl View for Route {
    type V = RouteModel;

    open spec fn view(&self) -> RouteModel {
        RouteModel {
            name: self.name@,
            listen_port: self.listen_port,
            target_addr: self.target_addr@,
            target_port: self.target_port,
            enabled: self.enabled,
            mode: self.mode,
            host: match self.host {
                None => None,
                Some(ref h) => Some(h@),
            },
            log_level: self.log_level,
            timeout_seconds: self.timeout_seconds,
            max_retries: self.max_retries,
        }
    }
}

impl Clone for Route {
    fn clone(&self) -> (r: Self)
        ensures
            r@ == self@,
    {
        Route {
            name: crate::text::clone_bytes(self.name.as_slice()),
            listen_port: self.listen_port,
            target_addr: crate::text::clone_bytes(self.target_addr.as_slice()),
            target_port: self.target_port,
            enabled: self.enabled,
            mode: self.mode,
            host: match &self.host {
                None => None,
                Some(h) => Some(crate::text::clone_bytes(h.as_slice())),
            },
            log_level: self.log_level,
            timeout_seconds: self.timeout_seconds,
            max_retries: self.max_retries,
        }
    }
}

/// The views of a vector of routes.
pub open spec fn routes_view(rs: Seq<Route>) -> Seq<RouteModel> {
    rs.map_values(|r: Route| r@)
}

/// The whole validated configuration.
pub struct Config {
    /// Address every listener binds.
    pub listen_addr: Vec<u8>,
    /// Port of the main route.
    pub listen_port: u16,
    /// Target host of the main route.
    pub target_addr: Vec<u8>,
    /// Target port of the main route.
    pub target_port: u16,
    /// Per-route cap on concurrent connections.
    pub max_connections: usize,
    /// Splice chunk size, in KiB.
    pub buffer_size_kb: usize,
    /// Whether requests are logged at all.
    pub log_requests: bool,
    /// Log format tag; only `default` exists today.
    pub log_format: Vec<u8>,
    /// The extra routes beside the main one.
    pub routes: Vec<Route>,
}

/// The mathematical content of the configuration.
#[verifier::ext_equal]
pub ghost struct ConfigModel {
    pub listen_addr: Seq<u8>,
    pub listen_port: u16,
    pub target_addr: Seq<u8>,
    pub target_port: u16,
    pub max_connections: usize,
    pub buffer_size_kb: usize,
    pub log_requests: bool,
    pub log_format: Seq<u8>,
    pub routes: Seq<RouteModel>,
}

impl View for Config {
    type V = ConfigModel;

    open spec fn view(&self) -> ConfigModel {
        ConfigModel {
            listen_addr: self.listen_addr@,
            listen_port: self.listen_port,
            target_addr: self.target_addr@,
            target_port: self.target_port,
            max_connections: self.max_connections,
            buffer_size_kb: self.buffer_size_kb,
            log_requests: self.log_requests,
            log_format: self.log_format@,
            routes: routes_view(self.routes@),
        }
    }
}

/// The bytes of `0.0.0.0`.
pub open spec fn any_addr_bytes() -> Seq<u8> {
    seq![48u8, 46u8, 48u8, 46u8, 48u8, 46u8, 48u8]
}

/// The bytes of `127.0.0.1`.
pub open spec fn loopback_bytes() -> Seq<u8> {
    seq![49u8, 50u8, 55u8, 46u8, 48u8, 46u8, 48u8, 46u8, 49u8]
}

/// The bytes of `default`.
pub open spec fn default_format_bytes() -> Seq<u8> {
    seq![100u8, 101u8, 102u8, 97u8, 117u8, 108u8, 116u8]
}

/// The configuration used when no file is given: listen on
/// `0.0.0.0:8080`, forward to `127.0.0.1:80`, 100 connections,
/// 8 KiB chunks, requests logged, no extra routes.
pub open spec fn default_config() -> ConfigModel {
    ConfigModel {
        listen_addr: any_addr_bytes(),
        listen_port: 8080,
        target_addr: loopback_bytes(),
        target_port: 80,
        max_connections: 100,
        buffer_size_kb: 8,
        log_requests: true,
        log_format: default_format_bytes(),
        routes: Seq::empty(),
    }
}

impl Default for Config {
    /// The configuration used when no file is given.
    fn default() -> (r: Config)
        ensures
            r@ == default_config(),
    {
        let listen_addr = vec![48u8, 46u8, 48u8, 46u8, 48u8, 46u8, 48u8];
        let target_addr = vec![49u8, 50u8, 55u8, 46u8, 48u8, 46u8, 48u8, 46u8, 49u8];
        let log_format = vec![100u8, 101u8, 102u8, 97u8, 117u8, 108u8, 116u8];
        assert(listen_addr@ =~= any_addr_bytes());
        assert(target_addr@ =~= loopback_bytes());
        assert(log_format@ =~= default_format_bytes());
        let r = Config {
            listen_addr,
            listen_port: 8080,
            target_addr,
            target_port: 80,
            max_connections: 100,
            buffer_size_kb: 8,
            log_requests: true,
            log_format,
            routes: Vec::new(),
        };
        proof {
            assert(routes_view(r.routes@) =~= Seq::<RouteModel>::empty());
            assert(r@ =~= default_config());
        }
        r
    }
}

/// The routes that actually start.
pub open spec fn enabled_only(rs: Seq<RouteModel>) -> Seq<RouteModel>
    decreases rs.len()
{
    if rs.len() == 0 {
        Seq::empty()
    } else {
        let prev = enabled_only(rs.drop_last());
        if rs.last().enabled {
            prev.push(rs.last())
        } else {
            prev
        }
    }
}

impl Config {
    /// The routes that actually start, in configured order.
    pub fn enabled_routes(&self) -> (r: Vec<Route>)
        ensures
            routes_view(r@) == enabled_only(routes_view(self.routes@)),
    {
        let ghost all = routes_view(self.routes@);
        let mut out: Vec<Route> = Vec::new();
        proof {
            assert(all.take(0) =~= Seq::<RouteModel>::empty());
            assert(routes_view(out@) =~= enabled_only(all.take(0)));
        }
        let mut i: usize = 0;
        while i < self.routes.len()
            invariant
                i <= self.routes@.len(),
                all == routes_view(self.routes@),
                all.len() == self.routes@.len(),
                routes_view(out@) == enabled_only(all.take(i as int)),
            decreases self.routes@.len() - i,
        {
            proof {
                assert(all.take(i + 1).drop_last() =~= all.take(i as int));
                assert(all.take(i + 1).last() == all[i as int]);
                assert(all[i as int] == self.routes@[i as int]@);
            }
            if self.routes[i].enabled {
                let ghost prev = out@;
                let cloned = self.routes[i].clone();
                out.push(cloned);
                proof {
                    assert forall|j: int| 0 <= j < out@.len()
                        implies #[trigger] routes_view(out@)[j]
                            == enabled_only(all.take(i + 1))[j] by {
                        if j < prev.len() {
                            assert(routes_view(prev)[j] == enabled_only(all.take(i as int))[j]);
                        }
                    }
                    assert(routes_view(prev).len() == prev.len());
                    assert(routes_view(out@).len() == out@.len());
                    assert(routes_view(out@) =~= enabled_only(all.take(i + 1)));
                }
            }
            i = i + 1;
        }
        proof {
            assert(all.take(i as int) =~= all);
        }
        out
    }
}

/// Writes `host:port`, as listeners and targets are displayed and
/// default targets are parsed.
pub fn host_port_bytes(host: &[u8], port: u16) -> (r: Vec<u8>)
    ensures
        r@ == host@ + seq![58u8] + crate::text::dec_rep(port as nat),
{
    let mut out = crate::text::clone_bytes(host);
    out.push(58);
    let d = crate::text::u64_to_dec(port as u64);
    crate::text::push_bytes(&mut out, d.as_slice());
    assert(out@ =~= host@ + seq![58u8] + crate::text::dec_rep(port as nat));
    out
}

/// The splice chunk size in bytes for a configured KiB count.
pub fn buffer_bytes(buffer_size_kb: usize) -> (r: usize)
    requires
        buffer_size_kb * 1024 <= usize::MAX,
    ensures
        r == buffer_size_kb * 1024,
{
    buffer_size_kb * 1024
}

} // verus!
