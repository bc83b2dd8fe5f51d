//! The client agent driver's decision logic: building the allocation
//! request, reading the descriptor, deriving where to dial, and the
//! bounded-concurrency state machine that supervises the outbound workers.
//!
//! The HTTP call, the dials and the byte splicing are performed by the
//! process around the library, which feeds their outcomes back in as plain
//! values.

use vstd::prelude::*;
use vstd::string::StrSliceExecFns;
use vstd::string::StringExecFns;
use crate::strutil::{contains_char, dec_digits, has_char, trim_trailing_slashes,
    trim_trailing_slashes_spec, u16_to_string};

verus! {

broadcast use vstd::seq_lib::group_seq_properties;

/// The proxy server dialed when none is configured.
pub fn proxy_server() -> (r: &'static str)
    ensures
        r@ == "https://localtunnel.me"@,
{
    "https://localtunnel.me"
}

/// The local host exposed when none is configured.
pub fn local_host() -> (r: &'static str)
    ensures
        r@ == "127.0.0.1"@,
{
    "127.0.0.1"
}

/// The descriptor the server answers an allocation request with.
#[derive(Debug)]
pub struct ProxyResponse {
    pub id: String,
    pub port: u16,
    pub max_conn_count: u8,
    pub url: String,
    pub cached_url: Option<String>,
    pub ip: Option<String>,
}

/// The connection count assumed when a descriptor does not carry one.
pub fn default_max_conn_count() -> (r: u8)
    ensures
        r == 1,
{
    1
}

/// The server detail for client to connect.
#[derive(Clone, Debug)]
pub struct TunnelServerInfo {
    pub remote_host: String,
    pub remote_port: u16,
    pub remote_ip: Option<String>,
    pub max_conn_count: u8,
    pub url: String,
    pub cached_url: Option<String>,
}

/// The base the allocation request is sent to: the configured server, or the
/// default proxy, with trailing slashes removed.
pub open spec fn base_url_spec(server: Option<String>) -> Seq<char> {
    trim_trailing_slashes_spec(
        if server is Some {
            server->0@
        } else {
            "https://localtunnel.me"@
        },
    )
}

/// The full allocation URL: base, slash, the requested subdomain or the
/// `?new` sentinel, and the credential as a query parameter when present.
pub open spec fn allocation_url_spec(
    server: Option<String>,
    subdomain: Option<String>,
    credential: Option<String>,
) -> Seq<char> {
    let path = base_url_spec(server) + "/"@ + (if subdomain is Some {
        subdomain->0@
    } else {
        "?new"@
    });
    if credential is Some {
        path + (if contains_char(path, '?') {
            "&"@
        } else {
            "?"@
        }) + "credential="@ + credential->0@
    } else {
        path
    }
}

/// Builds the URL of the allocation request.
pub fn build_allocation_url(
    server: &Option<String>,
    subdomain: &Option<String>,
    credential: &Option<String>,
) -> (r: String)
    ensures
        r@ == allocation_url_spec(*server, *subdomain, *credential),
{
    let mut uri = match server {
        Some(s) => trim_trailing_slashes(s.as_str()),
        None => trim_trailing_slashes(proxy_server()),
    };
    uri.append("/");
    match subdomain {
        Some(s) => uri.append(s.as_str()),
        None => uri.append("?new"),
    }
    proof {
        assert(uri@ =~= base_url_spec(*server) + "/"@ + (if *subdomain is Some {
            subdomain->0@
        } else {
            "?new"@
        }));
    }
    match credential {
        Some(c) => {
            if has_char(uri.as_str(), '?') {
                uri.append("&");
            } else {
                uri.append("?");
            }
            uri.append("credential=");
            uri.append(c.as_str());
            proof {
                assert(uri@ =~= allocation_url_spec(*server, *subdomain, *credential));
            }
        },
        None => {},
    }
    uri
}

/// The URL of the optional tunnel-password lookup beside the allocation
/// endpoint.
pub fn build_password_url(server: &Option<String>) -> (r: String)
    ensures
        r@ == base_url_spec(*server) + "/mytunnelpassword"@,
{
    let mut uri = match server {
        Some(s) => trim_trailing_slashes(s.as_str()),
        None => trim_trailing_slashes(proxy_server()),
    };
    uri.append("/mytunnelpassword");
    uri
}

/// What an outside URL parser reports as the host component of a string, if
/// the string parses as a URL with a host at all.
pub uninterp spec fn url_host_of(s: Seq<char>) -> Option<Seq<char>>;

/// Relies on reqwest::Url::parse and reqwest::Url::host_str: whether a
/// string parses as a URL, and the host inside it, depend on the string
/// alone.
#[verifier::external_body]
fn url_host(s: &str) -> (r: Option<String>)
    ensures
        r is Some <==> url_host_of(s@) is Some,
        r matches Some(h) ==> (url_host_of(s@) matches Some(g) && h@ == g),
{
    match reqwest::Url::parse(s) {
        Ok(parsed) => parsed.host_str().map(|h| h.to_string()),
        Err(_) => None,
    }
}

/// An ASCII whitespace character, as the fallback host parse trims it.
pub open spec fn is_space(c: char) -> bool {
    c == ' ' || c == '\t' || c == '\n' || c == '\r'
}

/// Whether `s` contains the separator `://`.
pub open spec fn has_scheme_sep(s: Seq<char>) -> bool
    decreases s.len(),
{
    if s.len() < 3 {
        false
    } else if s[0] == ':' && s[1] == '/' && s[2] == '/' {
        true
    } else {
        has_scheme_sep(s.skip(1))
    }
}

/// What follows the first `://` of `s`; meaningful when `s` has one.
pub open spec fn after_scheme_sep(s: Seq<char>) -> Seq<char>
    decreases s.len(),
{
    if s.len() < 3 {
        s
    } else if s[0] == ':' && s[1] == '/' && s[2] == '/' {
        s.skip(3)
    } else {
        after_scheme_sep(s.skip(1))
    }
}

/// What remains of `s` after the first `://`, or all of `s` when it has
/// none.
pub open spec fn scheme_remainder(s: Seq<char>) -> Seq<char> {
    if has_scheme_sep(s) {
        after_scheme_sep(s)
    } else {
        s
    }
}

/// The prefix of `s` before its first `/`.
pub open spec fn before_slash(s: Seq<char>) -> Seq<char>
    decreases s.len(),
{
    if s.len() == 0 {
        s
    } else if s[0] == '/' {
        Seq::empty()
    } else {
        seq![s[0]] + before_slash(s.skip(1))
    }
}

/// `s` without leading whitespace.
pub open spec fn trim_front(s: Seq<char>) -> Seq<char>
    decreases s.len(),
{
    if s.len() > 0 && is_space(s[0]) {
        trim_front(s.skip(1))
    } else {
        s
    }
}

/// `s` without trailing whitespace.
pub open spec fn trim_back(s: Seq<char>) -> Seq<char>
    decreases s.len(),
{
    if s.len() > 0 && is_space(s.last()) {
        trim_back(s.drop_last())
    } else {
        s
    }
}

/// The host the fallback parse extracts: everything after the first `://`
/// (or the whole string), up to the first `/`, trimmed of whitespace; or
/// nothing when that leaves an empty string.
pub open spec fn fallback_host_spec(s: Seq<char>) -> Option<Seq<char>> {
    let host = trim_back(trim_front(before_slash(scheme_remainder(s))));
    if host.len() == 0 {
        None
    } else {
        Some(host)
    }
}

/// The host of the server string: what the URL parser reports, or, when the
/// string is no parseable URL, what the fallback parse extracts.
pub open spec fn remote_host_spec(s: Seq<char>) -> Option<Seq<char>> {
    if url_host_of(s) is Some {
        url_host_of(s)
    } else {
        fallback_host_spec(s)
    }
}

fn is_space_exec(c: char) -> (r: bool)
    ensures
        r == is_space(c),
{
    c == ' ' || c == '\t' || c == '\n' || c == '\r'
}

#[verifier::rlimit(50)]
fn fallback_host(s: &str) -> (r: Option<String>)
    ensures
        r is Some <==> fallback_host_spec(s@) is Some,
        r matches Some(h) ==> (fallback_host_spec(s@) matches Some(g) && h@ == g),
{
    let len = s.unicode_len();
    // Find the first scheme separator.
    let mut i: usize = 0;
    let mut rem_start: usize = 0;
    let mut found = false;
    while !found && len >= 3 && i <= len - 3
        invariant
            len == s@.len(),
            i <= len,
            !found ==> has_scheme_sep(s@) == has_scheme_sep(s@.skip(i as int)),
            !found && has_scheme_sep(s@) ==> after_scheme_sep(s@) == after_scheme_sep(
                s@.skip(i as int),
            ),
            found ==> rem_start <= len && has_scheme_sep(s@) && after_scheme_sep(s@)
                == s@.skip(rem_start as int),
        decreases len - i + (if found { 0int } else { 1int }),
    {
        if s.get_char(i) == ':' && s.get_char(i + 1) == '/' && s.get_char(i + 2) == '/' {
            found = true;
            rem_start = i + 3;
            proof {
                let tail = s@.skip(i as int);
                assert(tail[0] == s@[i as int] && tail[1] == s@[i + 1] && tail[2] == s@[i + 2]);
                assert(has_scheme_sep(tail));
                assert(after_scheme_sep(tail) == tail.skip(3));
                assert(tail.skip(3) =~= s@.skip(i + 3));
            }
        } else {
            proof {
                let tail = s@.skip(i as int);
                assert(tail[0] == s@[i as int] && tail[1] == s@[i + 1] && tail[2] == s@[i + 2]);
                assert(tail.skip(1) =~= s@.skip(i + 1));
                assert(has_scheme_sep(tail) == has_scheme_sep(tail.skip(1)));
                assert(after_scheme_sep(tail) == after_scheme_sep(tail.skip(1)));
            }
            i += 1;
        }
    }
    proof {
        if !found {
            let tail = s@.skip(i as int);
            assert(tail.len() < 3);
            assert(!has_scheme_sep(tail));
            assert(scheme_remainder(s@) == s@);
        }
    }
    let ghost rem = scheme_remainder(s@);
    let rs: usize = if found {
        rem_start
    } else {
        0
    };
    proof {
        assert(rem =~= s@.skip(rs as int));
    }
    // Take the remainder up to the first slash.
    let mut j: usize = rs;
    while j < len && s.get_char(j) != '/'
        invariant
            len == s@.len(),
            rs <= j <= len,
            rem =~= s@.skip(rs as int),
            before_slash(rem) =~= s@.subrange(rs as int, j as int) + before_slash(
                s@.skip(j as int),
            ),
        decreases len - j,
    {
        proof {
            let tail = s@.skip(j as int);
            assert(tail[0] == s@[j as int]);
            assert(tail.skip(1) =~= s@.skip(j + 1));
            assert(before_slash(tail) == seq![tail[0]] + before_slash(tail.skip(1)));
            assert(s@.subrange(rs as int, j as int) + before_slash(s@.skip(j as int))
                =~= s@.subrange(rs as int, j + 1) + before_slash(s@.skip(j + 1)));
        }
        j += 1;
    }
    proof {
        let tail = s@.skip(j as int);
        if j < len {
            assert(tail[0] == s@[j as int]);
            assert(before_slash(tail) =~= Seq::<char>::empty());
        } else {
            assert(tail.len() == 0);
        }
        assert(before_slash(rem) =~= s@.subrange(rs as int, j as int));
    }
    // Trim whitespace from both ends.
    let mut a = rs;
    while a < j && is_space_exec(s.get_char(a))
        invariant
            len == s@.len(),
            rs <= a <= j <= len,
            trim_front(s@.subrange(rs as int, j as int)) == trim_front(
                s@.subrange(a as int, j as int),
            ),
        decreases j - a,
    {
        proof {
            let seg = s@.subrange(a as int, j as int);
            assert(seg[0] == s@[a as int]);
            assert(seg.skip(1) =~= s@.subrange(a + 1, j as int));
        }
        a += 1;
    }
    proof {
        let seg = s@.subrange(a as int, j as int);
        if a < j {
            assert(seg[0] == s@[a as int]);
        }
        assert(trim_front(seg) == seg);
    }
    let mut b = j;
    while b > a && is_space_exec(s.get_char(b - 1))
        invariant
            len == s@.len(),
            rs <= a <= b <= j <= len,
            trim_back(trim_front(s@.subrange(rs as int, j as int))) == trim_back(
                s@.subrange(a as int, b as int),
            ),
            trim_front(s@.subrange(rs as int, j as int)) == trim_front(
                s@.subrange(a as int, j as int),
            ),
            trim_front(s@.subrange(a as int, j as int)) == s@.subrange(a as int, j as int),
        decreases b,
    {
        proof {
            let seg = s@.subrange(a as int, b as int);
            assert(seg.last() == s@[b - 1]);
            assert(seg.drop_last() =~= s@.subrange(a as int, b - 1));
        }
        b -= 1;
    }
    proof {
        let seg = s@.subrange(a as int, b as int);
        if b > a {
            assert(seg.last() == s@[b - 1]);
        }
        assert(trim_back(seg) == seg);
        assert(trim_back(trim_front(before_slash(scheme_remainder(s@)))) =~= s@.subrange(
            a as int,
            b as int,
        ));
    }
    if a == b {
        None
    } else {
        let host = s.substring_char(a, b);
        proof {
            assert(host@ =~= s@.subrange(a as int, b as int));
        }
        Some(host.to_owned())
    }
}

/// Derives the host to dial from the server string: the URL parser's answer
/// when the string parses, the fallback parse otherwise.
pub fn parse_remote_host(server: &str) -> (r: Option<String>)
    ensures
        r is Some <==> remote_host_spec(server@) is Some,
        r matches Some(h) ==> (remote_host_spec(server@) matches Some(g) && h@ == g),
{
    match url_host(server) {
        Some(host) => Some(host),
        None => fallback_host(server),
    }
}

/// Builds the connection detail record from a descriptor: the host is taken
/// from the control-plane URL, or is the local loopback when no host can be
/// read from it.
pub fn tunnel_server_info(resp: ProxyResponse, server: &Option<String>) -> (r: TunnelServerInfo)
    ensures
        ({
            let base = base_url_spec(*server);
            match remote_host_spec(base) {
                Some(h) => r.remote_host@ == h,
                None => r.remote_host@ == "127.0.0.1"@,
            }
        }),
        r.remote_port == resp.port,
        r.remote_ip == resp.ip,
        r.max_conn_count == resp.max_conn_count,
        r.url == resp.url,
        r.cached_url == resp.cached_url,
{
    let base = match server {
        Some(s) => trim_trailing_slashes(s.as_str()),
        None => trim_trailing_slashes(proxy_server()),
    };
    let remote_host = match parse_remote_host(base.as_str()) {
        Some(h) => h,
        None => local_host().to_owned(),
    };
    TunnelServerInfo {
        remote_host,
        remote_port: resp.port,
        remote_ip: resp.ip,
        max_conn_count: resp.max_conn_count,
        url: resp.url,
        cached_url: resp.cached_url,
    }
}

/// The address a worker dials: the descriptor's IP when present, else the
/// derived host, with the agent-pool port.
pub fn connection_target(remote_host: &String, remote_ip: &Option<String>, port: u16) -> (r:
    String)
    ensures
        r@ == (if *remote_ip is Some {
            remote_ip->0@
        } else {
            remote_host@
        }) + ":"@ + dec_digits(port as nat),
{
    let mut target = match remote_ip {
        Some(ip) => ip.clone(),
        None => remote_host.clone(),
    };
    target.append(":");
    let port_str = u16_to_string(port);
    target.append(port_str.as_str());
    proof {
        assert(target@ =~= (if *remote_ip is Some {
            remote_ip->0@
        } else {
            remote_host@
        }) + ":"@ + dec_digits(port as nat));
    }
    target
}

/// The number of workers the driver runs: the smaller of what the server
/// allows and what the client is configured for.
pub fn effective_conn_count(server_max: u8, client_max: u8) -> (r: u8)
    ensures
        r == if server_max <= client_max {
            server_max
        } else {
            client_max
        },
{
    if server_max <= client_max {
        server_max
    } else {
        client_max
    }
}

/// What the driver tells its supervisor loop to do next.
#[derive(Debug, PartialEq, Eq, Structural)]
pub enum DriverAction {
    /// Spawn one worker: dial the proxy and the local service and pump.
    SpawnWorker,
    /// All permits are in use: wait for a worker to finish.
    Wait,
    /// Shutdown was signalled: spawn nothing more and wind down.
    Stop,
}

/// The bounded-concurrency supervisor of the client's outbound workers:
/// at most `count` workers live at once, and none is started after shutdown.
pub struct ConnDriver {
    count: u8,
    active: u8,
    shutdown: bool,
}

impl ConnDriver {
    /// The worker cap the driver was created with.
    pub closed spec fn count_spec(&self) -> u8 {
        self.count
    }

    /// How many workers hold a permit now.
    pub closed spec fn active_spec(&self) -> u8 {
        self.active
    }

    /// Whether shutdown has been signalled.
    pub closed spec fn is_shutdown(&self) -> bool {
        self.shutdown
    }

    /// The driver invariant: live workers never exceed the cap.
    pub open spec fn wf(&self) -> bool {
        self.active_spec() <= self.count_spec()
    }

    /// A fresh driver with no worker running.
    pub fn new(count: u8) -> (d: ConnDriver)
        ensures
            d.wf(),
            d.count_spec() == count,
            d.active_spec() == 0,
            !d.is_shutdown(),
    {
        ConnDriver { count, active: 0, shutdown: false }
    }

    /// One supervisor step: spawn while a permit is free, wait while all are
    /// taken, stop once shutdown was signalled. After shutdown no step ever
    /// starts a worker.
    pub fn poll(&mut self) -> (a: DriverAction)
        requires
            old(self).wf(),
        ensures
            final(self).wf(),
            final(self).count_spec() == old(self).count_spec(),
            final(self).is_shutdown() == old(self).is_shutdown(),
            old(self).is_shutdown() ==> a == DriverAction::Stop && final(self).active_spec()
                == old(self).active_spec(),
            !old(self).is_shutdown() && old(self).active_spec() < old(self).count_spec() ==> a
                == DriverAction::SpawnWorker && final(self).active_spec() == old(
                self,
            ).active_spec() + 1,
            !old(self).is_shutdown() && old(self).active_spec() >= old(self).count_spec() ==> a
                == DriverAction::Wait && final(self).active_spec() == old(self).active_spec(),
    {
        if self.shutdown {
            DriverAction::Stop
        } else if self.active < self.count {
            self.active = self.active + 1;
            DriverAction::SpawnWorker
        } else {
            DriverAction::Wait
        }
    }

    /// A worker finished, on any path, and releases its permit.
    pub fn worker_done(&mut self)
        requires
            old(self).wf(),
            old(self).active_spec() > 0,
        ensures
            final(self).wf(),
            final(self).count_spec() == old(self).count_spec(),
            final(self).is_shutdown() == old(self).is_shutdown(),
            final(self).active_spec() == old(self).active_spec() - 1,
    {
        self.active = self.active - 1;
    }

    /// Whether any worker still holds a permit; the guard the process checks
    /// before reporting a worker done.
    pub fn has_active(&self) -> (r: bool)
        ensures
            r == (self.active_spec() > 0),
    {
        self.active > 0
    }

    /// Shutdown was signalled: every later step answers `Stop`.
    pub fn signal_shutdown(&mut self)
        requires
            old(self).wf(),
        ensures
            final(self).wf(),
            final(self).count_spec() == old(self).count_spec(),
            final(self).active_spec() == old(self).active_spec(),
            final(self).is_shutdown(),
    {
        self.shutdown = true;
    }
}

} // verus!
