//! The network-facing facts of a server, the addresses it gives of itself, and
//! the paths it stores.

use vstd::prelude::*;

use crate::base_url;
use crate::net::{IpAddr, IPV4_LOOPBACK};
use crate::outside;
use crate::text;
use crate::virtual_paths;

verus! {

/// The name of the product.
pub const PRODUCT_NAME: &'static str = "Jellyfin Server";

/// The network-facing facts that the host reports and builds addresses from.
#[derive(Debug, Clone)]
pub struct HostNetworkInfo {
    /// The port for HTTP.
    pub http_port: u16,
    /// The port for HTTPS.
    pub https_port: u16,
    /// Whether the server listens over HTTPS.
    pub listen_with_https: bool,
    /// The address to publish, where one is configured.
    pub published_server_url: Option<String>,
    /// The base path, such as `/jellyfin`; empty for none.
    pub base_url: String,
    /// Whether a request is given the host it asked for.
    pub enable_published_server_uri_by_request: bool,
}

impl Default for HostNetworkInfo {
    fn default() -> (info: Self)
        ensures
            info.http_port == 8096,
            info.https_port == 8920,
            !info.listen_with_https,
            info.published_server_url is None,
            info.base_url@.len() == 0,
            !info.enable_published_server_uri_by_request,
    {
        HostNetworkInfo {
            http_port: 8096,
            https_port: 8920,
            listen_with_https: false,
            published_server_url: None,
            base_url: String::new(),
            enable_published_server_uri_by_request: false,
        }
    }
}

/// What is known of a request.
#[derive(Debug, Default)]
pub struct RequestContext {
    /// The headers, by name and value.
    pub headers: Vec<(String, String)>,
    /// Where the request came from, as an address with or without a port.
    pub remote_endpoint: Option<String>,
}

/// The value of the first of `headers` with the name, up to its case.
pub open spec fn header_of(headers: Seq<(String, String)>, name: Seq<char>) -> Option<Seq<char>>
    decreases headers.len(),
{
    if headers.len() == 0 {
        None
    } else if text::same_ignoring_case(headers[0].0@, name) {
        Some(headers[0].1@)
    } else {
        header_of(headers.skip(1), name)
    }
}

impl RequestContext {
    /// Executable [`header_of`].
    pub fn header(&self, name: &str) -> (value: Option<&str>)
        ensures
            outside::optional_view(value) == header_of(self.headers@, name@),
    {
        assert(self.headers@.skip(0) =~= self.headers@);
        for i in 0..self.headers.len()
            invariant
                header_of(self.headers@, name@) == header_of(self.headers@.skip(i as int), name@),
        {
            if text::equal_ignoring_case(self.headers[i].0.as_str(), name) {
                return Some(self.headers[i].1.as_str());
            }
            assert(self.headers@.skip(i as int).skip(1) =~= self.headers@.skip(i + 1));
        }
        None
    }
}

/// A port as it is read from a host.
pub open spec fn port_of(text: Seq<char>) -> Option<u16> {
    match text::parsed_number(text, 10, 65535) {
        Some(port) => Some(port as u16),
        None => None,
    }
}

fn parse_port(text: &str) -> (port: Option<u16>)
    ensures
        port == port_of(text@),
{
    match text::parse_number(&text::chars_of(text), 10, 65535) {
        Some(port) => Some(port as u16),
        None => None,
    }
}

/// Whether `parsed` are the host and port of a `Host` header. An IPv6 address
/// stands in brackets, and without a closing one there is no host. Otherwise
/// the port stands behind the last colon. A port that cannot be read is none.
pub open spec fn is_request_host(
    host: Seq<char>,
    parsed: Option<(Seq<char>, Option<u16>)>,
) -> bool {
    if host.len() > 0 && host[0] == '[' {
        let rest = host.skip(1);
        if rest.contains(']') {
            exists|at: int|
                {
                    let tail = rest.skip(at + 1);
                    &&& #[trigger] text::is_first_of(rest, ']', at)
                    &&& parsed == Some(
                        (
                            seq!['['] + rest.take(at) + seq![']'],
                            if tail.len() > 0 && tail[0] == ':' { port_of(tail.skip(1)) } else { None },
                        ),
                    )
                }
        } else {
            parsed is None
        }
    } else if host.contains(':') {
        exists|at: int| #[trigger]
            text::is_last_of(host, ':', at) && parsed == Some(
                (host.take(at), port_of(host.skip(at + 1))),
            )
    } else {
        parsed == Some((host, None::<u16>))
    }
}

/// A host and port, the host by its characters.
pub open spec fn host_view(parsed: Option<(String, Option<u16>)>) -> Option<
    (Seq<char>, Option<u16>),
> {
    match parsed {
        Some(pair) => Some((pair.0@, pair.1)),
        None => None,
    }
}

/// The host and port of a `Host` header.
pub fn parse_request_host(host: &str) -> (parsed: Option<(String, Option<u16>)>)
    ensures
        is_request_host(host@, host_view(parsed)),
{
    let chars: Vec<char> = text::chars_of(host);
    if chars.len() > 0 && chars[0] == '[' {
        let rest: Vec<char> = text::chars_of(text::text_between(&chars, 1, chars.len()).as_str());
        assert(rest@ =~= host@.skip(1));
        match text::first_of(&rest, ']') {
            Some(at) => {
                assert(rest@[at as int] == ']');
                let mut address: String = String::new();
                address.push('[');
                address.append(text::text_between(&rest, 0, at).as_str());
                address.push(']');
                assert(address@ =~= seq!['['] + rest@.take(at as int) + seq![']']);
                let ghost tail = rest@.skip(at + 1);
                let port: Option<u16> = if rest.len() - at > 1 && rest[at + 1] == ':' {
                    let digits: String = text::text_between(&rest, at + 2, rest.len());
                    assert(digits@ =~= tail.skip(1));
                    parse_port(digits.as_str())
                } else {
                    None
                };
                assert(text::is_first_of(rest@, ']', at as int));
                Some((address, port))
            },
            None => None,
        }
    } else {
        match text::last_of(&chars, ':') {
            Some(at) => {
                assert(chars@[at as int] == ':');
                let name: String = text::text_between(&chars, 0, at);
                assert(name@ =~= host@.take(at as int));
                let digits: String = text::text_between(&chars, at + 1, chars.len());
                assert(digits@ =~= host@.skip(at + 1));
                assert(text::is_last_of(host@, ':', at as int));
                Some((name, parse_port(digits.as_str())))
            },
            None => Some((host.to_owned(), None)),
        }
    }
}

/// A host as it stands in an address: an IPv6 address in brackets, in its
/// shortest form, anything else as it is.
pub open spec fn host_text(hostname: Seq<char>) -> Seq<char> {
    match outside::ipv6_value(hostname) {
        Some(bits) => seq!['['] + outside::ipv6_text(bits) + seq![']'],
        None => hostname,
    }
}

/// Executable [`host_text`].
fn format_host(hostname: &str) -> (host: String)
    ensures
        host@ == host_text(hostname@),
{
    match outside::parse_ipv6(hostname) {
        Some(bits) => bracketed(outside::format_ipv6(bits).as_str()),
        None => hostname.to_owned(),
    }
}

/// A text in brackets.
pub fn bracketed(text: &str) -> (result: String)
    ensures
        result@ == seq!['['] + text@ + seq![']'],
{
    let mut result: String = String::new();
    result.push('[');
    result.append(text);
    result.push(']');
    assert(result@ =~= seq!['['] + text@ + seq![']']);
    result
}

/// Whether a host name is a complete address already.
pub open spec fn is_complete_url(hostname: Seq<char>) -> bool {
    text::starts_ignoring_case(hostname, "http://"@) || text::starts_ignoring_case(
        hostname,
        "https://"@,
    )
}

/// The scheme of the mode that the server listens in.
pub open spec fn listen_scheme(with_https: bool) -> Seq<char> {
    if with_https {
        "https"@
    } else {
        "http"@
    }
}

pub open spec fn is_https(scheme: Seq<char>) -> bool {
    text::same_ignoring_case(scheme, "https"@)
}

/// The port that an address with this scheme leaves out.
pub open spec fn default_port(scheme: Seq<char>) -> u16 {
    if is_https(scheme) {
        443
    } else {
        80
    }
}

/// The address with these parts: the port only where it is not the scheme's
/// own, and no slash at the end.
pub open spec fn assembled_url(scheme: Seq<char>, host: Seq<char>, port: u16, base: Seq<char>) -> Seq<char> {
    let port_part = if port == default_port(scheme) {
        Seq::empty()
    } else {
        seq![':'] + text::decimal(port as int)
    };
    text::trim_end_slashes(scheme + "://"@ + host + port_part + text::trim_end_slashes(base))
}

/// Executable [`assembled_url`].
pub fn assemble_url(scheme: &str, host: &str, port: u16, base: &str) -> (url: String)
    ensures
        url@ == assembled_url(scheme@, host@, port, base@),
{
    let own_port: u16 = if text::equal_ignoring_case(scheme, "https") {
        443
    } else {
        80
    };
    let mut url: String = scheme.to_owned();
    url.append("://");
    url.append(host);
    let ghost ahead = url@;
    if port != own_port {
        url.push(':');
        url.append(text::decimal_text(port as u32).as_str());
    }
    let ghost port_part = if port == default_port(scheme@) {
        Seq::empty()
    } else {
        seq![':'] + text::decimal(port as int)
    };
    assert(url@ =~= ahead + port_part);
    url.append(text::without_end_slashes(base).as_str());
    assert(url@ =~= scheme@ + "://"@ + host@ + port_part + text::trim_end_slashes(base@));
    text::without_end_slashes(url.as_str())
}

/// The server, as far as its addresses and paths are concerned.
#[derive(Debug)]
pub struct FerrofinServerApplicationHost {
    pub data_path: String,
    pub internal_metadata_path: String,
    pub network: HostNetworkInfo,
    /// Whether the network is known well enough to choose an address for a peer.
    pub has_network: bool,
    /// The address that the server is bound to, unless it is bound to all.
    pub http_bind: Option<IpAddr>,
    /// The port that the server is bound to.
    pub bound_http_port: u16,
    pub machine_name: String,
    /// The configured name, unless it is blank.
    pub server_name: Option<String>,
    pub core_startup_completed: bool,
}

/// An address, or what has to be found out for one.
#[derive(Debug)]
pub enum SmartUrl {
    /// The address.
    Url(String),
    /// The host and port to reach the server by from this peer are needed, the
    /// server being bound to `bind`; [`FerrofinServerApplicationHost::resolved_url`]
    /// makes the address of them.
    Resolve { peer: IpAddr, bind: Option<IpAddr> },
}

/// The peer that a request came from; the server itself where that cannot be
/// told.
pub open spec fn peer_of(endpoint: Option<String>) -> IpAddr {
    match endpoint {
        Some(text) => match outside::ip_value(text@) {
            Some(address) => address,
            None => match outside::socket_ip(text@) {
                Some(address) => address,
                None => IpAddr::V4(IPV4_LOOPBACK),
            },
        },
        None => IpAddr::V4(IPV4_LOOPBACK),
    }
}

/// The peer, from what its endpoint could be read as.
pub fn chosen_peer(as_ip: Option<IpAddr>, as_socket: Option<IpAddr>) -> (peer: IpAddr)
    ensures
        peer == match as_ip {
            Some(address) => address,
            None => match as_socket {
                Some(address) => address,
                None => IpAddr::V4(IPV4_LOOPBACK),
            },
        },
{
    match as_ip {
        Some(address) => address,
        None => match as_socket {
            Some(address) => address,
            None => IpAddr::V4(IPV4_LOOPBACK),
        },
    }
}

/// Executable [`peer_of`].
fn find_peer(endpoint: &Option<String>) -> (peer: IpAddr)
    ensures
        peer == peer_of(*endpoint),
{
    match endpoint {
        Some(text) => chosen_peer(
            outside::parse_ip(text.as_str()),
            outside::parse_socket_ip(text.as_str()),
        ),
        None => IpAddr::V4(IPV4_LOOPBACK),
    }
}

/// The address that a server is bound to, unless it is bound to all of them.
pub open spec fn bound_address(http_bind: IpAddr) -> Option<IpAddr> {
    if http_bind == IpAddr::V4(0) || http_bind == IpAddr::V6(0) {
        None
    } else {
        Some(http_bind)
    }
}

/// A configured name, unless it is blank.
pub open spec fn configured_name(configured: String) -> Option<String> {
    if text::is_blank(configured@) {
        None
    } else {
        Some(configured)
    }
}

impl FerrofinServerApplicationHost {
    /// Whether it is a new server with these directories, this network and this
    /// machine.
    pub open spec fn is_new_with(
        self,
        data_path: Seq<char>,
        internal_metadata_path: Seq<char>,
        network: HostNetworkInfo,
        machine_name: Seq<char>,
    ) -> bool {
        &&& self.data_path@ == data_path
        &&& self.internal_metadata_path@ == internal_metadata_path
        &&& self.network == (HostNetworkInfo { base_url: self.network.base_url, ..network })
        &&& self.network.base_url@ == base_url::normal_base(network.base_url@)
        &&& !self.has_network
        &&& self.http_bind is None
        &&& self.bound_http_port == network.http_port
        &&& self.machine_name@ == machine_name
        &&& self.server_name is None
        &&& !self.core_startup_completed
    }

    /// A server that keeps its data and metadata in these directories.
    /// `machine_name` is its name where none is configured.
    pub fn new(
        data_path: &str,
        internal_metadata_path: &str,
        network: HostNetworkInfo,
        machine_name: &str,
    ) -> (host: Self)
        ensures
            host.is_new_with(data_path@, internal_metadata_path@, network, machine_name@),
    {
        FerrofinServerApplicationHost {
            data_path: data_path.to_owned(),
            internal_metadata_path: internal_metadata_path.to_owned(),
            bound_http_port: network.http_port,
            network: HostNetworkInfo {
                base_url: base_url::normalize_base_url(network.base_url.as_str()),
                http_port: network.http_port,
                https_port: network.https_port,
                listen_with_https: network.listen_with_https,
                published_server_url: network.published_server_url,
                enable_published_server_uri_by_request:
                    network.enable_published_server_uri_by_request,
            },
            has_network: false,
            http_bind: None,
            machine_name: machine_name.to_owned(),
            server_name: None,
            core_startup_completed: false,
        }
    }

    /// The server with a network to choose addresses from, bound to `http_bind`,
    /// which stands for all addresses where it is unspecified.
    pub fn with_network(self, http_bind: IpAddr) -> (host: Self)
        ensures
            host == (FerrofinServerApplicationHost {
                has_network: true,
                http_bind: bound_address(http_bind),
                ..self
            }),
    {
        let is_unspecified: bool = match http_bind {
            IpAddr::V4(bits) => bits == 0,
            IpAddr::V6(bits) => bits == 0,
        };
        let mut host: Self = self;
        host.has_network = true;
        host.http_bind = if is_unspecified {
            None
        } else {
            Some(http_bind)
        };
        host
    }

    /// Records the port that the server was bound to.
    pub fn set_bound_http_port(&mut self, port: u16)
        ensures
            *final(self) == (FerrofinServerApplicationHost { bound_http_port: port, ..*old(self) }),
    {
        self.bound_http_port = port;
    }

    /// Records that the server has been started.
    pub fn mark_core_startup_complete(&mut self)
        ensures
            *final(self) == (FerrofinServerApplicationHost {
                core_startup_completed: true,
                ..*old(self)
            }),
    {
        self.core_startup_completed = true;
    }

    /// Takes over the configured name; a blank one clears it.
    pub fn refresh_server_name(&mut self, configured: String)
        ensures
            *final(self) == (FerrofinServerApplicationHost {
                server_name: configured_name(configured),
                ..*old(self)
            }),
    {
        self.server_name = if text::blank(configured.as_str()) {
            None
        } else {
            Some(configured)
        };
    }

    pub fn core_startup_has_completed(&self) -> (completed: bool)
        ensures
            completed == self.core_startup_completed,
    {
        self.core_startup_completed
    }

    /// The port for HTTP that the server is bound to.
    pub fn http_port(&self) -> (port: u16)
        ensures
            port == self.bound_http_port,
    {
        self.bound_http_port
    }

    pub fn https_port(&self) -> (port: u16)
        ensures
            port == self.network.https_port,
    {
        self.network.https_port
    }

    pub fn listen_with_https(&self) -> (with_https: bool)
        ensures
            with_https == self.network.listen_with_https,
    {
        self.network.listen_with_https
    }

    /// The name of the product, whatever the server is called.
    pub fn name(&self) -> (name: String)
        ensures
            name@ == PRODUCT_NAME@,
    {
        PRODUCT_NAME.to_owned()
    }

    /// What the server is called.
    pub open spec fn spec_friendly_name(self) -> Seq<char> {
        match self.server_name {
            Some(name) => name@,
            None => self.machine_name@,
        }
    }

    /// Executable [`FerrofinServerApplicationHost::spec_friendly_name`].
    pub fn friendly_name(&self) -> (name: String)
        ensures
            name@ == self.spec_friendly_name(),
    {
        match &self.server_name {
            Some(name) => name.clone(),
            None => self.machine_name.clone(),
        }
    }

    /// The address of the server under a host name. A complete address is that,
    /// without the slashes at its end. Otherwise the scheme is by default that
    /// of the listening mode, and the port the one that is listened on.
    pub open spec fn spec_local_api_url(
        self,
        hostname: Seq<char>,
        scheme: Option<Seq<char>>,
        port: Option<u16>,
    ) -> Seq<char> {
        if is_complete_url(hostname) {
            text::trim_end_slashes(hostname)
        } else {
            let used = match scheme {
                Some(given) => given,
                None => listen_scheme(self.network.listen_with_https),
            };
            let number = match port {
                Some(given) => given,
                None => if is_https(used) { self.network.https_port } else { self.bound_http_port },
            };
            assembled_url(used, host_text(hostname), number, self.network.base_url@)
        }
    }

    /// Executable [`FerrofinServerApplicationHost::spec_local_api_url`].
    pub fn get_local_api_url(&self, hostname: &str, scheme: Option<&str>, port: Option<u16>) -> (url:
        String)
        ensures
            url@ == self.spec_local_api_url(hostname@, outside::optional_view(scheme), port),
    {
        if text::begins_ignoring_case(hostname, "http://") || text::begins_ignoring_case(
            hostname,
            "https://",
        ) {
            return text::without_end_slashes(hostname);
        }
        let used: &str = match scheme {
            Some(given) => given,
            None => if self.network.listen_with_https {
                "https"
            } else {
                "http"
            },
        };
        let number: u16 = match port {
            Some(given) => given,
            None => if text::equal_ignoring_case(used, "https") {
                self.network.https_port
            } else {
                self.bound_http_port
            },
        };
        let host: String = format_host(hostname);
        assemble_url(used, host.as_str(), number, self.network.base_url.as_str())
    }

    /// The address for a peer: the published one, without slashes at its ends,
    /// where there is one; else under `localhost` where the network is not
    /// known; else one that is to be found out.
    pub open spec fn is_url_for_peer(self, peer: IpAddr, url: SmartUrl) -> bool {
        if self.network.published_server_url matches Some(published) && published@.len() > 0 {
            url matches SmartUrl::Url(text) && text@ == text::trim_start_slashes(
                text::trim_end_slashes(self.network.published_server_url->0@),
            )
        } else if !self.has_network {
            url matches SmartUrl::Url(text) && text@ == self.spec_local_api_url(
                "localhost"@,
                None,
                None,
            )
        } else {
            url == (SmartUrl::Resolve { peer, bind: self.http_bind })
        }
    }

    /// The address to give a peer.
    pub fn get_smart_api_url_for_peer(&self, peer: IpAddr) -> (url: SmartUrl)
        ensures
            self.is_url_for_peer(peer, url),
    {
        match &self.network.published_server_url {
            Some(published) => {
                if text::chars_of(published.as_str()).len() > 0 {
                    let trimmed: String = text::without_end_slashes(published.as_str());
                    return SmartUrl::Url(text::without_start_slashes(trimmed.as_str()));
                }
            },
            None => {},
        }
        if self.has_network {
            SmartUrl::Resolve { peer, bind: self.http_bind }
        } else {
            SmartUrl::Url(self.get_local_api_url("localhost", None, None))
        }
    }

    /// The address under the host and port that were found out for a peer.
    pub open spec fn spec_resolved_url(self, hostname: Seq<char>, port: Option<u16>) -> Seq<char> {
        self.spec_local_api_url(hostname, None, port)
    }

    /// Executable [`FerrofinServerApplicationHost::spec_resolved_url`].
    pub fn resolved_url(&self, hostname: &str, port: Option<u16>) -> (url: String)
        ensures
            url@ == self.spec_resolved_url(hostname@, port),
    {
        self.get_local_api_url(hostname, None, port)
    }

    /// The scheme of a request: the one that a proxy forwarded, else that of the
    /// listening mode.
    pub open spec fn spec_request_scheme(self, request: RequestContext) -> Seq<char> {
        match header_of(request.headers@, "x-forwarded-proto"@) {
            Some(scheme) => scheme,
            None => listen_scheme(self.network.listen_with_https),
        }
    }

    /// Executable [`FerrofinServerApplicationHost::spec_request_scheme`].
    fn request_scheme(&self, request: &RequestContext) -> (scheme: String)
        ensures
            scheme@ == self.spec_request_scheme(*request),
    {
        match request.header("x-forwarded-proto") {
            Some(scheme) => scheme.to_owned(),
            None => if self.network.listen_with_https {
                "https".to_owned()
            } else {
                "http".to_owned()
            },
        }
    }

    /// The address under the host that a request asked for. Where it names no
    /// port there is none, rather than the one that is listened on.
    pub open spec fn url_by_request(
        self,
        request: RequestContext,
        host: Seq<char>,
        port: Option<u16>,
    ) -> Seq<char> {
        let scheme = self.spec_request_scheme(request);
        self.spec_local_api_url(
            host,
            Some(scheme),
            Some(
                match port {
                    Some(given) => given,
                    None => default_port(scheme),
                },
            ),
        )
    }

    /// Whether `parsed` is the host that a request is given back, where that is
    /// switched on and it names one.
    pub open spec fn is_echoed_host(
        self,
        request: RequestContext,
        parsed: Option<(Seq<char>, Option<u16>)>,
    ) -> bool {
        if !self.network.enable_published_server_uri_by_request {
            parsed is None
        } else {
            match header_of(request.headers@, "host"@) {
                Some(host) => is_request_host(host, parsed),
                None => parsed is None,
            }
        }
    }

    /// Whether `url` is the address to give a request: under the host it asked
    /// for, where that is switched on, else the one for the peer that it came
    /// from.
    pub open spec fn is_smart_url(self, request: RequestContext, url: SmartUrl) -> bool {
        exists|parsed: Option<(Seq<char>, Option<u16>)>| #[trigger]
            self.is_echoed_host(request, parsed) && match parsed {
                Some(pair) => url matches SmartUrl::Url(text) && text@ == self.url_by_request(
                    request,
                    pair.0,
                    pair.1,
                ),
                None => self.is_url_for_peer(peer_of(request.remote_endpoint), url),
            }
    }

    /// The address to give a request.
    pub fn get_smart_api_url(&self, request: &RequestContext) -> (url: SmartUrl)
        ensures
            self.is_smart_url(*request, url),
    {
        let parsed: Option<(String, Option<u16>)> = if self.network.enable_published_server_uri_by_request {
            match request.header("host") {
                Some(host) => parse_request_host(host),
                None => None,
            }
        } else {
            None
        };
        assert(self.is_echoed_host(*request, host_view(parsed)));
        match parsed {
            Some((host, port)) => {
                let scheme: String = self.request_scheme(request);
                let number: u16 = match port {
                    Some(given) => given,
                    None => if text::equal_ignoring_case(scheme.as_str(), "https") {
                        443
                    } else {
                        80
                    },
                };
                SmartUrl::Url(
                    self.get_local_api_url(host.as_str(), Some(scheme.as_str()), Some(number)),
                )
            },
            None => self.get_smart_api_url_for_peer(find_peer(&request.remote_endpoint)),
        }
    }

    /// The path with the tokens replaced by the server's directories.
    pub fn expand_virtual_path(&self, path: &str) -> (expanded: String)
        ensures
            expanded@ == virtual_paths::resolved(
                path@,
                self.data_path@,
                self.internal_metadata_path@,
            ),
    {
        let data: String = virtual_paths::replace_ignore_ascii_case(
            path,
            virtual_paths::VIRTUAL_DATA_PATH,
            self.data_path.as_str(),
        );
        virtual_paths::replace_ignore_ascii_case(
            data.as_str(),
            virtual_paths::VIRTUAL_INTERNAL_METADATA_PATH,
            self.internal_metadata_path.as_str(),
        )
    }

    /// The path with the server's directories replaced by the tokens.
    pub fn reverse_virtual_path(&self, path: &str) -> (reversed: String)
        ensures
            reversed@ == virtual_paths::reversed(
                path@,
                self.data_path@,
                self.internal_metadata_path@,
            ),
    {
        let data: String = virtual_paths::replace_ignore_ascii_case(
            path,
            self.data_path.as_str(),
            virtual_paths::VIRTUAL_DATA_PATH,
        );
        virtual_paths::replace_ignore_ascii_case(
            data.as_str(),
            self.internal_metadata_path.as_str(),
            virtual_paths::VIRTUAL_INTERNAL_METADATA_PATH,
        )
    }
}

/// A published address is given to every peer, whatever the network, the bind
/// and the peer.
pub proof fn law_published_url_wins(
    host: FerrofinServerApplicationHost,
    other: FerrofinServerApplicationHost,
    peer: IpAddr,
    other_peer: IpAddr,
    url: SmartUrl,
    other_url: SmartUrl,
)
    requires
        host.network.published_server_url matches Some(published) && published@.len() > 0,
        other.network.published_server_url == host.network.published_server_url,
        host.is_url_for_peer(peer, url),
        other.is_url_for_peer(other_peer, other_url),
    ensures
        url matches SmartUrl::Url(a) && other_url matches SmartUrl::Url(b) && a@ == b@,
{
}

/// An address never ends in a slash.
pub proof fn law_url_has_no_slash_at_its_end(
    host: FerrofinServerApplicationHost,
    hostname: Seq<char>,
    scheme: Option<Seq<char>>,
    port: Option<u16>,
)
    ensures
        ({
            let url = host.spec_local_api_url(hostname, scheme, port);
            url.len() > 0 ==> url.last() != '/'
        }),
{
    if is_complete_url(hostname) {
        text::lemma_trim_end_slashes(hostname);
    } else {
        let used = match scheme {
            Some(given) => given,
            None => listen_scheme(host.network.listen_with_https),
        };
        let number = match port {
            Some(given) => given,
            None => if is_https(used) { host.network.https_port } else { host.bound_http_port },
        };
        let port_part = if number == default_port(used) {
            Seq::empty()
        } else {
            seq![':'] + text::decimal(number as int)
        };
        text::lemma_trim_end_slashes(
            used + "://"@ + host_text(hostname) + port_part + text::trim_end_slashes(
                host.network.base_url@,
            ),
        );
    }
}

/// Two readings of one `Host` header agree.
pub proof fn law_request_host_is_unique(
    host: Seq<char>,
    a: Option<(Seq<char>, Option<u16>)>,
    b: Option<(Seq<char>, Option<u16>)>,
)
    requires
        is_request_host(host, a),
        is_request_host(host, b),
    ensures
        a == b,
{
    let rest = host.skip(1);
    assert forall|i: int, j: int| #[trigger]
        text::is_first_of(rest, ']', i) && #[trigger] text::is_first_of(rest, ']', j) implies i
        == j by {
        if i < j {
            assert(rest[i] != ']');
        } else if j < i {
            assert(rest[j] != ']');
        }
    }
    assert forall|i: int, j: int| #[trigger]
        text::is_last_of(host, ':', i) && #[trigger] text::is_last_of(host, ':', j) implies i
        == j by {
        if i < j {
            assert(host[j] != ':');
        } else if j < i {
            assert(host[i] != ':');
        }
    }
}

/// The header that is found is one of that name, in any case, and the first one;
/// where none is found there is none.
pub proof fn law_first_header_of_the_name_is_found(headers: Seq<(String, String)>, name: Seq<char>)
    ensures
        match header_of(headers, name) {
            Some(value) => exists|i: int|
                0 <= i < headers.len() && text::same_ignoring_case((#[trigger] headers[i]).0@, name)
                    && headers[i].1@ == value && forall|j: int|
                    0 <= j < i ==> !text::same_ignoring_case((#[trigger] headers[j]).0@, name),
            None => forall|j: int|
                0 <= j < headers.len() ==> !text::same_ignoring_case(
                    (#[trigger] headers[j]).0@,
                    name,
                ),
        },
    decreases headers.len(),
{
    if headers.len() > 0 && !text::same_ignoring_case(headers[0].0@, name) {
        let rest = headers.skip(1);
        law_first_header_of_the_name_is_found(rest, name);
        match header_of(headers, name) {
            Some(value) => {
                let i = choose|i: int|
                    0 <= i < rest.len() && text::same_ignoring_case((#[trigger] rest[i]).0@, name)
                        && rest[i].1@ == value && forall|j: int|
                        0 <= j < i ==> !text::same_ignoring_case((#[trigger] rest[j]).0@, name);
                assert(headers[i + 1] == rest[i]);
                assert forall|j: int| 0 <= j < i + 1 implies !text::same_ignoring_case(
                    (#[trigger] headers[j]).0@,
                    name,
                ) by {
                    if j > 0 {
                        assert(rest[j - 1] == headers[j]);
                    }
                }
            },
            None => {
                assert forall|j: int| 0 <= j < headers.len() implies !text::same_ignoring_case(
                    (#[trigger] headers[j]).0@,
                    name,
                ) by {
                    if j > 0 {
                        assert(rest[j - 1] == headers[j]);
                    }
                }
            },
        }
    } else if headers.len() > 0 {
        assert(text::same_ignoring_case(headers[0].0@, name));
    }
}

/// A host that is written with its port is read back as the two, whatever
/// colons the host itself holds.
pub proof fn law_host_and_port_read_back(
    name: Seq<char>,
    port: u16,
    parsed: Option<(Seq<char>, Option<u16>)>,
)
    requires
        name.len() == 0 || name[0] != '[',
        is_request_host(name + seq![':'] + text::decimal(port as int), parsed),
    ensures
        parsed == Some((name, Some(port))),
{
    let digits = text::decimal(port as int);
    let host = name + seq![':'] + digits;
    text::law_decimal_reads_back(port as int, 65535);
    text::law_decimal_has_no_leading_zero(port as int);
    let at = name.len() as int;
    assert(host[at] == ':');
    assert(host.take(at) =~= name);
    assert(host.skip(at + 1) =~= digits);
    assert(text::is_last_of(host, ':', at)) by {
        assert forall|j: int| at < j < host.len() implies #[trigger] host[j] != ':' by {
            assert(host[j] == digits[j - at - 1]);
        }
    }
    law_request_host_is_unique(host, parsed, Some((name, Some(port))));
}

/// A host without a colon or an opening bracket is read as it is, with no port.
pub proof fn law_plain_host_has_no_port(
    host: Seq<char>,
    parsed: Option<(Seq<char>, Option<u16>)>,
)
    requires
        host.len() == 0 || host[0] != '[',
        !host.contains(':'),
        is_request_host(host, parsed),
    ensures
        parsed == Some((host, None::<u16>)),
{
}

/// An IPv6 address in brackets keeps them, and is read with the port behind a
/// colon, or with none where nothing follows; without the closing bracket there
/// is no host.
pub proof fn law_bracketed_host_reads_back(
    address: Seq<char>,
    port: u16,
    with_port: Option<(Seq<char>, Option<u16>)>,
    without_port: Option<(Seq<char>, Option<u16>)>,
    unclosed: Option<(Seq<char>, Option<u16>)>,
)
    requires
        !address.contains(']'),
        is_request_host(
            seq!['['] + address + seq![']', ':'] + text::decimal(port as int),
            with_port,
        ),
        is_request_host(seq!['['] + address + seq![']'], without_port),
        is_request_host(seq!['['] + address, unclosed),
    ensures
        with_port == Some((seq!['['] + address + seq![']'], Some(port))),
        without_port == Some((seq!['['] + address + seq![']'], None::<u16>)),
        unclosed is None,
{
    let digits = text::decimal(port as int);
    let long = seq!['['] + address + seq![']', ':'] + digits;
    let short = seq!['['] + address + seq![']'];
    let open = seq!['['] + address;
    let at = address.len() as int;
    text::law_decimal_reads_back(port as int, 65535);
    assert forall|j: int| 0 <= j < at implies #[trigger] address[j] != ']' by {}
    let long_rest = long.skip(1);
    assert(long_rest[at] == ']');
    assert(text::is_first_of(long_rest, ']', at)) by {
        assert forall|j: int| 0 <= j < at implies #[trigger] long_rest[j] != ']' by {
            assert(long_rest[j] == address[j]);
        }
    }
    assert(long_rest.take(at) =~= address);
    assert(long_rest.skip(at + 1)[0] == ':');
    assert(long_rest.skip(at + 1).skip(1) =~= digits);
    law_request_host_is_unique(long, with_port, Some((short, Some(port))));
    let short_rest = short.skip(1);
    assert(short_rest[at] == ']');
    assert(text::is_first_of(short_rest, ']', at)) by {
        assert forall|j: int| 0 <= j < at implies #[trigger] short_rest[j] != ']' by {
            assert(short_rest[j] == address[j]);
        }
    }
    assert(short_rest.take(at) =~= address);
    law_request_host_is_unique(short, without_port, Some((short, None::<u16>)));
    assert(open.skip(1) =~= address);
}

/// A published address is given as it was configured but for slashes at its two
/// ends: what is cut off is slashes, and none is left there.
pub proof fn law_published_url_has_no_slash_at_its_ends(
    host: FerrofinServerApplicationHost,
    published: String,
    peer: IpAddr,
    url: SmartUrl,
)
    requires
        host.network.published_server_url == Some(published),
        published@.len() > 0,
        host.is_url_for_peer(peer, url),
    ensures
        url matches SmartUrl::Url(text) && {
            &&& text@.len() > 0 ==> text@[0] != '/' && text@.last() != '/'
            &&& exists|from: int|
                0 <= from <= from + text@.len() <= published@.len() && #[trigger] published@.subrange(
                    from,
                    from + text@.len(),
                ) == text@ && forall|i: int|
                    0 <= i < published@.len() && !(from <= i < from + text@.len())
                        ==> #[trigger] published@[i] == '/'
        },
{
    let kept = text::trim_end_slashes(published@);
    let url_text = text::trim_start_slashes(kept);
    text::law_slashes_are_trimmed_off_the_end(published@);
    text::law_slashes_are_trimmed_off_the_start(kept);
    let from = kept.len() - url_text.len();
    assert(published@.subrange(from, from + url_text.len()) =~= url_text);
    assert forall|i: int| 0 <= i < published@.len() && !(from <= i < from + url_text.len()) implies
        #[trigger] published@[i] == '/' by {
        if i < from {
            assert(kept[i] == published@[i]);
        }
    }
}

/// Where no scheme is given the address is as with that of the listening mode,
/// and where no port is given as with the one that is listened on under the
/// scheme.
pub proof fn law_defaults_are_the_listening_ones(
    host: FerrofinServerApplicationHost,
    hostname: Seq<char>,
    scheme: Option<Seq<char>>,
    port: Option<u16>,
)
    ensures
        host.spec_local_api_url(hostname, None, port) == host.spec_local_api_url(
            hostname,
            Some(if host.network.listen_with_https { "https"@ } else { "http"@ }),
            port,
        ),
        scheme matches Some(given) ==> host.spec_local_api_url(hostname, scheme, None)
            == host.spec_local_api_url(
            hostname,
            scheme,
            Some(
                if text::same_ignoring_case(given, "https"@) {
                    host.network.https_port
                } else {
                    host.bound_http_port
                },
            ),
        ),
{
}

/// An address is the scheme, the host, the port unless it is that of the scheme
/// (443 for HTTPS in any case, else 80), and the base path.
pub proof fn law_url_leaves_out_the_port_of_the_scheme(
    scheme: Seq<char>,
    host: Seq<char>,
    port: u16,
    base: Seq<char>,
)
    requires
        host.len() > 0,
        host.last() != '/',
        base.len() == 0 || base.last() != '/',
    ensures
        ({
            let is_own = port == if text::same_ignoring_case(scheme, "https"@) { 443u16 } else { 80u16 };
            let start = scheme + "://"@ + host;
            assembled_url(scheme, host, port, base) == if is_own {
                start + base
            } else {
                start + seq![':'] + text::decimal(port as int) + base
            }
        }),
{
    let start = scheme + "://"@ + host;
    let number = seq![':'] + text::decimal(port as int);
    text::law_decimal_has_no_leading_zero(port as int);
    assert(start.last() == host.last());
    assert(text::trim_end_slashes(base) == base);
    assert(start + Seq::<char>::empty() =~= start);
    assert(start + number =~= start + seq![':'] + text::decimal(port as int));
    assert((start + number).last() == text::decimal(port as int).last());
    assert(start + base =~= start + Seq::<char>::empty() + base);
    assert(start + number + base =~= start + seq![':'] + text::decimal(port as int) + base);
    if base.len() == 0 {
        assert(start + base =~= start);
        assert(start + number + base =~= start + number);
    } else {
        assert((start + base).last() == base.last());
        assert((start + number + base).last() == base.last());
    }
}

/// A host that is a complete address already, under HTTP or HTTPS in any case,
/// is given as it is but for slashes at its end, whatever scheme, port and base
/// there are.
pub proof fn law_complete_url_stays(
    host: FerrofinServerApplicationHost,
    hostname: Seq<char>,
    scheme: Option<Seq<char>>,
    port: Option<u16>,
)
    requires
        text::starts_ignoring_case(hostname, "http://"@) || text::starts_ignoring_case(
            hostname,
            "https://"@,
        ),
    ensures
        ({
            let url = host.spec_local_api_url(hostname, scheme, port);
            &&& url.is_prefix_of(hostname)
            &&& forall|i: int| url.len() <= i < hostname.len() ==> #[trigger] hostname[i] == '/'
            &&& url.len() > 0 ==> url.last() != '/'
        }),
{
    text::law_slashes_are_trimmed_off_the_end(hostname);
}

/// A request that names no port is given the address under the scheme's own
/// one, which the address leaves out; the scheme is the one that a proxy
/// forwarded, else that of the listening mode.
pub proof fn law_request_without_a_port_gets_none(
    host: FerrofinServerApplicationHost,
    request: RequestContext,
    name: Seq<char>,
)
    ensures
        ({
            let scheme = host.spec_request_scheme(request);
            &&& host.url_by_request(request, name, None) == host.url_by_request(
                request,
                name,
                Some(if text::same_ignoring_case(scheme, "https"@) { 443 } else { 80 }),
            )
            &&& forall|port: u16| #[trigger]
                host.url_by_request(request, name, Some(port)) == host.spec_local_api_url(
                    name,
                    Some(scheme),
                    Some(port),
                )
            &&& header_of(request.headers@, "x-forwarded-proto"@) is None ==> scheme
                == if host.network.listen_with_https { "https"@ } else { "http"@ }
            &&& header_of(request.headers@, "x-forwarded-proto"@) matches Some(given) ==> scheme
                == given
        }),
{
}

/// A server that is bound to no address in particular, of either family, gives
/// out none as the one that it is bound to; one that is bound to an address gives
/// out that.
pub proof fn law_unspecified_bind_stands_for_all(bits: u32, long_bits: u128)
    ensures
        bound_address(IpAddr::V4(bits)) is None <==> bits == 0,
        bound_address(IpAddr::V6(long_bits)) is None <==> long_bits == 0,
        bits != 0 ==> bound_address(IpAddr::V4(bits)) == Some(IpAddr::V4(bits)),
        long_bits != 0 ==> bound_address(IpAddr::V6(long_bits)) == Some(IpAddr::V6(long_bits)),
{
}

/// A server is called what is configured, unless that is blank, and then by the
/// name of its machine.
pub proof fn law_blank_name_is_that_of_the_machine(
    host: FerrofinServerApplicationHost,
    configured: String,
)
    ensures
        ({
            let named = FerrofinServerApplicationHost {
                server_name: configured_name(configured),
                ..host
            };
            &&& text::is_blank(configured@) ==> named.spec_friendly_name() == host.machine_name@
            &&& !text::is_blank(configured@) ==> named.spec_friendly_name() == configured@
        }),
{
}

/// A request comes from the address that its endpoint is read as, with or
/// without a port, and from the server itself where it is read as none.
pub proof fn law_peer_is_read_from_the_endpoint(endpoint: String)
    ensures
        outside::ip_value(endpoint@) matches Some(address) ==> peer_of(Some(endpoint)) == address,
        outside::ip_value(endpoint@) is None ==> (outside::socket_ip(endpoint@) matches Some(address)
            ==> peer_of(Some(endpoint)) == address),
        outside::ip_value(endpoint@) is None && outside::socket_ip(endpoint@) is None ==> peer_of(
            Some(endpoint),
        ) == IpAddr::V4(0x7f00_0001),
        peer_of(None) == IpAddr::V4(0x7f00_0001),
{
}

/// Without a published address a server whose network is not known gives every
/// peer the address under `localhost`, and one whose network is known has the
/// address found out for that very peer, from the address that it is bound to.
pub proof fn law_url_without_a_published_one(
    host: FerrofinServerApplicationHost,
    peer: IpAddr,
    url: SmartUrl,
)
    requires
        host.network.published_server_url is None || host.network.published_server_url->0@.len() == 0,
        host.is_url_for_peer(peer, url),
    ensures
        host.has_network ==> url == (SmartUrl::Resolve { peer, bind: host.http_bind }),
        !host.has_network ==> (url matches SmartUrl::Url(text) && text@ == host.spec_local_api_url(
            "localhost"@,
            Some(if host.network.listen_with_https { "https"@ } else { "http"@ }),
            Some(
                if host.network.listen_with_https {
                    host.network.https_port
                } else {
                    host.bound_http_port
                },
            ),
        )),
{
    reveal_strlit("https");
    reveal_strlit("http");
    text::lemma_same_ignoring_case_reflexive("https"@);
}

/// A request is given back the host and port that it asked for, where that is
/// switched on, under the scheme of the request.
pub proof fn law_request_is_given_back_its_host(
    host: FerrofinServerApplicationHost,
    request: RequestContext,
    url: SmartUrl,
    name: Seq<char>,
    port: u16,
)
    requires
        host.network.enable_published_server_uri_by_request,
        name.len() == 0 || name[0] != '[',
        header_of(request.headers@, "host"@) == Some(
            name + seq![':'] + text::decimal(port as int),
        ),
        host.is_smart_url(request, url),
    ensures
        url matches SmartUrl::Url(text) && text@ == host.spec_local_api_url(
            name,
            Some(host.spec_request_scheme(request)),
            Some(port),
        ),
{
    let parsed = choose|parsed: Option<(Seq<char>, Option<u16>)>| #[trigger]
        host.is_echoed_host(request, parsed) && match parsed {
            Some(pair) => url matches SmartUrl::Url(text) && text@ == host.url_by_request(
                request,
                pair.0,
                pair.1,
            ),
            None => host.is_url_for_peer(peer_of(request.remote_endpoint), url),
        };
    law_host_and_port_read_back(name, port, parsed);
}

/// A request that names no host, and every request where giving it back is
/// switched off, gets the address for the peer that it came from.
pub proof fn law_other_requests_get_the_url_for_their_peer(
    host: FerrofinServerApplicationHost,
    request: RequestContext,
    url: SmartUrl,
)
    requires
        !host.network.enable_published_server_uri_by_request || header_of(
            request.headers@,
            "host"@,
        ) is None,
        host.is_smart_url(request, url),
    ensures
        host.is_url_for_peer(peer_of(request.remote_endpoint), url),
{
}

/// An IPv6 address stands in brackets, in its shortest form; any other host as
/// it is.
pub proof fn law_ipv6_host_is_bracketed(hostname: Seq<char>)
    ensures
        outside::ipv6_value(hostname) is None ==> host_text(hostname) == hostname,
        outside::ipv6_value(hostname) matches Some(bits) ==> {
            &&& host_text(hostname)[0] == '['
            &&& host_text(hostname).last() == ']'
            &&& host_text(hostname).subrange(1, host_text(hostname).len() - 1)
                == outside::ipv6_text(bits)
        },
{
    if let Some(bits) = outside::ipv6_value(hostname) {
        assert(host_text(hostname).subrange(1, host_text(hostname).len() - 1)
            =~= outside::ipv6_text(bits));
    }
}

/// A host that is no complete address is put together with the scheme, the port
/// and the base path of the server.
pub proof fn law_host_name_gets_scheme_port_and_base(
    host: FerrofinServerApplicationHost,
    hostname: Seq<char>,
    scheme: Seq<char>,
    port: u16,
)
    requires
        !text::starts_ignoring_case(hostname, "http://"@),
        !text::starts_ignoring_case(hostname, "https://"@),
    ensures
        host.spec_local_api_url(hostname, Some(scheme), Some(port)) == assembled_url(
            scheme,
            host_text(hostname),
            port,
            host.network.base_url@,
        ),
{
}

/// The address under a host that was found out for a peer has the scheme of the
/// listening mode, and the port that was found out or else the one that is
/// listened on.
pub proof fn law_resolved_url_has_the_listening_scheme(
    host: FerrofinServerApplicationHost,
    hostname: Seq<char>,
    port: Option<u16>,
)
    ensures
        host.spec_resolved_url(hostname, port) == host.spec_local_api_url(
            hostname,
            Some(if host.network.listen_with_https { "https"@ } else { "http"@ }),
            Some(
                match port {
                    Some(given) => given,
                    None => if host.network.listen_with_https {
                        host.network.https_port
                    } else {
                        host.bound_http_port
                    },
                },
            ),
        ),
{
    reveal_strlit("https");
    reveal_strlit("http");
    text::lemma_same_ignoring_case_reflexive("https"@);
}

/// A new server listens on the HTTP port that it is given, is called by its
/// machine, has no network to choose addresses from, and has its base path in
/// normal form; everything else of its network is as given.
pub proof fn law_new_server_is_as_given(
    host: FerrofinServerApplicationHost,
    data_path: Seq<char>,
    metadata_path: Seq<char>,
    network: HostNetworkInfo,
    machine_name: Seq<char>,
)
    requires
        host.is_new_with(data_path, metadata_path, network, machine_name),
    ensures
        host.bound_http_port == network.http_port,
        host.network.https_port == network.https_port,
        host.network.listen_with_https == network.listen_with_https,
        host.network.published_server_url == network.published_server_url,
        host.network.enable_published_server_uri_by_request
            == network.enable_published_server_uri_by_request,
        host.network.base_url@ == base_url::normal_base(network.base_url@),
        host.spec_friendly_name() == machine_name,
        !host.has_network && host.http_bind is None && !host.core_startup_completed,
        host.data_path@ == data_path && host.internal_metadata_path@ == metadata_path,
{
}

} // verus!
