//! DNS resolver configuration.

use vstd::prelude::*;
use vstd::string::*;

use crate::addr_laws;
use crate::addr::{IpAddr, SocketAddr, parse_ip_addr, parse_socket_addr};
use crate::error::{ErrorKind, NipartError, NipartErrorView};
use crate::text::{
    eq_ignore_ascii_case, find_char, find_last_char, from_chars, has_prefix, is_white_space,
    slice_chars, split_chars, split_words, text_eq, to_chars,
};
use crate::value::{Value, contains, empty_list, push};
use crate::{addr, error, text, value};

verus! {

/// DNS client configuration: nameservers, search domains and options.
#[derive(Clone, Debug, PartialEq, Eq)]
pub struct DnsResolverClient {
    /// Nameserver IP addresses. An IPv6 link-local address may carry an interface
    /// name, as in `fe80::1%eth1`.
    pub server: Option<Vec<String>>,
    /// Search list for host-name lookup.
    pub search: Option<Vec<String>>,
    /// DNS resolver options.
    pub options: Option<Vec<String>>,
}

/// What a [DnsResolverClient] stands for.
#[verifier::ext_equal]
pub struct DnsResolverClientView {
    pub server: Option<Seq<Seq<char>>>,
    pub search: Option<Seq<Seq<char>>>,
    pub options: Option<Seq<Seq<char>>>,
}

impl View for DnsResolverClient {
    type V = DnsResolverClientView;

    open spec fn view(&self) -> DnsResolverClientView {
        DnsResolverClientView {
            server: self.server.deep_view(),
            search: self.search.deep_view(),
            options: self.options.deep_view(),
        }
    }
}

impl DeepView for DnsResolverClient {
    type V = DnsResolverClientView;

    open spec fn deep_view(&self) -> DnsResolverClientView {
        self@
    }
}

impl Value for DnsResolverClient {
    fn dup(&self) -> (res: Self) {
        DnsResolverClient {
            server: self.server.dup(),
            search: self.search.dup(),
            options: self.options.dup(),
        }
    }

    fn same(&self, other: &Self) -> (res: bool) {
        self.server.same(&other.server) && self.search.same(&other.search) && self.options.same(&other.options)
    }
}

/// Upstream nameservers used for domains not matched by any group.
#[derive(Clone, Debug, PartialEq, Eq)]
pub struct NipartDnsFallback {
    /// Use nameservers learned from DHCP, IPv6-RA or VPN. They come before the
    /// static ones.
    pub auto_dns: bool,
    /// Static fallback nameservers. Plain IP addresses or DoH URLs.
    pub nameservers: Vec<String>,
    /// Whether to suppress AAAA queries to these nameservers.
    pub disable_ipv6: bool,
}

/// What a [NipartDnsFallback] stands for.
#[verifier::ext_equal]
pub struct NipartDnsFallbackView {
    pub auto_dns: bool,
    pub nameservers: Seq<Seq<char>>,
    pub disable_ipv6: bool,
}

impl View for NipartDnsFallback {
    type V = NipartDnsFallbackView;

    open spec fn view(&self) -> NipartDnsFallbackView {
        NipartDnsFallbackView {
            auto_dns: self.auto_dns.deep_view(),
            nameservers: self.nameservers.deep_view(),
            disable_ipv6: self.disable_ipv6.deep_view(),
        }
    }
}

impl DeepView for NipartDnsFallback {
    type V = NipartDnsFallbackView;

    open spec fn deep_view(&self) -> NipartDnsFallbackView {
        self@
    }
}

impl Value for NipartDnsFallback {
    fn dup(&self) -> (res: Self) {
        NipartDnsFallback {
            auto_dns: self.auto_dns.dup(),
            nameservers: self.nameservers.dup(),
            disable_ipv6: self.disable_ipv6.dup(),
        }
    }

    fn same(&self, other: &Self) -> (res: bool) {
        self.auto_dns.same(&other.auto_dns) && self.nameservers.same(&other.nameservers) && self.disable_ipv6.same(&other.disable_ipv6)
    }
}

/// Plain IP nameservers used to resolve DoH server hostnames.
#[derive(Clone, Debug, PartialEq, Eq)]
pub struct NipartDnsDoh {
    pub nameservers: Vec<IpAddr>,
    /// Whether to suppress AAAA queries to these nameservers.
    pub disable_ipv6: bool,
}

/// What a [NipartDnsDoh] stands for.
#[verifier::ext_equal]
pub struct NipartDnsDohView {
    pub nameservers: Seq<IpAddr>,
    pub disable_ipv6: bool,
}

impl View for NipartDnsDoh {
    type V = NipartDnsDohView;

    open spec fn view(&self) -> NipartDnsDohView {
        NipartDnsDohView {
            nameservers: self.nameservers.deep_view(),
            disable_ipv6: self.disable_ipv6.deep_view(),
        }
    }
}

impl DeepView for NipartDnsDoh {
    type V = NipartDnsDohView;

    open spec fn deep_view(&self) -> NipartDnsDohView {
        self@
    }
}

impl Value for NipartDnsDoh {
    fn dup(&self) -> (res: Self) {
        NipartDnsDoh {
            nameservers: self.nameservers.dup(),
            disable_ipv6: self.disable_ipv6.dup(),
        }
    }

    fn same(&self, other: &Self) -> (res: bool) {
        self.nameservers.same(&other.nameservers) && self.disable_ipv6.same(&other.disable_ipv6)
    }
}

/// A named group of upstream nameservers serving a set of domains.
#[derive(Clone, Debug, PartialEq, Eq)]
pub struct NipartDnsUpstreamGroup {
    pub name: String,
    /// Domains routed to this group. A domain matches itself and its
    /// subdomains; the longest match wins.
    pub domains: Vec<String>,
    /// Upstream nameservers. Plain IP addresses or DoH URLs. An empty list
    /// means reply NXDOMAIN for matched domains.
    pub nameservers: Vec<String>,
    /// Whether to suppress AAAA queries to this group.
    pub disable_ipv6: bool,
}

/// What a [NipartDnsUpstreamGroup] stands for.
#[verifier::ext_equal]
pub struct NipartDnsUpstreamGroupView {
    pub name: Seq<char>,
    pub domains: Seq<Seq<char>>,
    pub nameservers: Seq<Seq<char>>,
    pub disable_ipv6: bool,
}

impl View for NipartDnsUpstreamGroup {
    type V = NipartDnsUpstreamGroupView;

    open spec fn view(&self) -> NipartDnsUpstreamGroupView {
        NipartDnsUpstreamGroupView {
            name: self.name.deep_view(),
            domains: self.domains.deep_view(),
            nameservers: self.nameservers.deep_view(),
            disable_ipv6: self.disable_ipv6.deep_view(),
        }
    }
}

impl DeepView for NipartDnsUpstreamGroup {
    type V = NipartDnsUpstreamGroupView;

    open spec fn deep_view(&self) -> NipartDnsUpstreamGroupView {
        self@
    }
}

impl Value for NipartDnsUpstreamGroup {
    fn dup(&self) -> (res: Self) {
        NipartDnsUpstreamGroup {
            name: self.name.dup(),
            domains: self.domains.dup(),
            nameservers: self.nameservers.dup(),
            disable_ipv6: self.disable_ipv6.dup(),
        }
    }

    fn same(&self, other: &Self) -> (res: bool) {
        self.name.same(&other.name) && self.domains.same(&other.domains) && self.nameservers.same(&other.nameservers) && self.disable_ipv6.same(&other.disable_ipv6)
    }
}

/// DNS cache configuration.
#[derive(Clone, Debug, PartialEq, Eq)]
pub struct DnsCacheConfig {
    /// Whether caching is enabled.
    pub enabled: bool,
    /// Address (both UDP and TCP) the DNS cache listens on.
    pub bind: String,
    /// Maximum number of cache entries. Zero disables response caching while
    /// keeping the forwarding resolver running.
    pub max_cache_size: usize,
    /// Whether to load `/etc/hosts` as static records.
    pub load_etc_hosts: bool,
    /// Upstream for domains not matched by any group.
    pub fallback: NipartDnsFallback,
    /// Plain IP nameservers used to resolve DoH hostnames. Mandatory when a
    /// DoH nameserver is configured and its hostname is not in `/etc/hosts`.
    pub doh: Option<NipartDnsDoh>,
    /// Domain routed upstream groups. Longest suffix match wins.
    pub groups: Vec<NipartDnsUpstreamGroup>,
}

/// What a [DnsCacheConfig] stands for.
#[verifier::ext_equal]
pub struct DnsCacheConfigView {
    pub enabled: bool,
    pub bind: Seq<char>,
    pub max_cache_size: usize,
    pub load_etc_hosts: bool,
    pub fallback: NipartDnsFallbackView,
    pub doh: Option<NipartDnsDohView>,
    pub groups: Seq<NipartDnsUpstreamGroupView>,
}

impl View for DnsCacheConfig {
    type V = DnsCacheConfigView;

    open spec fn view(&self) -> DnsCacheConfigView {
        DnsCacheConfigView {
            enabled: self.enabled.deep_view(),
            bind: self.bind.deep_view(),
            max_cache_size: self.max_cache_size.deep_view(),
            load_etc_hosts: self.load_etc_hosts.deep_view(),
            fallback: self.fallback.deep_view(),
            doh: self.doh.deep_view(),
            groups: self.groups.deep_view(),
        }
    }
}

impl DeepView for DnsCacheConfig {
    type V = DnsCacheConfigView;

    open spec fn deep_view(&self) -> DnsCacheConfigView {
        self@
    }
}

impl Value for DnsCacheConfig {
    fn dup(&self) -> (res: Self) {
        DnsCacheConfig {
            enabled: self.enabled.dup(),
            bind: self.bind.dup(),
            max_cache_size: self.max_cache_size.dup(),
            load_etc_hosts: self.load_etc_hosts.dup(),
            fallback: self.fallback.dup(),
            doh: self.doh.dup(),
            groups: self.groups.dup(),
        }
    }

    fn same(&self, other: &Self) -> (res: bool) {
        self.enabled.same(&other.enabled) && self.bind.same(&other.bind) && self.max_cache_size.same(&other.max_cache_size) && self.load_etc_hosts.same(&other.load_etc_hosts) && self.fallback.same(&other.fallback) && self.doh.same(&other.doh) && self.groups.same(&other.groups)
    }
}

/// DNS resolver state.
#[derive(Clone, Debug, PartialEq, Eq)]
pub struct DnsResolver {
    /// The effective DNS client configuration: the static one combined with
    /// what was learned from DHCP or IPv6-RA. Ignored when applying.
    pub running: Option<DnsResolverClient>,
    /// Static DNS client configuration. When applying, an undefined one
    /// preserves the current static configuration and an empty one purges it.
    pub config: Option<DnsResolverClient>,
    /// DNS cache configuration.
    pub cache: Option<DnsCacheConfig>,
}

/// What a [DnsResolver] stands for.
#[verifier::ext_equal]
pub struct DnsResolverView {
    pub running: Option<DnsResolverClientView>,
    pub config: Option<DnsResolverClientView>,
    pub cache: Option<DnsCacheConfigView>,
}

impl View for DnsResolver {
    type V = DnsResolverView;

    open spec fn view(&self) -> DnsResolverView {
        DnsResolverView {
            running: self.running.deep_view(),
            config: self.config.deep_view(),
            cache: self.cache.deep_view(),
        }
    }
}

impl DeepView for DnsResolver {
    type V = DnsResolverView;

    open spec fn deep_view(&self) -> DnsResolverView {
        self@
    }
}

impl Value for DnsResolver {
    fn dup(&self) -> (res: Self) {
        DnsResolver {
            running: self.running.dup(),
            config: self.config.dup(),
            cache: self.cache.dup(),
        }
    }

    fn same(&self, other: &Self) -> (res: bool) {
        self.running.same(&other.running) && self.config.same(&other.config) && self.cache.same(&other.cache)
    }
}

/// A parsed upstream nameserver: a plain IP address (with an optional port)
/// or a DNS-over-HTTPS URL.
///
/// Accepted forms of the plain IP upstream:
///  * `192.0.2.53` (plaintext on 53, opportunistic DoT probe on 853)
///  * `192.0.2.53:5353` (port pinned for every attempt, DoT included)
///  * `2001:db8::53` (plaintext on 53, opportunistic DoT probe on 853)
///  * `[2001:db8::53]:5353` (port pinned for every attempt, DoT included)
///  * `[fe80::1%2]:53` (IPv6 with numeric scope id)
#[derive(Clone, Debug, PartialEq, Eq)]
pub enum DnsUpstreamServer {
    /// Plain DNS nameserver. `port_explicit` tells whether the port was
    /// written in the configuration.
    Ip { addr: SocketAddr, port_explicit: bool },
    /// DNS-over-HTTPS URL.
    Doh(String),
}

/// What a [DnsUpstreamServer] stands for.
pub enum DnsUpstreamServerView {
    Ip { addr: SocketAddr, port_explicit: bool },
    Doh(Seq<char>),
}

impl View for DnsUpstreamServer {
    type V = DnsUpstreamServerView;

    open spec fn view(&self) -> DnsUpstreamServerView {
        match self {
            DnsUpstreamServer::Ip { addr, port_explicit } => DnsUpstreamServerView::Ip {
                addr: *addr,
                port_explicit: *port_explicit,
            },
            DnsUpstreamServer::Doh(url) => DnsUpstreamServerView::Doh(url@),
        }
    }
}

impl DeepView for DnsUpstreamServer {
    type V = DnsUpstreamServerView;

    open spec fn deep_view(&self) -> DnsUpstreamServerView {
        self@
    }
}

/// The lower case of a text, as `str::to_lowercase` of std gives it.
pub uninterp spec fn lowercase_text(s: Seq<char>) -> Seq<char>;

/// Whether `s` holds ASCII characters only.
pub open spec fn all_ascii(s: Seq<char>) -> bool {
    forall|i: int| 0 <= i < s.len() ==> (#[trigger] s[i]) as int <= 127
}

/// Calls `str::to_lowercase` of std. The result is a function of the text
/// alone; on ASCII text it is the lower case of every letter.
#[verifier::external_body]
fn to_lowercase(s: &str) -> (res: String)
    ensures
        res@ == lowercase_text(s@),
        all_ascii(s@) ==> res@ == text::ascii_lower(s@),
{
    s.to_lowercase()
}

/// A list of texts as the `Debug` format of std writes it.
pub uninterp spec fn debug_text(list: Seq<Seq<char>>) -> Seq<char>;

/// Formats a list of texts with the `Debug` format of std. The result is a
/// function of the texts alone.
#[verifier::external_body]
fn format_debug(list: &Vec<String>) -> (res: String)
    ensures
        res@ == debug_text(list.deep_view()),
{
    format!("{list:?}")
}

/// The scheme of a DNS-over-HTTPS URL.
pub open spec fn https() -> Seq<char> {
    "https://"@
}

/// Whether `s` is the URL of a DNS-over-HTTPS server.
pub open spec fn doh_like(s: Seq<char>) -> bool {
    text::starts_with(s, https()) && s.len() > https().len()
}

/// What stands before the first `c` in `s`, all of it when there is none.
pub open spec fn before_first(s: Seq<char>, c: char) -> Seq<char> {
    s.subrange(0, text::position(s, c))
}

/// The host that the authority of a URL names: without user information and
/// port, and without the brackets of an IPv6 address.
pub open spec fn authority_host(authority: Seq<char>) -> Seq<char> {
    let host = authority.subrange(
        text::last_position(authority, '@', authority.len() - 1) + 1,
        authority.len() as int,
    );
    if host.len() > 0 && host[0] == '[' && text::position(host, ']') < host.len() {
        host.subrange(1, text::position(host, ']'))
    } else {
        before_first(host, ':')
    }
}

/// The host that the DNS-over-HTTPS URL names, as it is written.
pub open spec fn url_host(url: Seq<char>) -> Option<Seq<char>> {
    if !text::starts_with(url, https()) {
        None
    } else {
        let rest = url.subrange(https().len() as int, url.len() as int);
        let host = authority_host(before_first(rest, '/'));
        if host.len() == 0 {
            None
        } else {
            Some(host)
        }
    }
}

/// The host that the DNS-over-HTTPS URL names, in lower case.
pub open spec fn url_hostname(url: Seq<char>) -> Option<Seq<char>> {
    match url_host(url) {
        Some(host) => Some(lowercase_text(host)),
        None => None,
    }
}

/// Whether the IPv6 address is link-local.
pub open spec fn link_local(n: u128) -> bool {
    n / 0x40_0000_0000_0000_0000_0000_0000_0000 == 0x3fa
}

/// Whether `s` can be the name of an interface in a nameserver.
pub open spec fn zone_name(s: Seq<char>) -> bool {
    s.len() > 0 && forall|i: int|
        0 <= i < s.len() ==> !text::white_space(#[trigger] s[i]) && s[i] != '/'
}

/// The address of the plain nameserver that `s` writes: an IP address, or an
/// IPv6 link-local address with the name of an interface.
pub open spec fn dns_server(s: Seq<char>) -> Result<IpAddr, NipartErrorView> {
    let k = text::position(s, '%');
    match addr::ip_addr(s) {
        Some(ip) => Ok(ip),
        None => if k < s.len() && zone_name(s.subrange(k + 1, s.len() as int)) {
            match addr::ip_addr(s.subrange(0, k)) {
                Some(IpAddr::V6(n)) if link_local(n) => Ok(IpAddr::V6(n)),
                _ => Err(error::invalid("Invalid DNS server string "@ + s)),
            }
        } else {
            Err(error::invalid("Invalid DNS server string "@ + s))
        },
    }
}

/// The upstream nameserver of a plain IP address.
pub open spec fn upstream_of_ip(ip: IpAddr) -> DnsUpstreamServerView {
    DnsUpstreamServerView::Ip {
        addr: SocketAddr { ip, port: 53, scope_id: 0 },
        port_explicit: false,
    }
}

/// The upstream nameserver as text. An implicit port is left out.
pub open spec fn upstream_text(server: DnsUpstreamServerView) -> Seq<char> {
    match server {
        DnsUpstreamServerView::Ip { addr, port_explicit } => if port_explicit {
            addr::socket_text(addr)
        } else {
            addr::ip_text(addr.ip)
        },
        DnsUpstreamServerView::Doh(url) => url,
    }
}

/// The upstream nameserver that `s` writes.
pub open spec fn upstream(s: Seq<char>) -> Result<DnsUpstreamServerView, NipartErrorView> {
    if doh_like(s) {
        Ok(DnsUpstreamServerView::Doh(s))
    } else if addr::socket_addr(s) is Some {
        Ok(DnsUpstreamServerView::Ip { addr: addr::socket_addr(s)->0, port_explicit: true })
    } else if text::position(s, '%') < s.len() {
        Err(
            error::invalid(
                "Invalid DNS cache upstream server "@ + s
                    + ": interface name is not supported, please use a numeric scope id, e.g. [fe80::1%2]:53"@,
            ),
        )
    } else {
        match dns_server(s) {
            Ok(ip) => Ok(upstream_of_ip(ip)),
            Err(e) => Err(e),
        }
    }
}

/// Whether every nameserver from `i` on can be used: the first failure, which
/// names `path`.
pub open spec fn nameservers_checked_from(
    servers: Seq<Seq<char>>,
    path: Seq<char>,
    i: int,
) -> Result<(), NipartErrorView>
    decreases servers.len() - i,
{
    if i < 0 || i >= servers.len() {
        Ok(())
    } else {
        match upstream(servers[i]) {
            Ok(_) => nameservers_checked_from(servers, path, i + 1),
            Err(e) => Err(
                NipartErrorView {
                    kind: e.kind,
                    msg: "Invalid nameserver at "@ + path + ": "@ + e.msg,
                },
            ),
        }
    }
}

/// Whether every plain nameserver from `i` on is valid: the first failure.
pub open spec fn servers_checked_from(servers: Seq<Seq<char>>, i: int) -> Result<
    (),
    NipartErrorView,
>
    decreases servers.len() - i,
{
    if i < 0 || i >= servers.len() {
        Ok(())
    } else {
        match dns_server(servers[i]) {
            Ok(_) => servers_checked_from(servers, i + 1),
            Err(e) => Err(e),
        }
    }
}

/// Whether the resolver option takes no value.
pub open spec fn option_without_value(name: Seq<char>) -> bool {
    ||| name == "debug"@
    ||| name == "edns0"@
    ||| name == "inet6"@
    ||| name == "ip6-bytestring"@
    ||| name == "ip6-dotint"@
    ||| name == "no-aaaa"@
    ||| name == "no-check-names"@
    ||| name == "no-ip6-dotint"@
    ||| name == "no-reload"@
    ||| name == "no-tld-query"@
    ||| name == "rotate"@
    ||| name == "single-request"@
    ||| name == "single-request-reopen"@
    ||| name == "trust-ad"@
    ||| name == "use-vc"@
}

/// Whether the resolver option takes a value.
pub open spec fn option_with_value(name: Seq<char>) -> bool {
    ||| name == "ndots"@
    ||| name == "timeout"@
    ||| name == "attempts"@
}

/// The options that are supported, for messages.
pub open spec fn supported_options() -> Seq<char> {
    "only support these without value: debug, edns0, inet6, ip6-bytestring, ip6-dotint, no-aaaa, no-check-names, no-ip6-dotint, no-reload, no-tld-query, rotate, single-request, single-request-reopen, trust-ad, use-vc and these with values: ndots:timeout:attempts"@
}

/// Whether the resolver option is supported.
pub open spec fn option_checked(option: Seq<char>) -> Result<(), NipartErrorView> {
    let name = before_first(option, ':');
    if text::position(option, ':') < option.len() {
        if option_with_value(name) {
            Ok(())
        } else {
            Err(
                error::invalid(
                    "DNS option '"@ + name + "' is not supported to hold a value, "@
                        + supported_options(),
                ),
            )
        }
    } else if option_without_value(option) {
        Ok(())
    } else {
        Err(error::invalid("Unsupported DNS option "@ + option + ", "@ + supported_options()))
    }
}

/// Whether every option from `i` on is supported: the first failure.
pub open spec fn options_checked_from(options: Seq<Seq<char>>, i: int) -> Result<
    (),
    NipartErrorView,
>
    decreases options.len() - i,
{
    if i < 0 || i >= options.len() {
        Ok(())
    } else {
        match option_checked(options[i]) {
            Ok(_) => options_checked_from(options, i + 1),
            Err(e) => Err(e),
        }
    }
}

/// Whether the domain of a group is usable.
pub open spec fn domain_checked(domain: Seq<char>) -> Result<(), NipartErrorView> {
    if domain.len() == 0 {
        Err(error::invalid("DNS cache group domain cannot be empty"@))
    } else if exists|i: int| 0 <= i < domain.len() && text::white_space(#[trigger] domain[i]) {
        Err(error::invalid("Invalid DNS cache group domain '"@ + domain + "'"@))
    } else {
        Ok(())
    }
}

/// Whether every domain from `i` on is usable: the first failure.
pub open spec fn domains_checked_from(domains: Seq<Seq<char>>, i: int) -> Result<
    (),
    NipartErrorView,
>
    decreases domains.len() - i,
{
    if i < 0 || i >= domains.len() {
        Ok(())
    } else {
        match domain_checked(domains[i]) {
            Ok(_) => domains_checked_from(domains, i + 1),
            Err(e) => Err(e),
        }
    }
}

/// Whether a group before position `i` has the name of the group at `i`.
pub open spec fn name_taken(groups: Seq<NipartDnsUpstreamGroupView>, i: int) -> bool {
    exists|j: int| 0 <= j < i && (#[trigger] groups[j]).name == groups[i].name
}

/// Whether every group from `i` on has a name of its own and is valid: the
/// first failure.
pub open spec fn groups_checked_from(groups: Seq<NipartDnsUpstreamGroupView>, i: int) -> Result<
    (),
    NipartErrorView,
>
    decreases groups.len() - i,
{
    if i < 0 || i >= groups.len() {
        Ok(())
    } else if groups[i].name.len() == 0 {
        Err(error::invalid("DNS cache group name cannot be empty"@))
    } else if name_taken(groups, i) {
        Err(error::invalid("Duplicate DNS cache group name: "@ + groups[i].name))
    } else {
        match groups[i].validated() {
            Ok(_) => groups_checked_from(groups, i + 1),
            Err(e) => Err(e),
        }
    }
}

/// Whether no domain of one group equals a domain of a later group up to the
/// case of ASCII letters. The search goes on from domain `a` of group `i` and
/// domain `b` of group `j`: the first overlap.
pub open spec fn overlap_from(
    groups: Seq<NipartDnsUpstreamGroupView>,
    i: int,
    j: int,
    a: int,
    b: int,
) -> Result<(), NipartErrorView>
    decreases
            groups.len() - i,
            groups.len() - j,
            groups[i].domains.len() - a,
            groups[j].domains.len() - b,
{
    if i < 0 || j < 0 || a < 0 || b < 0 || i >= groups.len() {
        Ok(())
    } else if j >= groups.len() {
        overlap_from(groups, i + 1, i + 2, 0, 0)
    } else if a >= groups[i].domains.len() {
        overlap_from(groups, i, j + 1, 0, 0)
    } else if b >= groups[j].domains.len() {
        overlap_from(groups, i, j, a + 1, 0)
    } else if text::ascii_lower(groups[i].domains[a]) == text::ascii_lower(groups[j].domains[b]) {
        Err(
            error::invalid(
                "DNS cache domain '"@ + groups[i].domains[a] + "' of group '"@ + groups[i].name
                    + "' overlaps with domain '"@ + groups[j].domains[b] + "' of group '"@
                    + groups[j].name + "'"@,
            ),
        )
    } else {
        overlap_from(groups, i, j, a, b + 1)
    }
}

/// `acc` with the hostnames of the DNS-over-HTTPS servers from `i` on, each
/// one once.
pub open spec fn hostnames_from(servers: Seq<Seq<char>>, i: int, acc: Seq<Seq<char>>) -> Seq<
    Seq<char>,
>
    decreases servers.len() - i,
{
    if i < 0 || i >= servers.len() {
        acc
    } else {
        match url_hostname(servers[i]) {
            Some(hostname) if !acc.contains(hostname) => hostnames_from(
                servers,
                i + 1,
                acc.push(hostname),
            ),
            _ => hostnames_from(servers, i + 1, acc),
        }
    }
}

/// `acc` with the hostnames of the DNS-over-HTTPS servers of the groups from
/// `i` on, each one once.
pub open spec fn group_hostnames_from(
    groups: Seq<NipartDnsUpstreamGroupView>,
    i: int,
    acc: Seq<Seq<char>>,
) -> Seq<Seq<char>>
    decreases groups.len() - i,
{
    if i < 0 || i >= groups.len() {
        acc
    } else {
        group_hostnames_from(groups, i + 1, hostnames_from(groups[i].nameservers, 0, acc))
    }
}

/// Whether a line of a hosts file gives an address to the host: after the
/// address, one of its words before a comment is the name of the host up to
/// the case of ASCII letters.
pub open spec fn line_names_host(line: Seq<char>, host: Seq<char>) -> bool {
    let words = text::words(before_first(line, '#'));
    exists|i: int|
        1 <= i < words.len() && text::ascii_lower(#[trigger] words[i]) == text::ascii_lower(host)
}

/// Whether the hosts file with the given content knows the host.
pub open spec fn hosts_has(content: Seq<char>, host: Seq<char>) -> bool {
    let lines = text::split(content, '\n');
    exists|i: int| 0 <= i < lines.len() && line_names_host(#[trigger] lines[i], host)
}

/// `acc` with the hosts from `i` on that the hosts file does not know.
pub open spec fn unresolved_from(
    hosts: Seq<Seq<char>>,
    content: Seq<char>,
    i: int,
    acc: Seq<Seq<char>>,
) -> Seq<Seq<char>>
    decreases hosts.len() - i,
{
    if i < 0 || i >= hosts.len() {
        acc
    } else if hosts_has(content, hosts[i]) {
        unresolved_from(hosts, content, i + 1, acc)
    } else {
        unresolved_from(hosts, content, i + 1, acc.push(hosts[i]))
    }
}

impl DnsResolverClientView {
    /// Nothing defined.
    pub open spec fn undefined() -> DnsResolverClientView {
        DnsResolverClientView { server: None, search: None, options: None }
    }

    /// Whether nothing is defined.
    pub open spec fn empty(self) -> bool {
        self == DnsResolverClientView::undefined()
    }

    /// Whether the nameservers are valid and the options supported: the first
    /// failure.
    pub open spec fn validated(self) -> Result<(), NipartErrorView> {
        match servers_checked_from(self.server.unwrap_or(Seq::empty()), 0) {
            Err(e) => Err(e),
            Ok(_) => options_checked_from(self.options.unwrap_or(Seq::empty()), 0),
        }
    }
}

impl NipartDnsUpstreamGroupView {
    /// Whether the domains and nameservers of the group are usable: the first
    /// failure.
    pub open spec fn validated(self) -> Result<(), NipartErrorView> {
        match domains_checked_from(self.domains, 0) {
            Err(e) => Err(e),
            Ok(_) => nameservers_checked_from(
                self.nameservers,
                "dns-resolver.cache.groups."@ + self.name + ".nameservers"@,
                0,
            ),
        }
    }
}

impl NipartDnsDohView {
    /// Whether there is a nameserver.
    pub open spec fn validated(self) -> Result<(), NipartErrorView> {
        if self.nameservers.len() == 0 {
            Err(
                error::invalid(
                    "dns-resolver.cache.doh.nameservers must contain at least one plain IP nameserver"@,
                ),
            )
        } else {
            Ok(())
        }
    }
}

impl DnsCacheConfigView {
    /// The hostnames of all configured DNS-over-HTTPS servers.
    pub open spec fn doh_hosts(self) -> Seq<Seq<char>> {
        group_hostnames_from(
            self.groups,
            0,
            hostnames_from(self.fallback.nameservers, 0, Seq::empty()),
        )
    }

    /// Whether the hostnames of the DNS-over-HTTPS servers can be resolved, by
    /// plain nameservers or by the hosts file.
    pub open spec fn doh_checked(self, hosts: Seq<char>) -> Result<(), NipartErrorView> {
        if self.doh_hosts().len() == 0 {
            Ok(())
        } else {
            match self.doh {
                Some(doh) => if doh.nameservers.len() > 0 {
                    Ok(())
                } else {
                    Err(
                        error::invalid(
                            "DoH nameserver is configured but dns-resolver.cache.doh.nameservers is empty"@,
                        ),
                    )
                },
                None => {
                    let unresolved = unresolved_from(self.doh_hosts(), hosts, 0, Seq::empty());
                    if unresolved.len() == 0 {
                        Ok(())
                    } else {
                        Err(
                            error::invalid(
                                "DoH nameservers "@ + debug_text(unresolved)
                                    + " are configured but dns-resolver.cache.doh.nameservers is not defined and their hostnames are not in /etc/hosts"@,
                            ),
                        )
                    }
                },
            }
        }
    }

    /// Whether the configuration can be applied on a host whose hosts file has
    /// the given content: the first failure.
    pub open spec fn validated(self, hosts: Seq<char>) -> Result<(), NipartErrorView> {
        if addr::socket_addr(self.bind) is None {
            Err(error::invalid("Invalid DNS cache bind address: "@ + self.bind))
        } else {
            match nameservers_checked_from(
                self.fallback.nameservers,
                "dns-resolver.cache.fallback"@,
                0,
            ) {
                Err(e) => Err(e),
                Ok(_) => match self.doh {
                    Some(doh) if doh.validated() is Err => doh.validated(),
                    _ => match groups_checked_from(self.groups, 0) {
                        Err(e) => Err(e),
                        Ok(_) => match overlap_from(self.groups, 0, 1, 0, 0) {
                            Err(e) => Err(e),
                            Ok(_) => self.doh_checked(hosts),
                        },
                    },
                },
            }
        }
    }
}

impl DnsResolverView {
    /// Nothing defined.
    pub open spec fn undefined() -> DnsResolverView {
        DnsResolverView { running: None, config: None, cache: None }
    }

    /// Whether nothing is defined.
    pub open spec fn empty(self) -> bool {
        self.running is None && self.config is None && self.cache is None
    }

    /// The state after `new` is merged into it: whatever `new` defines wins.
    pub open spec fn merged_with(self, new: DnsResolverView) -> DnsResolverView {
        DnsResolverView {
            running: if new.running is Some { new.running } else { self.running },
            config: if new.config is Some { new.config } else { self.config },
            cache: if new.cache is Some { new.cache } else { self.cache },
        }
    }

    /// The properties of this state, or of `old` where it has none.
    pub open spec fn diff_from(self, old: DnsResolverView) -> DnsResolverView {
        DnsResolverView {
            running: None,
            config: if self.config is Some { self.config } else { old.config },
            cache: if self.cache is Some { self.cache } else { old.cache },
        }
    }

    /// The first static nameserver.
    pub open spec fn first_server(self) -> Option<Seq<char>> {
        match self.config {
            Some(config) => match config.server {
                Some(servers) if servers.len() > 0 => Some(servers[0]),
                _ => None,
            },
            None => None,
        }
    }

    /// Whether an enabled cache is reached by the host resolver: its address
    /// is the first static nameserver.
    pub open spec fn cache_reached(self, bind: SocketAddr) -> Result<(), NipartErrorView> {
        match self.first_server() {
            None => Err(
                error::invalid(
                    "DNS cache is enabled but dns-resolver.config.server is not defined"@,
                ),
            ),
            Some(server) => match dns_server(server) {
                Err(e) => Err(e),
                Ok(ip) => if ip == bind.ip {
                    Ok(())
                } else {
                    Err(
                        error::invalid(
                            "DNS cache bind address "@ + addr::socket_text(bind)
                                + " must be the first entry of dns-resolver.config.server, but got "@
                                + server,
                        ),
                    )
                },
            },
        }
    }

    /// Whether the state can be applied on a host whose hosts file has the
    /// given content: the first failure.
    pub open spec fn validated(self, hosts: Seq<char>) -> Result<(), NipartErrorView> {
        match self.config {
            Some(config) if config.validated() is Err => config.validated(),
            _ => match self.cache {
                Some(cache) => match cache.validated(hosts) {
                    Err(e) => Err(e),
                    Ok(_) => if cache.enabled {
                        self.cache_reached(addr::socket_addr(cache.bind)->0)
                    } else {
                        Ok(())
                    },
                },
                None => Ok(()),
            },
        }
    }
}

/// Whether the address is an IPv6 link-local one.
fn is_ipv6_link_local(n: u128) -> (res: bool)
    ensures
        res == link_local(n),
{
    n / 0x40_0000_0000_0000_0000_0000_0000_0000 == 0x3fa
}

/// Whether the characters can be the name of an interface.
fn is_zone_name(s: &Vec<char>) -> (res: bool)
    ensures
        res == zone_name(s@),
{
    let mut i: usize = 0;
    while i < s.len()
        invariant
            i <= s.len(),
            forall|j: int| 0 <= j < i ==> !text::white_space(#[trigger] s[j]) && s[j] != '/',
        decreases s.len() - i,
    {
        if is_white_space(s[i]) || s[i] == '/' {
            return false;
        }
        i = i + 1;
    }
    s.len() > 0
}

/// Parse a DNS nameserver string into an [IpAddr].
///
/// Accepted formats:
///  * IPv4 address, e.g. `192.0.2.53`
///  * IPv6 address, e.g. `2001:db8::53`
///  * IPv6 link-local address with interface name, e.g. `fe80::1%eth1`
pub fn parse_dns_server(srv: &str) -> (res: Result<IpAddr, NipartError>)
    ensures
        error::same_result(res, dns_server(srv@)),
{
    if let Some(ip) = parse_ip_addr(srv) {
        return Ok(ip);
    }
    let s = to_chars(srv);
    let k: usize = find_char(&s, '%');
    if k < s.len() && is_zone_name(&slice_chars(&s, k + 1, s.len())) {
        let ip = parse_ip_addr(from_chars(&slice_chars(&s, 0, k)).as_str());
        if let Some(IpAddr::V6(n)) = ip {
            if is_ipv6_link_local(n) {
                return Ok(IpAddr::V6(n));
            }
        }
    }
    Err(
        NipartError::new(
            ErrorKind::InvalidArgument,
            String::from_str("Invalid DNS server string ").concat(srv),
        ),
    )
}

/// Whether `srv` is the URL of a DNS-over-HTTPS server.
fn is_doh_url(srv: &str) -> (res: bool)
    ensures
        res == doh_like(srv@),
{
    let scheme = to_chars("https://");
    let s = to_chars(srv);
    has_prefix(&s, &scheme) && s.len() > scheme.len()
}

/// Extract the lowercase hostname of a DoH URL, e.g.
/// `https://dns.example.org/dns-query` -> `dns.example.org`.
pub fn doh_url_hostname(url: &str) -> (res: Option<String>)
    ensures
        res.deep_view() == url_hostname(url@),
        url_host(url@) matches Some(host) ==> all_ascii(host) ==> res.deep_view() == Some(
            text::ascii_lower(host),
        ),
{
    match doh_url_host(url) {
        Some(host) => Some(to_lowercase(host.as_str())),
        None => None,
    }
}

/// The host that a DoH URL names, as it is written.
pub fn doh_url_host(url: &str) -> (res: Option<String>)
    ensures
        res.deep_view() == url_host(url@),
{
    let scheme = to_chars("https://");
    let s = to_chars(url);
    if !has_prefix(&s, &scheme) {
        return None;
    }
    let rest = slice_chars(&s, scheme.len(), s.len());
    let authority = slice_chars(&rest, 0, find_char(&rest, '/'));
    let start: usize = match find_last_char(&authority, '@') {
        Some(k) => k + 1,
        None => 0,
    };
    let host = slice_chars(&authority, start, authority.len());
    let k: usize = find_char(&host, ']');
    let host = if host.len() > 0 && host[0] == '[' && k < host.len() {
        slice_chars(&host, 1, k)
    } else {
        slice_chars(&host, 0, find_char(&host, ':'))
    };
    if host.len() == 0 {
        None
    } else {
        Some(from_chars(&host))
    }
}

impl DnsUpstreamServer {
    /// A nameserver without an explicit port: plaintext queries use 53 and
    /// DNS over TLS is probed on 853.
    pub fn from_ip(ip: IpAddr) -> (res: Self)
        ensures
            res@ == upstream_of_ip(ip),
    {
        DnsUpstreamServer::Ip {
            addr: SocketAddr { ip, port: 53, scope_id: 0 },
            port_explicit: false,
        }
    }

    /// Reads an upstream nameserver.
    pub fn parse(srv: &str) -> (res: Result<Self, NipartError>)
        ensures
            error::same_result(res, upstream(srv@)),
    {
        if is_doh_url(srv) {
            return Ok(DnsUpstreamServer::Doh(srv.to_owned()));
        }
        if let Some(addr) = parse_socket_addr(srv) {
            return Ok(DnsUpstreamServer::Ip { addr, port_explicit: true });
        }
        let s = to_chars(srv);
        if find_char(&s, '%') < s.len() {
            return Err(
                NipartError::new(
                    ErrorKind::InvalidArgument,
                    String::from_str("Invalid DNS cache upstream server ").concat(srv).concat(
                        ": interface name is not supported, please use a numeric scope id, e.g. [fe80::1%2]:53",
                    ),
                ),
            );
        }
        match parse_dns_server(srv) {
            Ok(ip) => Ok(Self::from_ip(ip)),
            Err(e) => Err(e),
        }
    }

    /// Whether this is a DNS-over-HTTPS server.
    pub fn is_doh(&self) -> (res: bool)
        ensures
            res == (self@ is Doh),
    {
        matches!(self, DnsUpstreamServer::Doh(_))
    }

    /// The nameserver as text. An implicit port is left out.
    pub fn to_text(&self) -> (res: String)
        ensures
            res@ == upstream_text(self@),
    {
        match self {
            DnsUpstreamServer::Ip { addr, port_explicit } => if *port_explicit {
                addr.to_text()
            } else {
                addr.ip.to_text()
            },
            DnsUpstreamServer::Doh(url) => url.clone(),
        }
    }
}

/// Checks upstream nameservers.
fn validate_nameservers(nameservers: &Vec<String>, path: &str) -> (res: Result<(), NipartError>)
    ensures
        error::same_result(res, nameservers_checked_from(nameservers.deep_view(), path@, 0)),
{
    let ghost views = nameservers.deep_view();
    let mut i: usize = 0;
    while i < nameservers.len()
        invariant
            i <= nameservers.len(),
            views == nameservers.deep_view(),
            nameservers_checked_from(views, path@, 0) == nameservers_checked_from(
                views,
                path@,
                i as int,
            ),
        decreases nameservers.len() - i,
    {
        assert(views[i as int] == nameservers[i as int]@);
        if let Err(e) = DnsUpstreamServer::parse(nameservers[i].as_str()) {
            return Err(
                NipartError::new(
                    e.kind(),
                    String::from_str("Invalid nameserver at ").concat(path).concat(": ").concat(
                        e.msg(),
                    ),
                ),
            );
        }
        i = i + 1;
    }
    Ok(())
}

/// Checks the domain of a group.
fn validate_domain_pattern(domain: &str) -> (res: Result<(), NipartError>)
    ensures
        error::same_result(res, domain_checked(domain@)),
{
    if domain.is_empty() {
        return Err(
            NipartError::new(
                ErrorKind::InvalidArgument,
                "DNS cache group domain cannot be empty".to_owned(),
            ),
        );
    }
    let s = to_chars(domain);
    let mut i: usize = 0;
    while i < s.len()
        invariant
            i <= s.len(),
            s@ == domain@,
            domain@.len() > 0,
            forall|j: int| 0 <= j < i ==> !text::white_space(#[trigger] s[j]),
        decreases s.len() - i,
    {
        if is_white_space(s[i]) {
            assert(text::white_space(domain@[i as int]));
            return Err(
                NipartError::new(
                    ErrorKind::InvalidArgument,
                    String::from_str("Invalid DNS cache group domain '").concat(domain).concat("'"),
                ),
            );
        }
        i = i + 1;
    }
    Ok(())
}

/// Whether the resolver option takes no value.
fn is_option_without_value(name: &str) -> (res: bool)
    ensures
        res == option_without_value(name@),
{
    text_eq(name, "debug") || text_eq(name, "edns0") || text_eq(name, "inet6") || text_eq(
        name,
        "ip6-bytestring",
    ) || text_eq(name, "ip6-dotint") || text_eq(name, "no-aaaa") || text_eq(name, "no-check-names")
        || text_eq(name, "no-ip6-dotint") || text_eq(name, "no-reload") || text_eq(
        name,
        "no-tld-query",
    ) || text_eq(name, "rotate") || text_eq(name, "single-request") || text_eq(
        name,
        "single-request-reopen",
    ) || text_eq(name, "trust-ad") || text_eq(name, "use-vc")
}

/// Whether the resolver option takes a value.
fn is_option_with_value(name: &str) -> (res: bool)
    ensures
        res == option_with_value(name@),
{
    text_eq(name, "ndots") || text_eq(name, "timeout") || text_eq(name, "attempts")
}

/// Checks a resolver option.
fn validate_option(option: &str) -> (res: Result<(), NipartError>)
    ensures
        error::same_result(res, option_checked(option@)),
{
    let s = to_chars(option);
    let k: usize = find_char(&s, ':');
    if k < s.len() {
        let name = from_chars(&slice_chars(&s, 0, k));
        if !is_option_with_value(name.as_str()) {
            return Err(
                NipartError::new(
                    ErrorKind::InvalidArgument,
                    String::from_str("DNS option '").concat(name.as_str()).concat(
                        "' is not supported to hold a value, ",
                    ).concat(
                        "only support these without value: debug, edns0, inet6, ip6-bytestring, ip6-dotint, no-aaaa, no-check-names, no-ip6-dotint, no-reload, no-tld-query, rotate, single-request, single-request-reopen, trust-ad, use-vc and these with values: ndots:timeout:attempts",
                    ),
                ),
            );
        }
    } else if !is_option_without_value(option) {
        return Err(
            NipartError::new(
                ErrorKind::InvalidArgument,
                String::from_str("Unsupported DNS option ").concat(option).concat(", ").concat(
                    "only support these without value: debug, edns0, inet6, ip6-bytestring, ip6-dotint, no-aaaa, no-check-names, no-ip6-dotint, no-reload, no-tld-query, rotate, single-request, single-request-reopen, trust-ad, use-vc and these with values: ndots:timeout:attempts",
                ),
            ),
        );
    }
    Ok(())
}

impl Default for DnsResolverClient {
    fn default() -> (res: Self)
        ensures
            res@ == DnsResolverClientView::undefined(),
    {
        DnsResolverClient { server: None, search: None, options: None }
    }
}

impl DnsResolverClient {
    /// Whether nothing is defined.
    pub fn is_empty(&self) -> (res: bool)
        ensures
            res == self@.empty(),
    {
        self.server.is_none() && self.search.is_none() && self.options.is_none()
    }

    /// Whether the nameservers are valid and the options supported.
    pub fn validate(&self) -> (res: Result<(), NipartError>)
        ensures
            error::same_result(res, self@.validated()),
    {
        let none: Vec<String> = empty_list();
        let servers = match &self.server {
            Some(servers) => servers,
            None => &none,
        };
        let ghost views = servers.deep_view();
        let mut i: usize = 0;
        while i < servers.len()
            invariant
                i <= servers.len(),
                views == servers.deep_view(),
                views == self@.server.unwrap_or(Seq::empty()),
                servers_checked_from(views, 0) == servers_checked_from(views, i as int),
            decreases servers.len() - i,
        {
            assert(views[i as int] == servers[i as int]@);
            if let Err(e) = parse_dns_server(servers[i].as_str()) {
                return Err(e);
            }
            i = i + 1;
        }
        let options = match &self.options {
            Some(options) => options,
            None => &none,
        };
        let ghost opts = options.deep_view();
        let mut i: usize = 0;
        while i < options.len()
            invariant
                i <= options.len(),
                servers_checked_from(self@.server.unwrap_or(Seq::empty()), 0) is Ok,
                opts == options.deep_view(),
                opts == self@.options.unwrap_or(Seq::empty()),
                options_checked_from(opts, 0) == options_checked_from(opts, i as int),
            decreases options.len() - i,
        {
            assert(opts[i as int] == options[i as int]@);
            if let Err(e) = validate_option(options[i].as_str()) {
                return Err(e);
            }
            i = i + 1;
        }
        Ok(())
    }
}

impl Default for NipartDnsFallback {
    fn default() -> (res: Self)
        ensures
            res@ == (NipartDnsFallbackView {
                auto_dns: true,
                nameservers: Seq::empty(),
                disable_ipv6: false,
            }),
    {
        NipartDnsFallback { auto_dns: true, nameservers: empty_list(), disable_ipv6: false }
    }
}

impl NipartDnsFallback {
    /// Checks the nameservers; a failure names `path`.
    pub fn validate(&self, path: &str) -> (res: Result<(), NipartError>)
        ensures
            error::same_result(res, nameservers_checked_from(self@.nameservers, path@, 0)),
    {
        validate_nameservers(&self.nameservers, path)
    }
}

impl Default for NipartDnsDoh {
    fn default() -> (res: Self)
        ensures
            res@ == (NipartDnsDohView { nameservers: Seq::empty(), disable_ipv6: false }),
    {
        NipartDnsDoh { nameservers: empty_list(), disable_ipv6: false }
    }
}

impl NipartDnsDoh {
    /// Whether there is a nameserver.
    pub fn validate(&self) -> (res: Result<(), NipartError>)
        ensures
            error::same_result(res, self@.validated()),
    {
        if self.nameservers.is_empty() {
            return Err(
                NipartError::new(
                    ErrorKind::InvalidArgument,
                    "dns-resolver.cache.doh.nameservers must contain at least one plain IP nameserver".to_owned(),
                ),
            );
        }
        Ok(())
    }
}

impl Default for NipartDnsUpstreamGroup {
    fn default() -> (res: Self)
        ensures
            res@ == (NipartDnsUpstreamGroupView {
                name: Seq::empty(),
                domains: Seq::empty(),
                nameservers: Seq::empty(),
                disable_ipv6: false,
            }),
    {
        NipartDnsUpstreamGroup {
            name: String::new(),
            domains: empty_list(),
            nameservers: empty_list(),
            disable_ipv6: false,
        }
    }
}

impl NipartDnsUpstreamGroup {
    /// Whether the domains and nameservers of the group are usable.
    pub fn validate(&self) -> (res: Result<(), NipartError>)
        ensures
            error::same_result(res, self@.validated()),
    {
        let ghost views = self.domains.deep_view();
        let mut i: usize = 0;
        while i < self.domains.len()
            invariant
                i <= self.domains.len(),
                views == self.domains.deep_view(),
                domains_checked_from(views, 0) == domains_checked_from(views, i as int),
            decreases self.domains.len() - i,
        {
            assert(views[i as int] == self.domains[i as int]@);
            if let Err(e) = validate_domain_pattern(self.domains[i].as_str()) {
                return Err(e);
            }
            i = i + 1;
        }
        let path = String::from_str("dns-resolver.cache.groups.").concat(self.name.as_str()).concat(
            ".nameservers",
        );
        validate_nameservers(&self.nameservers, path.as_str())
    }
}

/// Checks the names, domains and nameservers of the groups.
fn validate_groups(groups: &Vec<NipartDnsUpstreamGroup>) -> (res: Result<(), NipartError>)
    ensures
        error::same_result(res, groups_checked_from(groups.deep_view(), 0)),
{
    let ghost views = groups.deep_view();
    let mut i: usize = 0;
    while i < groups.len()
        invariant
            i <= groups.len(),
            views == groups.deep_view(),
            groups_checked_from(views, 0) == groups_checked_from(views, i as int),
        decreases groups.len() - i,
    {
        let group = &groups[i];
        assert(views[i as int] == group@);
        if group.name.as_str().is_empty() {
            return Err(
                NipartError::new(
                    ErrorKind::InvalidArgument,
                    "DNS cache group name cannot be empty".to_owned(),
                ),
            );
        }
        let mut j: usize = 0;
        while j < i
            invariant
                j <= i < groups.len(),
                views == groups.deep_view(),
                group@ == views[i as int],
                group@.name.len() > 0,
                groups_checked_from(views, 0) == groups_checked_from(views, i as int),
                forall|k: int| 0 <= k < j ==> (#[trigger] views[k]).name != group@.name,
            decreases i - j,
        {
            assert(views[j as int] == groups[j as int]@);
            if groups[j].name == group.name {
                return Err(
                    NipartError::new(
                        ErrorKind::InvalidArgument,
                        String::from_str("Duplicate DNS cache group name: ").concat(
                            group.name.as_str(),
                        ),
                    ),
                );
            }
            j = j + 1;
        }
        if let Err(e) = group.validate() {
            return Err(e);
        }
        i = i + 1;
    }
    Ok(())
}

/// Checks that no two groups share a domain: which one a query goes to would
/// depend on their order.
fn validate_no_overlap(groups: &Vec<NipartDnsUpstreamGroup>) -> (res: Result<(), NipartError>)
    ensures
        error::same_result(res, overlap_from(groups.deep_view(), 0, 1, 0, 0)),
{
    let ghost views = groups.deep_view();
    let mut i: usize = 0;
    while i < groups.len()
        invariant
            i <= groups.len(),
            views == groups.deep_view(),
            overlap_from(views, 0, 1, 0, 0) == overlap_from(views, i as int, i + 1, 0, 0),
        decreases groups.len() - i,
    {
        let first = &groups[i];
        assert(views[i as int] == first@);
        let mut j: usize = i + 1;
        while j < groups.len()
            invariant
                i < j <= groups.len(),
                views == groups.deep_view(),
                views[i as int] == first@,
                overlap_from(views, 0, 1, 0, 0) == overlap_from(views, i as int, j as int, 0, 0),
            decreases groups.len() - j,
        {
            let second = &groups[j];
            assert(views[j as int] == second@);
            let mut a: usize = 0;
            while a < first.domains.len()
                invariant
                    i < j < groups.len(),
                    a <= first.domains.len(),
                    views == groups.deep_view(),
                    views[i as int] == first@,
                    views[j as int] == second@,
                    overlap_from(views, 0, 1, 0, 0) == overlap_from(
                        views,
                        i as int,
                        j as int,
                        a as int,
                        0,
                    ),
                decreases first.domains.len() - a,
            {
                let domain = to_chars(first.domains[a].as_str());
                assert(first@.domains[a as int] == domain@);
                let mut b: usize = 0;
                while b < second.domains.len()
                    invariant
                        i < j < groups.len(),
                        a < first.domains.len(),
                        b <= second.domains.len(),
                        views == groups.deep_view(),
                        views[i as int] == first@,
                        views[j as int] == second@,
                        first@.domains[a as int] == domain@,
                        overlap_from(views, 0, 1, 0, 0) == overlap_from(
                            views,
                            i as int,
                            j as int,
                            a as int,
                            b as int,
                        ),
                    decreases second.domains.len() - b,
                {
                    assert(second@.domains[b as int] == second.domains[b as int]@);
                    if eq_ignore_ascii_case(&domain, &to_chars(second.domains[b].as_str())) {
                        return Err(
                            NipartError::new(
                                ErrorKind::InvalidArgument,
                                String::from_str("DNS cache domain '").concat(
                                    first.domains[a].as_str(),
                                ).concat("' of group '").concat(first.name.as_str()).concat(
                                    "' overlaps with domain '",
                                ).concat(second.domains[b].as_str()).concat("' of group '").concat(
                                    second.name.as_str(),
                                ).concat("'"),
                            ),
                        );
                    }
                    b = b + 1;
                }
                a = a + 1;
            }
            j = j + 1;
        }
        i = i + 1;
    }
    Ok(())
}

/// Adds the hostnames of the DNS-over-HTTPS servers that are not there yet.
fn collect_hostnames(servers: &Vec<String>, hostnames: &mut Vec<String>)
    ensures
        final(hostnames).deep_view() == hostnames_from(
            servers.deep_view(),
            0,
            old(hostnames).deep_view(),
        ),
{
    let ghost views = servers.deep_view();
    let ghost start = hostnames.deep_view();
    let mut i: usize = 0;
    while i < servers.len()
        invariant
            i <= servers.len(),
            views == servers.deep_view(),
            hostnames_from(views, 0, start) == hostnames_from(
                views,
                i as int,
                hostnames.deep_view(),
            ),
        decreases servers.len() - i,
    {
        assert(views[i as int] == servers[i as int]@);
        if let Some(hostname) = doh_url_hostname(servers[i].as_str()) {
            if !contains(hostnames, &hostname) {
                push(hostnames, hostname);
            }
        }
        i = i + 1;
    }
}

/// Whether the hosts file with the given content knows the host.
pub fn host_in_hosts_file(hostname: &str, content: &str) -> (res: bool)
    ensures
        res == hosts_has(content@, hostname@),
{
    let host = to_chars(hostname);
    let lines = split_chars(&to_chars(content), '\n');
    let ghost views = text::split(content@, '\n');
    let mut i: usize = 0;
    while i < lines.len()
        invariant
            i <= lines.len(),
            host@ == hostname@,
            views == text::split(content@, '\n'),
            views == lines.deep_view(),
            forall|j: int| 0 <= j < i ==> !line_names_host(#[trigger] views[j], hostname@),
        decreases lines.len() - i,
    {
        let line = &lines[i];
        assert(line.deep_view() =~= line@);
        assert(views[i as int] == line@);
        let words = split_words(&slice_chars(line, 0, find_char(line, '#')));
        let ghost ws = text::words(before_first(line@, '#'));
        let mut k: usize = 1;
        while k < words.len()
            invariant
                1 <= k,
                words.len() > 0 ==> k <= words.len(),
                i < lines.len(),
                host@ == hostname@,
                views == text::split(content@, '\n'),
                views == lines.deep_view(),
                views[i as int] == line@,
                ws == text::words(before_first(line@, '#')),
                ws == words.deep_view(),
                forall|j: int|
                    1 <= j < k ==> text::ascii_lower(#[trigger] ws[j]) != text::ascii_lower(
                        hostname@,
                    ),
            decreases words.len() - k,
        {
            assert(words[k as int].deep_view() =~= words[k as int]@);
            assert(ws[k as int] == words[k as int]@);
            if eq_ignore_ascii_case(&words[k], &host) {
                assert(line_names_host(views[i as int], hostname@));
                return true;
            }
            k = k + 1;
        }
        i = i + 1;
    }
    false
}

impl Default for DnsCacheConfig {
    fn default() -> (res: Self)
        ensures
            res@ == (DnsCacheConfigView {
                enabled: false,
                bind: DnsCacheConfig::DEFAULT_BIND@,
                max_cache_size: DnsCacheConfig::DEFAULT_MAX_CACHE_SIZE,
                load_etc_hosts: true,
                fallback: NipartDnsFallbackView {
                    auto_dns: true,
                    nameservers: Seq::empty(),
                    disable_ipv6: false,
                },
                doh: None,
                groups: Seq::empty(),
            }),
    {
        DnsCacheConfig {
            enabled: false,
            bind: Self::DEFAULT_BIND.to_owned(),
            max_cache_size: Self::DEFAULT_MAX_CACHE_SIZE,
            load_etc_hosts: true,
            fallback: NipartDnsFallback::default(),
            doh: None,
            groups: empty_list(),
        }
    }
}

impl DnsCacheConfig {
    pub const DEFAULT_BIND: &'static str = "127.0.0.1:53";

    pub const DEFAULT_MAX_CACHE_SIZE: usize = 4096;

    /// Parsed listen address.
    pub fn bind_addr(&self) -> (res: Option<SocketAddr>)
        ensures
            res == addr::socket_addr(self@.bind),
    {
        parse_socket_addr(self.bind.as_str())
    }

    /// Hostnames of all configured DoH nameservers, lowercased, deduplicated.
    pub fn doh_hostnames(&self) -> (res: Vec<String>)
        ensures
            res.deep_view() == self@.doh_hosts(),
    {
        let mut hostnames: Vec<String> = empty_list();
        collect_hostnames(&self.fallback.nameservers, &mut hostnames);
        let ghost start = hostnames.deep_view();
        let ghost views = self.groups.deep_view();
        let mut i: usize = 0;
        while i < self.groups.len()
            invariant
                i <= self.groups.len(),
                views == self.groups.deep_view(),
                group_hostnames_from(views, 0, start) == group_hostnames_from(
                    views,
                    i as int,
                    hostnames.deep_view(),
                ),
            decreases self.groups.len() - i,
        {
            assert(views[i as int] == self.groups[i as int]@);
            collect_hostnames(&self.groups[i].nameservers, &mut hostnames);
            i = i + 1;
        }
        hostnames
    }

    /// DoH nameservers require plain IP nameservers to resolve their hostnames
    /// unless the hostnames are present in the hosts file.
    fn validate_doh(&self, hosts: &str) -> (res: Result<(), NipartError>)
        ensures
            error::same_result(res, self@.doh_checked(hosts@)),
    {
        let hostnames = self.doh_hostnames();
        let ghost views = hostnames.deep_view();
        if hostnames.is_empty() {
            return Ok(());
        }
        match &self.doh {
            Some(doh) => if !doh.nameservers.is_empty() {
                Ok(())
            } else {
                Err(
                    NipartError::new(
                        ErrorKind::InvalidArgument,
                        "DoH nameserver is configured but dns-resolver.cache.doh.nameservers is empty".to_owned(),
                    ),
                )
            },
            None => {
                let mut unresolved: Vec<String> = empty_list();
                let mut i: usize = 0;
                while i < hostnames.len()
                    invariant
                        i <= hostnames.len(),
                        views == hostnames.deep_view(),
                        unresolved_from(views, hosts@, 0, Seq::empty()) == unresolved_from(
                            views,
                            hosts@,
                            i as int,
                            unresolved.deep_view(),
                        ),
                    decreases hostnames.len() - i,
                {
                    assert(views[i as int] == hostnames[i as int]@);
                    if !host_in_hosts_file(hostnames[i].as_str(), hosts) {
                        push(&mut unresolved, hostnames[i].dup());
                    }
                    i = i + 1;
                }
                if unresolved.is_empty() {
                    Ok(())
                } else {
                    Err(
                        NipartError::new(
                            ErrorKind::InvalidArgument,
                            String::from_str("DoH nameservers ").concat(
                                format_debug(&unresolved).as_str(),
                            ).concat(
                                " are configured but dns-resolver.cache.doh.nameservers is not defined and their hostnames are not in /etc/hosts",
                            ),
                        ),
                    )
                }
            },
        }
    }

    /// Whether the configuration can be applied on a host whose hosts file has
    /// the given content.
    pub fn validate(&self, hosts: &str) -> (res: Result<(), NipartError>)
        ensures
            error::same_result(res, self@.validated(hosts@)),
    {
        if self.bind_addr().is_none() {
            return Err(
                NipartError::new(
                    ErrorKind::InvalidArgument,
                    String::from_str("Invalid DNS cache bind address: ").concat(self.bind.as_str()),
                ),
            );
        }
        if let Err(e) = self.fallback.validate("dns-resolver.cache.fallback") {
            return Err(e);
        }
        if let Some(doh) = &self.doh {
            if let Err(e) = doh.validate() {
                return Err(e);
            }
        }
        if let Err(e) = validate_groups(&self.groups) {
            return Err(e);
        }
        if let Err(e) = validate_no_overlap(&self.groups) {
            return Err(e);
        }
        self.validate_doh(hosts)
    }
}

impl Default for DnsResolver {
    fn default() -> (res: Self)
        ensures
            res@ == DnsResolverView::undefined(),
    {
        DnsResolver { running: None, config: None, cache: None }
    }
}

impl DnsResolver {
    /// Whether nothing is defined.
    pub fn is_empty(&self) -> (res: bool)
        ensures
            res == self@.empty(),
    {
        self.running.is_none() && self.config.is_none() && self.cache.is_none()
    }

    /// Merge `new_state` into `self`, preferring the new values.
    pub fn merge(&mut self, new_state: &Self) -> (res: Result<(), NipartError>)
        ensures
            res is Ok,
            final(self)@ == old(self)@.merged_with(new_state@),
    {
        if new_state.running.is_some() {
            self.running = new_state.running.dup();
        }
        if new_state.config.is_some() {
            self.config = new_state.config.dup();
        }
        if new_state.cache.is_some() {
            self.cache = new_state.cache.dup();
        }
        Ok(())
    }

    /// Diff against `old`, keeping only the properties explicitly set in
    /// this state.
    pub fn gen_diff(&self, old_state: &Self) -> (res: Self)
        ensures
            res@ == self@.diff_from(old_state@),
    {
        DnsResolver {
            running: None,
            config: if self.config.is_some() {
                self.config.dup()
            } else {
                old_state.config.dup()
            },
            cache: if self.cache.is_some() {
                self.cache.dup()
            } else {
                old_state.cache.dup()
            },
        }
    }

    /// The first static nameserver.
    fn first_server(&self) -> (res: Option<&String>)
        ensures
            match res {
                Some(server) => self@.first_server() == Some(server@),
                None => self@.first_server() is None,
            },
    {
        match &self.config {
            Some(config) => match &config.server {
                Some(servers) => if servers.len() > 0 {
                    assert(servers.deep_view()[0] == servers[0]@);
                    Some(&servers[0])
                } else {
                    None
                },
                None => None,
            },
            None => None,
        }
    }

    /// Whether an enabled cache is reached by the host resolver. Requiring the
    /// cache to be the first nameserver turns a cache that runs while no query
    /// reaches it into an error.
    fn validate_cache_reached(&self, bind: SocketAddr) -> (res: Result<(), NipartError>)
        ensures
            error::same_result(res, self@.cache_reached(bind)),
    {
        let server = match self.first_server() {
            Some(server) => server,
            None => {
                return Err(
                    NipartError::new(
                        ErrorKind::InvalidArgument,
                        "DNS cache is enabled but dns-resolver.config.server is not defined".to_owned(),
                    ),
                );
            },
        };
        let ip = match parse_dns_server(server.as_str()) {
            Ok(ip) => ip,
            Err(e) => {
                return Err(e);
            },
        };
        if ip != bind.ip {
            return Err(
                NipartError::new(
                    ErrorKind::InvalidArgument,
                    String::from_str("DNS cache bind address ").concat(
                        bind.to_text().as_str(),
                    ).concat(
                        " must be the first entry of dns-resolver.config.server, but got ",
                    ).concat(server.as_str()),
                ),
            );
        }
        Ok(())
    }

    /// Validate the desired DNS resolver configuration for a host whose hosts
    /// file has the given content.
    pub fn validate(&self, hosts: &str) -> (res: Result<(), NipartError>)
        ensures
            error::same_result(res, self@.validated(hosts@)),
    {
        if let Some(config) = &self.config {
            if let Err(e) = config.validate() {
                return Err(e);
            }
        }
        if let Some(cache) = &self.cache {
            if let Err(e) = cache.validate(hosts) {
                return Err(e);
            }
            if cache.enabled {
                if let Some(bind) = cache.bind_addr() {
                    return self.validate_cache_reached(bind);
                }
            }
        }
        Ok(())
    }
}

/// Every name of a checked group is its own.
proof fn lemma_groups_checked(groups: Seq<NipartDnsUpstreamGroupView>, i: int)
    requires
        0 <= i <= groups.len(),
        groups_checked_from(groups, i) is Ok,
    ensures
        forall|k: int|
            i <= k < groups.len() ==> (#[trigger] groups[k]).name.len() > 0 && !name_taken(
                groups,
                k,
            ) && groups[k].validated() is Ok,
    decreases groups.len() - i,
{
    if i < groups.len() {
        lemma_groups_checked(groups, i + 1);
    }
}

/// A search that finds no overlap leaves none between later domains.
proof fn lemma_overlap(
    groups: Seq<NipartDnsUpstreamGroupView>,
    i: int,
    j: int,
    a: int,
    b: int,
    k: int,
    l: int,
    c: int,
    d: int,
)
    requires
        0 <= i < j,
        0 <= a,
        0 <= b,
        overlap_from(groups, i, j, a, b) is Ok,
        0 <= k < l < groups.len(),
        0 <= c < groups[k].domains.len(),
        0 <= d < groups[l].domains.len(),
        i < k || (i == k && (j < l || (j == l && (a < c || (a == c && b <= d))))),
    ensures
        text::ascii_lower(groups[k].domains[c]) != text::ascii_lower(groups[l].domains[d]),
    decreases
            groups.len() - i,
            groups.len() - j,
            groups[i].domains.len() - a,
            groups[j].domains.len() - b,
{
    if j >= groups.len() {
        lemma_overlap(groups, i + 1, i + 2, 0, 0, k, l, c, d);
    } else if a >= groups[i].domains.len() {
        lemma_overlap(groups, i, j + 1, 0, 0, k, l, c, d);
    } else if b >= groups[j].domains.len() {
        lemma_overlap(groups, i, j, a + 1, 0, k, l, c, d);
    } else if i != k || j != l || a != c || b != d {
        lemma_overlap(groups, i, j, a, b + 1, k, l, c, d);
    }
}

/// The groups of a valid cache have names of their own, and no domain belongs
/// to two of them, however its letters are cased.
pub proof fn law_groups(
    cache: DnsCacheConfigView,
    hosts: Seq<char>,
    k: int,
    l: int,
    c: int,
    d: int,
)
    requires
        cache.validated(hosts) is Ok,
        0 <= k < l < cache.groups.len(),
    ensures
        cache.groups[k].name.len() > 0,
        cache.groups[k].name != cache.groups[l].name,
        0 <= c < cache.groups[k].domains.len() && 0 <= d < cache.groups[l].domains.len()
            ==> text::ascii_lower(cache.groups[k].domains[c]) != text::ascii_lower(
            cache.groups[l].domains[d],
        ),
{
    lemma_groups_checked(cache.groups, 0);
    assert(!name_taken(cache.groups, l));
    assert(cache.groups[k].name.len() > 0);
    if 0 <= c < cache.groups[k].domains.len() && 0 <= d < cache.groups[l].domains.len() {
        lemma_overlap(cache.groups, 0, 1, 0, 0, k, l, c, d);
    }
}

/// The host of a valid state asks the enabled cache first: the first static
/// nameserver is the address that the cache listens on.
pub proof fn law_cache_is_reached(state: DnsResolverView, hosts: Seq<char>)
    requires
        state.validated(hosts) is Ok,
        state.cache is Some,
        state.cache->0.enabled,
    ensures
        state.first_server() is Some,
        addr::socket_addr(state.cache->0.bind) is Some,
        dns_server(state.first_server()->0) == Ok::<IpAddr, NipartErrorView>(
            addr::socket_addr(state.cache->0.bind)->0.ip,
        ),
{
}

/// Merging DNS states goes from left to right, whatever is merged first, and a
/// state that defines nothing changes nothing.
pub proof fn law_merged(a: DnsResolverView, b: DnsResolverView, c: DnsResolverView)
    ensures
        a.merged_with(b).merged_with(c) == a.merged_with(b.merged_with(c)),
        a.merged_with(DnsResolverView::undefined()) == a,
        DnsResolverView::undefined().merged_with(a) == a,
        a.merged_with(a) == a,
{
}

/// Whether a nameserver can be written: a DNS-over-HTTPS server has a URL, and
/// one without an explicit port has the default one and no scope.
pub open spec fn is_writable(server: DnsUpstreamServerView) -> bool {
    match server {
        DnsUpstreamServerView::Ip { addr, port_explicit } => {
            &&& addr.ip is V4 ==> addr.scope_id == 0
            &&& !port_explicit ==> addr.port == 53 && addr.scope_id == 0
        },
        DnsUpstreamServerView::Doh(url) => doh_like(url),
    }
}

/// A nameserver that is written is read back as the same nameserver, and what
/// is read can be written.
pub proof fn law_upstream_round_trip(server: DnsUpstreamServerView, s: Seq<char>)
    ensures
        is_writable(server) ==> upstream(upstream_text(server)) == Ok::<
            DnsUpstreamServerView,
            NipartErrorView,
        >(server),
        upstream(s) is Ok ==> is_writable(upstream(s)->Ok_0),
{
    reveal_strlit("https://");
    if is_writable(server) {
        match server {
            DnsUpstreamServerView::Ip { addr, port_explicit } => if port_explicit {
                addr_laws::law_socket_round_trip(addr);
                addr_laws::lemma_socket_start(addr);
                assert(!text::starts_with(addr::socket_text(addr), https())) by {
                    assert(https()[0] == 'h');
                }
            } else {
                addr_laws::law_ip_round_trip(addr.ip);
                addr_laws::lemma_no_socket(addr.ip);
                assert(!text::starts_with(addr::ip_text(addr.ip), https())) by {
                    assert(https()[0] == 'h');
                }
            },
            DnsUpstreamServerView::Doh(_) => {},
        }
    }
}

} // verus!
