//! Declarative network state: how a desired state, the current state of the
//! host and the saved state are merged, compared, verified and reverted.

pub mod addr;
pub mod addr_laws;
pub mod alt_names;
pub mod dns;
pub mod error;
pub mod iface;
pub mod ifaces;
pub mod ip;
pub mod keymap;
pub mod merge_ifaces;
pub mod merge_laws;
pub mod merged_dns;
pub mod merged_iface;
pub mod merged_ifaces;
pub mod merged_net_state;
pub mod merged_route;
pub mod merged_route_rule;
pub mod net_state;
pub mod no_daemon;
pub mod order;
pub mod plugin;
pub mod post_merge;
pub mod route;
pub mod route_rule;
pub mod saved_laws;
pub mod text;
pub mod up_priority;
pub mod value;
pub mod wait_online;
pub mod wifi;
pub mod wifi_client;
pub mod wifi_laws;

pub use addr::{IpAddr, SocketAddr, parse_ip_addr, parse_socket_addr};
pub use dns::{
    DnsCacheConfig, DnsResolver, DnsResolverClient, DnsUpstreamServer, NipartDnsDoh,
    NipartDnsFallback, NipartDnsUpstreamGroup, doh_url_hostname,
};
pub use error::{ErrorKind, NipartError};
pub use iface::{
    AltNameEntry, AltNameState, BaseInterface, Interface, InterfaceIdentifier, InterfaceLinkState,
    InterfaceState, InterfaceType, VethConfig, WifiConfig,
};
pub use ifaces::{IfaceSearch, Interfaces};
pub use ip::{DhcpState, InterfaceIpAddr, InterfaceIpv4, InterfaceIpv6};
pub use keymap::KeyMap;
pub use merged_dns::MergedDnsResolver;
pub use merged_iface::MergedInterface;
pub use merged_ifaces::MergedInterfaces;
pub use merged_net_state::{MergedNetworkState, NipartApplyOption};
pub use merged_route::MergedRoutes;
pub use merged_route_rule::MergedRouteRules;
pub use net_state::NetworkState;
pub use no_daemon::NipartNoDaemon;
pub use plugin::{NipartPluginCmd, NipartQueryOption, NipartWifiScanOption};
pub use route::{RouteEntry, RouteState, RouteType, Routes};
pub use route_rule::{
    AddressFamily, RouteRuleAction, RouteRuleEntry, RouteRuleState, RouteRules,
};
pub use value::Value;
pub use wait_online::{NipartWaitOnline, NipartWaitOnlineCondition};
pub use wifi_client::{NipartWifiControl, WifiClientState};
