//! When the network counts as online.

use vstd::prelude::*;

use crate::iface::InterfaceLinkState;
use crate::net_state::{NetworkState, NetworkStateView};
use crate::route::{RouteEntry, RouteEntryView};
use crate::text::text_eq;
use crate::value::{Value, empty_list, push};
use crate::{keymap, route};

verus! {

pub const GATEWAY4: &'static str = "0.0.0.0/0";

pub const GATEWAY6: &'static str = "::/0";

/// What has to be there for the network to be online.
#[derive(Clone, Copy, Debug, PartialEq, Eq, Hash, Structural)]
#[non_exhaustive]
pub enum NipartWaitOnlineCondition {
    /// IPv4 or IPv6 default gateway present on an interface whose link is
    /// usable.
    Gateway,
    /// IPv4 default gateway present on an interface whose link is usable.
    Gateway4,
    /// IPv6 default gateway present on an interface whose link is usable.
    Gateway6,
}

impl DeepView for NipartWaitOnlineCondition {
    type V = NipartWaitOnlineCondition;

    open spec fn deep_view(&self) -> NipartWaitOnlineCondition {
        *self
    }
}

impl Value for NipartWaitOnlineCondition {
    fn dup(&self) -> (res: Self) {
        *self
    }

    fn same(&self, other: &Self) -> (res: bool) {
        *self == *other
    }
}

/// Daemon wait online configuration
///
/// Configuration instructing when daemon should consider the network is
/// online on boot.
/// Once daemon reaches online state, it stop tracking whether online
/// conditions still met. This is purely designed for systemd
/// network-online.target.
#[derive(Clone, Debug, PartialEq, Eq)]
pub struct NipartWaitOnline {
    /// Maximum wait time in seconds to wait network state to be online.
    /// Default is 30 seconds. Setting to 0 means mark as online once daemon
    /// starts.
    pub timeout_sec: u32,
    /// The network is considered as online when all of these conditions met.
    /// If undefined, defaults to [NipartWaitOnlineCondition::Gateway], i.e.
    /// wait for an IPv4 or IPv6 default gateway to appear in the running
    /// network state on an interface whose link is usable.
    /// If set to empty list explicitly, daemon will mark online once started.
    pub conditions: Vec<NipartWaitOnlineCondition>,
}

/// What a [NipartWaitOnline] stands for.
#[verifier::ext_equal]
pub struct NipartWaitOnlineView {
    pub timeout_sec: u32,
    pub conditions: Seq<NipartWaitOnlineCondition>,
}

impl View for NipartWaitOnline {
    type V = NipartWaitOnlineView;

    open spec fn view(&self) -> NipartWaitOnlineView {
        NipartWaitOnlineView {
            timeout_sec: self.timeout_sec.deep_view(),
            conditions: self.conditions.deep_view(),
        }
    }
}

impl DeepView for NipartWaitOnline {
    type V = NipartWaitOnlineView;

    open spec fn deep_view(&self) -> NipartWaitOnlineView {
        self@
    }
}

impl Value for NipartWaitOnline {
    fn dup(&self) -> (res: Self) {
        NipartWaitOnline {
            timeout_sec: self.timeout_sec.dup(),
            conditions: self.conditions.dup(),
        }
    }

    fn same(&self, other: &Self) -> (res: bool) {
        self.timeout_sec.same(&other.timeout_sec) && self.conditions.same(&other.conditions)
    }
}

impl NipartWaitOnlineCondition {
    /// Whether the route is the kind of default gateway to wait for.
    pub open spec fn wants(self, rt: RouteEntryView) -> bool {
        match self {
            NipartWaitOnlineCondition::Gateway => rt.destination == Some(GATEWAY4@)
                || rt.destination == Some(GATEWAY6@),
            NipartWaitOnlineCondition::Gateway4 => rt.destination == Some(GATEWAY4@),
            NipartWaitOnlineCondition::Gateway6 => rt.destination == Some(GATEWAY6@),
        }
    }

    /// Whether a running route is the kind of default gateway to wait for and
    /// leaves through a usable link.
    pub open spec fn met(self, state: NetworkStateView) -> bool {
        let routes = route::list_of(state.routes.running);
        exists|i: int|
            0 <= i < routes.len() && self.wants(#[trigger] routes[i]) && link_usable(
                state,
                routes[i],
            )
    }
}

/// Whether the interface that the route leaves through has a usable link.
pub open spec fn link_usable(state: NetworkStateView, rt: RouteEntryView) -> bool {
    match rt.next_hop_iface {
        None => false,
        Some(name) => match keymap::lookup(state.ifaces.kernel_ifaces, name) {
            None => false,
            Some(iface) => iface.base.link_state == Some(InterfaceLinkState::Up)
                || iface.base.link_state == Some(InterfaceLinkState::Unknown),
        },
    }
}

impl NipartWaitOnlineView {
    /// Waiting for any default gateway for the default time.
    pub open spec fn default_wait() -> NipartWaitOnlineView {
        NipartWaitOnlineView {
            timeout_sec: NipartWaitOnline::DEFAULT_TIMEOUT_SEC,
            conditions: seq![NipartWaitOnlineCondition::Gateway],
        }
    }
}

impl NipartWaitOnline {
    pub const DEFAULT_TIMEOUT_SEC: u32 = 30;
}

impl Default for NipartWaitOnlineCondition {
    fn default() -> (res: Self)
        ensures
            res == NipartWaitOnlineCondition::Gateway,
    {
        NipartWaitOnlineCondition::Gateway
    }
}

fn default_conditions() -> (res: Vec<NipartWaitOnlineCondition>)
    ensures
        res.deep_view() == seq![NipartWaitOnlineCondition::Gateway],
{
    let mut res: Vec<NipartWaitOnlineCondition> = empty_list();
    push(&mut res, NipartWaitOnlineCondition::default());
    assert(res.deep_view() =~= seq![NipartWaitOnlineCondition::Gateway]);
    res
}

impl Default for NipartWaitOnline {
    fn default() -> (res: Self)
        ensures
            res@ == NipartWaitOnlineView::default_wait(),
    {
        NipartWaitOnline {
            timeout_sec: Self::DEFAULT_TIMEOUT_SEC,
            conditions: default_conditions(),
        }
    }
}

impl NipartWaitOnlineCondition {
    /// Whether the state meets the condition.
    pub fn is_met(&self, cur_state: &NetworkState) -> (res: bool)
        ensures
            res == self.met(cur_state@),
    {
        let routes = match &cur_state.routes.running {
            Some(routes) => routes,
            None => {
                return false;
            },
        };
        let ghost views = routes.deep_view();
        let mut i: usize = 0;
        while i < routes.len()
            invariant
                i <= routes.len(),
                views == routes.deep_view(),
                views == route::list_of(cur_state@.routes.running),
                forall|j: int|
                    0 <= j < i ==> !(self.wants(#[trigger] views[j]) && link_usable(
                        cur_state@,
                        views[j],
                    )),
            decreases routes.len() - i,
        {
            assert(views[i as int] == routes[i as int]@);
            if self.route_matches(&routes[i]) && route_iface_link_usable(cur_state, &routes[i]) {
                return true;
            }
            i = i + 1;
        }
        false
    }

    /// Whether the route is the kind of default gateway to wait for.
    fn route_matches(&self, rt: &RouteEntry) -> (res: bool)
        ensures
            res == self.wants(rt@),
    {
        let destination = match &rt.destination {
            Some(destination) => destination.as_str(),
            None => {
                return false;
            },
        };
        match self {
            NipartWaitOnlineCondition::Gateway => text_eq(destination, GATEWAY4) || text_eq(
                destination,
                GATEWAY6,
            ),
            NipartWaitOnlineCondition::Gateway4 => text_eq(destination, GATEWAY4),
            NipartWaitOnlineCondition::Gateway6 => text_eq(destination, GATEWAY6),
        }
    }
}

/// Whether the interface a default gateway egresses through is usable.
///
/// A default route can outlive its link: the kernel keeps a static default
/// route when the interface (e.g. wifi) disconnects, so matching only the
/// route table would report the network online before the link is usable.
///
/// A link is usable when its `link-state` is `up` (physical link with
/// carrier) or `unknown` (a carrier-less virtual link such as a tunnel,
/// wireguard or dummy interface that is administratively up). A default
/// route without a resolved next-hop interface (e.g. a blackhole route) is
/// not usable either.
fn route_iface_link_usable(cur_state: &NetworkState, rt: &RouteEntry) -> (res: bool)
    ensures
        res == link_usable(cur_state@, rt@),
{
    match &rt.next_hop_iface {
        Some(name) => match cur_state.ifaces.kernel_ifaces.get(name) {
            Some(iface) => matches!(
                iface.base.link_state,
                Some(InterfaceLinkState::Up) | Some(InterfaceLinkState::Unknown)
            ),
            None => false,
        },
        None => false,
    }
}

/// Any gateway is there exactly when one of IPv4 or one of IPv6 is, and none
/// is there without running routes.
pub proof fn law_any_gateway(state: NetworkStateView)
    ensures
        NipartWaitOnlineCondition::Gateway.met(state) == (NipartWaitOnlineCondition::Gateway4.met(
            state,
        ) || NipartWaitOnlineCondition::Gateway6.met(state)),
        state.routes.running is None ==> !NipartWaitOnlineCondition::Gateway.met(state),
{
    let routes = route::list_of(state.routes.running);
    if NipartWaitOnlineCondition::Gateway.met(state) {
        let i = choose|i: int|
            0 <= i < routes.len() && NipartWaitOnlineCondition::Gateway.wants(
                #[trigger] routes[i],
            ) && link_usable(state, routes[i]);
        assert(NipartWaitOnlineCondition::Gateway4.wants(routes[i])
            || NipartWaitOnlineCondition::Gateway6.wants(routes[i]));
    }
    if NipartWaitOnlineCondition::Gateway4.met(state) {
        let i = choose|i: int|
            0 <= i < routes.len() && NipartWaitOnlineCondition::Gateway4.wants(
                #[trigger] routes[i],
            ) && link_usable(state, routes[i]);
        assert(NipartWaitOnlineCondition::Gateway.wants(routes[i]));
    }
    if NipartWaitOnlineCondition::Gateway6.met(state) {
        let i = choose|i: int|
            0 <= i < routes.len() && NipartWaitOnlineCondition::Gateway6.wants(
                #[trigger] routes[i],
            ) && link_usable(state, routes[i]);
        assert(NipartWaitOnlineCondition::Gateway.wants(routes[i]));
    }
}

} // verus!
