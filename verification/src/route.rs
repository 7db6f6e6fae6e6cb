//! Routes.

use vstd::prelude::*;
use vstd::string::*;

use crate::addr::{is_ipv6_addr, parse_ip_addr, sanitize_ip_network};
use crate::error::{ErrorKind, NipartError, NipartErrorView};
use crate::iface::InterfaceType;
use crate::merged_ifaces::{MergedInterfaces, MergedInterfacesView};
use crate::order::{Keyed, insert_item, sort};
use crate::text::{
    is_text_before, join, option_decimal, option_signed_decimal, option_text, push_prop,
    push_text_prop, text_eq,
};
use crate::value::{Value, empty_list, push};
use crate::{addr, addr_laws, error, keymap, order, text};

verus! {

/// The table of a route that does not name one.
pub const ROUTE_MAIN_TABLE_ID: u32 = 254;

/// The interface of a route that has no next hop.
pub const LOOPBACK_IFACE_NAME: &'static str = "lo";

/// What is done with a route.
#[derive(Clone, Copy, Debug, PartialEq, Eq, Hash, Structural)]
#[non_exhaustive]
pub enum RouteState {
    /// The route is to be deleted.
    Absent,
    /// The route is persisted but not applied.
    Saved,
    /// The route is left alone.
    Ignore,
}

impl DeepView for RouteState {
    type V = RouteState;

    open spec fn deep_view(&self) -> RouteState {
        *self
    }
}

impl Value for RouteState {
    fn dup(&self) -> (res: Self) {
        *self
    }

    fn same(&self, other: &Self) -> (res: bool) {
        *self == *other
    }
}

/// What a route without a next hop does with packets.
#[derive(Clone, Copy, Debug, PartialEq, Eq, Hash, Structural)]
#[non_exhaustive]
pub enum RouteType {
    Blackhole,
    Unreachable,
    Prohibit,
}

impl DeepView for RouteType {
    type V = RouteType;

    open spec fn deep_view(&self) -> RouteType {
        *self
    }
}

impl Value for RouteType {
    fn dup(&self) -> (res: Self) {
        *self
    }

    fn same(&self, other: &Self) -> (res: bool) {
        *self == *other
    }
}

/// A route.
#[derive(Clone, Debug)]
pub struct RouteEntry {
    pub state: Option<RouteState>,
    /// The destination network.
    pub destination: Option<String>,
    /// The interface of the next hop: its name in the kernel, or that of a profile.
    pub next_hop_iface: Option<String>,
    /// The address of the next hop.
    pub next_hop_addr: Option<String>,
    /// The metric; [RouteEntry::USE_DEFAULT_METRIC] for the default.
    pub metric: Option<i64>,
    /// The route table; [RouteEntry::USE_DEFAULT_ROUTE_TABLE] for the main one.
    pub table_id: Option<u32>,
    /// The VRF whose route table the route is in.
    pub vrf_name: Option<String>,
    pub route_type: Option<RouteType>,
    /// Whether the next hop is taken to be on the link.
    pub onlink: Option<bool>,
}

/// What a [RouteEntry] stands for.
#[verifier::ext_equal]
pub struct RouteEntryView {
    pub state: Option<RouteState>,
    pub destination: Option<Seq<char>>,
    pub next_hop_iface: Option<Seq<char>>,
    pub next_hop_addr: Option<Seq<char>>,
    pub metric: Option<i64>,
    pub table_id: Option<u32>,
    pub vrf_name: Option<Seq<char>>,
    pub route_type: Option<RouteType>,
    pub onlink: Option<bool>,
}

impl View for RouteEntry {
    type V = RouteEntryView;

    open spec fn view(&self) -> RouteEntryView {
        RouteEntryView {
            state: self.state.deep_view(),
            destination: self.destination.deep_view(),
            next_hop_iface: self.next_hop_iface.deep_view(),
            next_hop_addr: self.next_hop_addr.deep_view(),
            metric: self.metric.deep_view(),
            table_id: self.table_id.deep_view(),
            vrf_name: self.vrf_name.deep_view(),
            route_type: self.route_type.deep_view(),
            onlink: self.onlink.deep_view(),
        }
    }
}

impl DeepView for RouteEntry {
    type V = RouteEntryView;

    open spec fn deep_view(&self) -> RouteEntryView {
        self@
    }
}

impl Value for RouteEntry {
    fn dup(&self) -> (res: Self) {
        RouteEntry {
            state: self.state.dup(),
            destination: self.destination.dup(),
            next_hop_iface: self.next_hop_iface.dup(),
            next_hop_addr: self.next_hop_addr.dup(),
            metric: self.metric.dup(),
            table_id: self.table_id.dup(),
            vrf_name: self.vrf_name.dup(),
            route_type: self.route_type.dup(),
            onlink: self.onlink.dup(),
        }
    }

    fn same(&self, other: &Self) -> (res: bool) {
        self.state.same(&other.state) && self.destination.same(&other.destination) && self.next_hop_iface.same(&other.next_hop_iface) && self.next_hop_addr.same(&other.next_hop_addr) && self.metric.same(&other.metric) && self.table_id.same(&other.table_id) && self.vrf_name.same(&other.vrf_name) && self.route_type.same(&other.route_type) && self.onlink.same(&other.onlink)
    }
}

/// Routes.
///
/// When applying, the desired routes are added to the existing ones. A route
/// marked as [RouteState::Absent] removes every existing route that it matches,
/// and any property that it leaves undefined matches everything.
#[derive(Clone, Debug, PartialEq, Eq)]
pub struct Routes {
    /// All routes of the host. Ignored when applying.
    pub running: Option<Vec<RouteEntry>>,
    /// Static routes.
    pub config: Option<Vec<RouteEntry>>,
}

/// What a [Routes] stands for.
#[verifier::ext_equal]
pub struct RoutesView {
    pub running: Option<Seq<RouteEntryView>>,
    pub config: Option<Seq<RouteEntryView>>,
}

impl View for Routes {
    type V = RoutesView;

    open spec fn view(&self) -> RoutesView {
        RoutesView {
            running: self.running.deep_view(),
            config: self.config.deep_view(),
        }
    }
}

impl DeepView for Routes {
    type V = RoutesView;

    open spec fn deep_view(&self) -> RoutesView {
        self@
    }
}

impl Value for Routes {
    fn dup(&self) -> (res: Self) {
        Routes {
            running: self.running.dup(),
            config: self.config.dup(),
        }
    }

    fn same(&self, other: &Self) -> (res: bool) {
        self.running.same(&other.running) && self.config.same(&other.config)
    }
}

/// By what a route is ordered and told apart from others.
#[verifier::ext_equal]
pub struct RouteKey {
    pub present: bool,
    pub ipv4: bool,
    pub table_id: int,
    pub iface: Seq<char>,
    pub destination: Seq<char>,
    pub next_hop_addr: Seq<char>,
    pub metric: int,
    pub route_type: int,
}

impl RouteKey {
    /// Whether the key stands before `other`.
    pub open spec fn before(self, other: RouteKey) -> bool {
        if self.present != other.present {
            other.present
        } else if self.ipv4 != other.ipv4 {
            other.ipv4
        } else if self.table_id != other.table_id {
            self.table_id < other.table_id
        } else if self.iface != other.iface {
            text::text_before(self.iface, other.iface)
        } else if self.destination != other.destination {
            text::text_before(self.destination, other.destination)
        } else if self.next_hop_addr != other.next_hop_addr {
            text::text_before(self.next_hop_addr, other.next_hop_addr)
        } else if self.metric != other.metric {
            self.metric < other.metric
        } else {
            self.route_type < other.route_type
        }
    }
}

/// The place of the type in the order of routes.
pub open spec fn type_code(route_type: Option<RouteType>) -> int {
    match route_type {
        None => 0,
        Some(RouteType::Blackhole) => 1,
        Some(RouteType::Unreachable) => 2,
        Some(RouteType::Prohibit) => 3,
    }
}

impl RouteType {
    pub open spec fn text(self) -> Seq<char> {
        match self {
            RouteType::Blackhole => "blackhole"@,
            RouteType::Unreachable => "unreachable"@,
            RouteType::Prohibit => "prohibit"@,
        }
    }

    pub fn as_str(&self) -> (res: &'static str)
        ensures
            res@ == self.text(),
    {
        match self {
            RouteType::Blackhole => "blackhole",
            RouteType::Unreachable => "unreachable",
            RouteType::Prohibit => "prohibit",
        }
    }
}

impl RouteState {
    pub open spec fn text(self) -> Seq<char> {
        match self {
            RouteState::Absent => "absent"@,
            RouteState::Saved => "saved"@,
            RouteState::Ignore => "ignore"@,
        }
    }

    pub fn as_str(&self) -> (res: &'static str)
        ensures
            res@ == self.text(),
    {
        match self {
            RouteState::Absent => "absent",
            RouteState::Saved => "saved",
            RouteState::Ignore => "ignore",
        }
    }
}

/// An optional text where `default` stands for one that is undefined.
pub open spec fn text_or(s: Option<Seq<char>>, default: Seq<char>) -> Seq<char> {
    match s {
        Some(s) => s,
        None => default,
    }
}

/// Whether a defined property is that of the other route.
pub open spec fn prop_matches<T>(wanted: Option<T>, other: Option<T>) -> bool {
    wanted is Some ==> wanted == other
}

impl RouteEntryView {
    /// A route with nothing defined.
    pub open spec fn undefined() -> RouteEntryView {
        RouteEntryView {
            state: None,
            destination: None,
            next_hop_iface: None,
            next_hop_addr: None,
            metric: None,
            table_id: None,
            vrf_name: None,
            route_type: None,
            onlink: None,
        }
    }

    pub open spec fn absent(self) -> bool {
        self.state == Some(RouteState::Absent)
    }

    /// Whether the destination is an IPv6 network.
    pub open spec fn ipv6(self) -> bool {
        self.destination is Some && addr::ipv6_like(self.destination->0)
    }

    /// By what the route is ordered and told apart from others.
    pub open spec fn key(self) -> RouteKey {
        RouteKey {
            present: !self.absent(),
            ipv4: !self.ipv6(),
            table_id: self.table_id.unwrap_or(ROUTE_MAIN_TABLE_ID) as int,
            iface: text_or(self.next_hop_iface, LOOPBACK_IFACE_NAME@),
            destination: text_or(self.destination, Seq::empty()),
            next_hop_addr: text_or(self.next_hop_addr, Seq::empty()),
            metric: self.metric.unwrap_or(RouteEntry::USE_DEFAULT_METRIC) as int,
            route_type: type_code(self.route_type),
        }
    }

    /// Whether the other route has every property that this one defines.
    pub open spec fn matches_route(self, other: RouteEntryView) -> bool {
        &&& self.destination == Some(Seq::<char>::empty()) || prop_matches(
            self.destination,
            other.destination,
        )
        &&& prop_matches(self.next_hop_iface, other.next_hop_iface)
        &&& prop_matches(self.next_hop_addr, other.next_hop_addr)
        &&& self.metric == Some(RouteEntry::USE_DEFAULT_METRIC) || prop_matches(
            self.metric,
            other.metric,
        )
        &&& self.table_id == Some(RouteEntry::USE_DEFAULT_ROUTE_TABLE) || prop_matches(
            self.table_id,
            other.table_id,
        )
        &&& prop_matches(self.route_type, other.route_type)
    }

    /// The defined properties as text.
    pub open spec fn props(self) -> Seq<Seq<char>> {
        text::prop(
            "state: "@,
            match self.state {
                Some(state) => Some(state.text()),
                None => None,
            },
        ) + text::prop("destination: "@, self.destination) + text::prop(
            "next-hop-interface: "@,
            self.next_hop_iface,
        ) + text::prop("next-hop-address: "@, self.next_hop_addr) + text::prop(
            "metric: "@,
            text::option_int(self.metric),
        ) + text::prop("table-id: "@, text::option_number(self.table_id, 10)) + text::prop(
            "vrf-name: "@,
            self.vrf_name,
        ) + text::prop(
            "route-type: "@,
            match self.route_type {
                Some(route_type) => Some(route_type.text()),
                None => None,
            },
        )
    }

    /// The route as text.
    pub open spec fn text(self) -> Seq<char> {
        text::joined(self.props(), " "@)
    }

    /// Whether the route may be applied: a present one goes somewhere, either
    /// to a next hop or by its type.
    pub open spec fn validated(self) -> Result<(), NipartErrorView> {
        if self.absent() {
            Ok(())
        } else if self.route_type is Some && (self.next_hop_addr is Some || (
        self.next_hop_iface is Some && self.next_hop_iface->0 != LOOPBACK_IFACE_NAME@)) {
            Err(
                error::invalid(
                    "Route with route-type cannot have a next hop: '"@ + self.text() + "'"@,
                ),
            )
        } else if self.route_type is None && self.next_hop_iface is None {
            Err(
                error::invalid(
                    "Route with empty next hop interface is not supported: '"@ + self.text()
                        + "'"@,
                ),
            )
        } else {
            Ok(())
        }
    }

    /// The route with its destination and next hop in canonical form.
    pub open spec fn sanitized(self) -> Result<RouteEntryView, NipartErrorView> {
        match sanitized_destination(self.destination) {
            Err(e) => Err(e),
            Ok(destination) => match sanitized_addr(self.next_hop_addr) {
                Err(e) => Err(e),
                Ok(next_hop_addr) => Ok(RouteEntryView { destination, next_hop_addr, ..self }),
            },
        }
    }
}

/// The destination in canonical form; an empty one is kept.
pub open spec fn sanitized_destination(s: Option<Seq<char>>) -> Result<
    Option<Seq<char>>,
    NipartErrorView,
> {
    match s {
        Some(s) if s.len() > 0 => match addr::sanitized_network(s) {
            Ok(network) => Ok(Some(network)),
            Err(e) => Err(e),
        },
        _ => Ok(s),
    }
}

/// The address in canonical form.
pub open spec fn sanitized_addr(s: Option<Seq<char>>) -> Result<
    Option<Seq<char>>,
    NipartErrorView,
> {
    match s {
        Some(s) => match addr::ip_addr(s) {
            Some(ip) => Ok(Some(addr::ip_text(ip))),
            None => Err(error::invalid("Invalid IP address "@ + s)),
        },
        None => Ok(None),
    }
}

/// Whether an absent route of `routes` matches `rt`.
pub open spec fn removed_by(routes: Seq<RouteEntryView>, rt: RouteEntryView) -> bool {
    exists|i: int|
        0 <= i < routes.len() && (#[trigger] routes[i]).absent() && routes[i].matches_route(rt)
}

/// The set `acc` with the present routes of `routes` from `i` on.
pub open spec fn present_from(
    routes: Seq<RouteEntryView>,
    i: int,
    acc: Seq<RouteEntryView>,
) -> Seq<RouteEntryView>
    decreases routes.len() - i,
{
    if i < 0 || i >= routes.len() {
        acc
    } else if routes[i].absent() {
        present_from(routes, i + 1, acc)
    } else {
        present_from(routes, i + 1, order::with_item::<RouteEntry>(acc, routes[i]))
    }
}

/// The route, to be deleted.
pub open spec fn as_absent(rt: RouteEntryView) -> RouteEntryView {
    RouteEntryView { state: Some(RouteState::Absent), ..rt }
}

/// The set `acc` with the old routes from `i` on, those to be deleted that an
/// absent new route matches.
pub open spec fn olds_from(
    olds: Seq<RouteEntryView>,
    news: Seq<RouteEntryView>,
    i: int,
    acc: Seq<RouteEntryView>,
) -> Seq<RouteEntryView>
    decreases olds.len() - i,
{
    if i < 0 || i >= olds.len() {
        acc
    } else {
        olds_from(
            olds,
            news,
            i + 1,
            order::with_item::<RouteEntry>(
                acc,
                if removed_by(news, olds[i]) {
                    as_absent(olds[i])
                } else {
                    olds[i]
                },
            ),
        )
    }
}

/// The routes of an optional list.
pub open spec fn list_of(routes: Option<Seq<RouteEntryView>>) -> Seq<RouteEntryView> {
    match routes {
        Some(routes) => routes,
        None => Seq::empty(),
    }
}

/// Whether a route of the list is what `rt` matches.
pub open spec fn has_match(routes: Seq<RouteEntryView>, rt: RouteEntryView) -> bool {
    exists|i: int| 0 <= i < routes.len() && rt.matches_route(#[trigger] routes[i])
}

/// `acc` with the routes from `i` on that match none of `olds`.
pub open spec fn unmatched_from(
    news: Seq<RouteEntryView>,
    olds: Seq<RouteEntryView>,
    i: int,
    acc: Seq<RouteEntryView>,
) -> Seq<RouteEntryView>
    decreases news.len() - i,
{
    if i < 0 || i >= news.len() {
        acc
    } else if has_match(olds, news[i]) {
        unmatched_from(news, olds, i + 1, acc)
    } else {
        unmatched_from(news, olds, i + 1, acc.push(news[i]))
    }
}

/// `acc` with the routes from `i` on that are not to be ignored.
pub open spec fn unignored_from(
    routes: Seq<RouteEntryView>,
    i: int,
    acc: Seq<RouteEntryView>,
) -> Seq<RouteEntryView>
    decreases routes.len() - i,
{
    if i < 0 || i >= routes.len() {
        acc
    } else if routes[i].state == Some(RouteState::Ignore) {
        unignored_from(routes, i + 1, acc)
    } else {
        unignored_from(routes, i + 1, acc.push(routes[i]))
    }
}

/// Whether the routes from `i` on may be applied.
pub open spec fn validated_from(routes: Seq<RouteEntryView>, i: int) -> Result<(), NipartErrorView>
    decreases routes.len() - i,
{
    if i < 0 || i >= routes.len() {
        Ok(())
    } else {
        match routes[i].validated() {
            Err(e) => Err(e),
            Ok(()) => validated_from(routes, i + 1),
        }
    }
}

/// The route in the table of its VRF.
pub open spec fn vrf_resolved(rt: RouteEntryView, ifaces: MergedInterfacesView) -> Result<
    RouteEntryView,
    NipartErrorView,
> {
    match rt.vrf_name {
        None => Ok(rt),
        Some(name) => match keymap::lookup(ifaces.kernel_ifaces, name) {
            Some(iface) if iface.merged.base.iface_type is Vrf && iface.merged.vrf_table_id
                is Some => Ok(RouteEntryView { table_id: iface.merged.vrf_table_id, ..rt }),
            _ => Err(
                error::invalid(
                    "Failed to find the route table of VRF "@ + name + " for route '"@ + rt.text()
                        + "'"@,
                ),
            ),
        },
    }
}

/// `acc` with the routes from `i` on in the tables of their VRFs.
pub open spec fn vrfs_resolved_from(
    routes: Seq<RouteEntryView>,
    ifaces: MergedInterfacesView,
    i: int,
    acc: Seq<RouteEntryView>,
) -> Result<Seq<RouteEntryView>, NipartErrorView>
    decreases routes.len() - i,
{
    if i < 0 || i >= routes.len() {
        Ok(acc)
    } else {
        match vrf_resolved(routes[i], ifaces) {
            Err(e) => Err(e),
            Ok(rt) => vrfs_resolved_from(routes, ifaces, i + 1, acc.push(rt)),
        }
    }
}

impl RoutesView {
    /// No routes.
    pub open spec fn undefined() -> RoutesView {
        RoutesView { running: None, config: None }
    }

    /// Whether the routes may be applied.
    pub open spec fn validated(self) -> Result<(), NipartErrorView> {
        validated_from(list_of(self.config), 0)
    }

    /// The routes without those to be ignored.
    pub open spec fn unignored(self) -> RoutesView {
        RoutesView {
            config: match self.config {
                Some(routes) => Some(unignored_from(routes, 0, Seq::empty())),
                None => None,
            },
            ..self
        }
    }

    /// The routes in the tables of their VRFs.
    pub open spec fn vrfs_resolved(self, ifaces: MergedInterfacesView) -> Result<
        RoutesView,
        NipartErrorView,
    > {
        match self.config {
            None => Ok(self),
            Some(routes) => match vrfs_resolved_from(routes, ifaces, 0, Seq::empty()) {
                Err(e) => Err(e),
                Ok(routes) => Ok(RoutesView { config: Some(routes), ..self }),
            },
        }
    }

    /// What [Routes::merge] returns.
    pub open spec fn merge_result(self, new: RoutesView) -> Result<RoutesView, NipartErrorView> {
        match new.validated() {
            Err(e) => Err(e),
            Ok(()) => match new.config {
                None => Ok(self),
                Some(news) => Ok(
                    RoutesView {
                        running: None,
                        config: Some(
                            order::sorted::<RouteEntry>(
                                olds_from(
                                    list_of(self.config),
                                    news,
                                    0,
                                    present_from(news, 0, Seq::empty()),
                                ),
                            ),
                        ),
                    },
                ),
            },
        }
    }

    /// The routes that match none of `old`.
    pub open spec fn diff_from(self, old_routes: RoutesView) -> RoutesView {
        RoutesView {
            running: None,
            config: Some(
                unmatched_from(
                    list_of(self.config),
                    list_of(old_routes.config),
                    0,
                    Seq::empty(),
                ),
            ),
        }
    }
}

impl Keyed for RouteEntry {
    open spec fn before(a: RouteEntryView, b: RouteEntryView) -> bool {
        a.key().before(b.key())
    }

    open spec fn same_key(a: RouteEntryView, b: RouteEntryView) -> bool {
        a.key() == b.key()
    }

    proof fn law_total(a: RouteEntryView, b: RouteEntryView) {
        let (x, y) = (a.key(), b.key());
        text::lemma_text_before_total(x.iface, y.iface, 0);
        text::lemma_text_before_total(x.destination, y.destination, 0);
        text::lemma_text_before_total(x.next_hop_addr, y.next_hop_addr, 0);
    }

    proof fn law_transitive(a: RouteEntryView, b: RouteEntryView, c: RouteEntryView) {
        let (x, y, z) = (a.key(), b.key(), c.key());
        if text::text_before(x.iface, y.iface) && text::text_before(y.iface, z.iface) {
            text::lemma_text_before_transitive(x.iface, y.iface, z.iface, 0);
        }
        if text::text_before(x.destination, y.destination) && text::text_before(
            y.destination,
            z.destination,
        ) {
            text::lemma_text_before_transitive(x.destination, y.destination, z.destination, 0);
        }
        if text::text_before(x.next_hop_addr, y.next_hop_addr) && text::text_before(
            y.next_hop_addr,
            z.next_hop_addr,
        ) {
            text::lemma_text_before_transitive(
                x.next_hop_addr,
                y.next_hop_addr,
                z.next_hop_addr,
                0,
            );
        }
        text::lemma_text_before_total(x.iface, y.iface, 0);
        text::lemma_text_before_total(x.iface, z.iface, 0);
        text::lemma_text_before_total(x.destination, y.destination, 0);
        text::lemma_text_before_total(x.destination, z.destination, 0);
        text::lemma_text_before_total(x.next_hop_addr, y.next_hop_addr, 0);
        text::lemma_text_before_total(x.next_hop_addr, z.next_hop_addr, 0);
    }

    proof fn law_same_key(a: RouteEntryView, b: RouteEntryView, c: RouteEntryView) {
    }

    fn is_before(&self, other: &Self) -> (res: bool) {
        if self.is_absent() != other.is_absent() {
            return self.is_absent();
        }
        if self.is_ipv6() != other.is_ipv6() {
            return self.is_ipv6();
        }
        if self.key_table_id() != other.key_table_id() {
            return self.key_table_id() < other.key_table_id();
        }
        let (a, b) = (self.key_iface(), other.key_iface());
        if !text_eq(a, b) {
            return is_text_before(a, b);
        }
        let (a, b) = (option_text(&self.destination), option_text(&other.destination));
        if !text_eq(a, b) {
            return is_text_before(a, b);
        }
        let (a, b) = (option_text(&self.next_hop_addr), option_text(&other.next_hop_addr));
        if !text_eq(a, b) {
            return is_text_before(a, b);
        }
        if self.key_metric() != other.key_metric() {
            return self.key_metric() < other.key_metric();
        }
        self.key_type() < other.key_type()
    }

    fn has_same_key(&self, other: &Self) -> (res: bool) {
        self.is_absent() == other.is_absent() && self.is_ipv6() == other.is_ipv6()
            && self.key_table_id() == other.key_table_id() && text_eq(
            self.key_iface(),
            other.key_iface(),
        ) && text_eq(option_text(&self.destination), option_text(&other.destination)) && text_eq(
            option_text(&self.next_hop_addr),
            option_text(&other.next_hop_addr),
        ) && self.key_metric() == other.key_metric() && self.key_type() == other.key_type()
    }
}

impl PartialEq for RouteEntry {
    fn eq(&self, other: &Self) -> (res: bool) {
        self.has_same_key(other)
    }
}

impl vstd::std_specs::cmp::PartialEqSpecImpl for RouteEntry {
    open spec fn obeys_eq_spec() -> bool {
        true
    }

    open spec fn eq_spec(&self, other: &Self) -> bool {
        self@.key() == other@.key()
    }
}

impl Eq for RouteEntry {

}

impl Default for RouteEntry {
    fn default() -> (res: Self)
        ensures
            res@ == RouteEntryView::undefined(),
    {
        RouteEntry {
            state: None,
            destination: None,
            next_hop_iface: None,
            next_hop_addr: None,
            metric: None,
            table_id: None,
            vrf_name: None,
            route_type: None,
            onlink: None,
        }
    }
}

impl RouteEntry {
    /// Let the network backend choose the default metric.
    pub const USE_DEFAULT_METRIC: i64 = -1;

    /// Use the main route table.
    pub const USE_DEFAULT_ROUTE_TABLE: u32 = 0;

    pub fn is_absent(&self) -> (res: bool)
        ensures
            res == self@.absent(),
    {
        matches!(self.state, Some(RouteState::Absent))
    }

    /// Whether the route is persisted but not applied.
    pub fn is_saved(&self) -> (res: bool)
        ensures
            res == (self@.state == Some(RouteState::Saved)),
    {
        matches!(self.state, Some(RouteState::Saved))
    }

    /// Whether the route is left alone.
    pub fn is_ignore(&self) -> (res: bool)
        ensures
            res == (self@.state == Some(RouteState::Ignore)),
    {
        matches!(self.state, Some(RouteState::Ignore))
    }

    /// Whether the destination is an IPv6 network.
    pub fn is_ipv6(&self) -> (res: bool)
        ensures
            res == self@.ipv6(),
    {
        match &self.destination {
            Some(destination) => is_ipv6_addr(destination.as_str()),
            None => false,
        }
    }

    fn key_table_id(&self) -> (res: u32)
        ensures
            res == self@.key().table_id,
    {
        self.table_id.unwrap_or(ROUTE_MAIN_TABLE_ID)
    }

    fn key_iface(&self) -> (res: &str)
        ensures
            res@ == self@.key().iface,
    {
        match &self.next_hop_iface {
            Some(iface) => iface.as_str(),
            None => LOOPBACK_IFACE_NAME,
        }
    }

    fn key_metric(&self) -> (res: i64)
        ensures
            res == self@.key().metric,
    {
        self.metric.unwrap_or(Self::USE_DEFAULT_METRIC)
    }

    fn key_type(&self) -> (res: u8)
        ensures
            res == self@.key().route_type,
    {
        match self.route_type {
            None => 0,
            Some(RouteType::Blackhole) => 1,
            Some(RouteType::Unreachable) => 2,
            Some(RouteType::Prohibit) => 3,
        }
    }

    /// Whether the other route has every property that this one defines.
    pub fn is_match(&self, other: &Self) -> (res: bool)
        ensures
            res == self@.matches_route(other@),
    {
        if let Some(destination) = &self.destination {
            if !destination.as_str().is_empty() && !self.destination.same(&other.destination) {
                return false;
            }
            assert(destination@.len() == 0 ==> destination@ =~= Seq::<char>::empty());
        }
        if self.next_hop_iface.is_some() && !self.next_hop_iface.same(&other.next_hop_iface) {
            return false;
        }
        if self.next_hop_addr.is_some() && !self.next_hop_addr.same(&other.next_hop_addr) {
            return false;
        }
        if let Some(metric) = self.metric {
            if metric != Self::USE_DEFAULT_METRIC && !self.metric.same(&other.metric) {
                return false;
            }
        }
        if let Some(table_id) = self.table_id {
            if table_id != Self::USE_DEFAULT_ROUTE_TABLE && !self.table_id.same(&other.table_id) {
                return false;
            }
        }
        self.route_type.is_none() || self.route_type.same(&other.route_type)
    }

    /// The route as text.
    pub fn to_text(&self) -> (res: String)
        ensures
            res@ == self@.text(),
    {
        let mut props: Vec<String> = empty_list();
        let state: Option<&str> = match &self.state {
            Some(state) => Some(state.as_str()),
            None => None,
        };
        push_prop(&mut props, "state: ", &state);
        push_text_prop(&mut props, "destination: ", &self.destination);
        push_text_prop(&mut props, "next-hop-interface: ", &self.next_hop_iface);
        push_text_prop(&mut props, "next-hop-address: ", &self.next_hop_addr);
        push_text_prop(&mut props, "metric: ", &option_signed_decimal(self.metric));
        push_text_prop(&mut props, "table-id: ", &option_decimal(self.table_id));
        push_text_prop(&mut props, "vrf-name: ", &self.vrf_name);
        let route_type: Option<&str> = match &self.route_type {
            Some(route_type) => Some(route_type.as_str()),
            None => None,
        };
        push_prop(&mut props, "route-type: ", &route_type);
        assert(props.deep_view() =~= self@.props());
        join(&props, " ")
    }

    /// Whether the route may be applied.
    pub fn validate(&self) -> (res: Result<(), NipartError>)
        ensures
            error::same_result(res, self@.validated()),
    {
        if self.is_absent() {
            return Ok(());
        }
        let has_hop = self.next_hop_addr.is_some() || match &self.next_hop_iface {
            Some(iface) => !text_eq(iface.as_str(), LOOPBACK_IFACE_NAME),
            None => false,
        };
        if self.route_type.is_some() && has_hop {
            return Err(
                NipartError::new(
                    ErrorKind::InvalidArgument,
                    String::from_str("Route with route-type cannot have a next hop: '").concat(
                        self.to_text().as_str(),
                    ).concat("'"),
                ),
            );
        }
        if self.route_type.is_none() && self.next_hop_iface.is_none() {
            return Err(
                NipartError::new(
                    ErrorKind::InvalidArgument,
                    String::from_str(
                        "Route with empty next hop interface is not supported: '",
                    ).concat(self.to_text().as_str()).concat("'"),
                ),
            );
        }
        Ok(())
    }

    /// Puts the destination and the next hop into canonical form.
    pub fn sanitize(&mut self) -> (res: Result<(), NipartError>)
        ensures
            match old(self)@.sanitized() {
                Ok(rt) => res is Ok && final(self)@ == rt,
                Err(e) => res is Err && res->Err_0@ == e,
            },
    {
        if let Some(destination) = &self.destination {
            if !destination.as_str().is_empty() {
                match sanitize_ip_network(destination.as_str()) {
                    Ok(network) => {
                        self.destination = Some(network);
                    },
                    Err(e) => {
                        return Err(e);
                    },
                }
            }
        }
        if let Some(next_hop_addr) = &self.next_hop_addr {
            match parse_ip_addr(next_hop_addr.as_str()) {
                Some(ip) => {
                    self.next_hop_addr = Some(ip.to_text());
                },
                None => {
                    return Err(
                        NipartError::new(
                            ErrorKind::InvalidArgument,
                            String::from_str("Invalid IP address ").concat(next_hop_addr.as_str()),
                        ),
                    );
                },
            }
        }
        Ok(())
    }
}

/// Whether an absent route of `routes` matches `rt`.
pub fn is_route_removed_by(routes: &Vec<RouteEntry>, rt: &RouteEntry) -> (res: bool)
    ensures
        res == removed_by(routes.deep_view(), rt@),
{
    let ghost views = routes.deep_view();
    let mut i: usize = 0;
    while i < routes.len()
        invariant
            i <= routes.len(),
            views == routes.deep_view(),
            forall|j: int|
                0 <= j < i ==> !((#[trigger] views[j]).absent() && views[j].matches_route(rt@)),
        decreases routes.len() - i,
    {
        assert(views[i as int] == routes[i as int]@);
        if routes[i].is_absent() && routes[i].is_match(rt) {
            return true;
        }
        i = i + 1;
    }
    false
}

/// Whether a route of the list is what `rt` matches.
pub fn contains_match(routes: &Vec<RouteEntry>, rt: &RouteEntry) -> (res: bool)
    ensures
        res == has_match(routes.deep_view(), rt@),
{
    let ghost views = routes.deep_view();
    let mut i: usize = 0;
    while i < routes.len()
        invariant
            i <= routes.len(),
            views == routes.deep_view(),
            forall|j: int| 0 <= j < i ==> !rt@.matches_route(#[trigger] views[j]),
        decreases routes.len() - i,
    {
        assert(views[i as int] == routes[i as int]@);
        if rt.is_match(&routes[i]) {
            return true;
        }
        i = i + 1;
    }
    false
}

/// The routes of an optional list.
pub fn to_route_list(routes: &Option<Vec<RouteEntry>>) -> (res: Vec<RouteEntry>)
    ensures
        res.deep_view() == list_of(routes.deep_view()),
{
    match routes {
        Some(routes) => routes.dup(),
        None => empty_list(),
    }
}

/// The present routes, each once.
pub fn list_present(routes: &Vec<RouteEntry>) -> (res: Vec<RouteEntry>)
    ensures
        res.deep_view() == present_from(routes.deep_view(), 0, Seq::empty()),
{
    let ghost views = routes.deep_view();
    let mut set: Vec<RouteEntry> = empty_list();
    let mut i: usize = 0;
    while i < routes.len()
        invariant
            i <= routes.len(),
            views == routes.deep_view(),
            present_from(views, 0, Seq::empty()) == present_from(views, i as int, set.deep_view()),
        decreases routes.len() - i,
    {
        assert(views[i as int] == routes[i as int]@);
        if !routes[i].is_absent() {
            insert_item(&mut set, routes[i].dup());
        }
        i = i + 1;
    }
    set
}

/// The route in the table of its VRF.
fn resolve_route_vrf(rt: &RouteEntry, merged_ifaces: &MergedInterfaces) -> (res: Result<
    RouteEntry,
    NipartError,
>)
    ensures
        error::same_result(res, vrf_resolved(rt@, merged_ifaces@)),
{
    let name = match &rt.vrf_name {
        Some(name) => name,
        None => {
            return Ok(rt.dup());
        },
    };
    if let Some(iface) = merged_ifaces.kernel_ifaces.get(name) {
        if iface.iface_type() == InterfaceType::Vrf && iface.merged.vrf_table_id.is_some() {
            let mut res = rt.dup();
            res.table_id = iface.merged.vrf_table_id;
            return Ok(res);
        }
    }
    Err(
        NipartError::new(
            ErrorKind::InvalidArgument,
            String::from_str("Failed to find the route table of VRF ").concat(
                name.as_str(),
            ).concat(" for route '").concat(rt.to_text().as_str()).concat("'"),
        ),
    )
}

impl Default for Routes {
    fn default() -> (res: Self)
        ensures
            res@ == RoutesView::undefined(),
    {
        Routes { running: None, config: None }
    }
}

impl Routes {
    pub fn new() -> (res: Self)
        ensures
            res@ == RoutesView::undefined(),
    {
        Self::default()
    }

    /// Whether no routes are defined.
    pub fn is_empty(&self) -> (res: bool)
        ensures
            res == (self@.running is None && self@.config is None),
    {
        self.running.is_none() && self.config.is_none()
    }

    /// Whether the routes may be applied.
    pub fn validate(&self) -> (res: Result<(), NipartError>)
        ensures
            error::same_result(res, self@.validated()),
    {
        let routes = match &self.config {
            Some(routes) => routes,
            None => {
                return Ok(());
            },
        };
        let ghost views = routes.deep_view();
        let mut i: usize = 0;
        while i < routes.len()
            invariant
                i <= routes.len(),
                views == routes.deep_view(),
                self@.validated() == validated_from(views, i as int),
            decreases routes.len() - i,
        {
            assert(views[i as int] == routes[i as int]@);
            if let Err(e) = routes[i].validate() {
                return Err(e);
            }
            i = i + 1;
        }
        Ok(())
    }

    /// Drops the routes to be ignored.
    pub fn remove_ignored_routes(&mut self)
        ensures
            final(self)@ == old(self)@.unignored(),
    {
        let routes = match &self.config {
            Some(routes) => routes,
            None => {
                return ;
            },
        };
        let ghost views = routes.deep_view();
        let mut kept: Vec<RouteEntry> = empty_list();
        let mut i: usize = 0;
        while i < routes.len()
            invariant
                i <= routes.len(),
                views == routes.deep_view(),
                unignored_from(views, 0, Seq::empty()) == unignored_from(
                    views,
                    i as int,
                    kept.deep_view(),
                ),
            decreases routes.len() - i,
        {
            assert(views[i as int] == routes[i as int]@);
            if !routes[i].is_ignore() {
                push(&mut kept, routes[i].dup());
            }
            i = i + 1;
        }
        self.config = Some(kept);
    }

    /// Puts the routes into the tables of their VRFs.
    pub fn resolve_vrf_name(&mut self, merged_ifaces: &MergedInterfaces) -> (res: Result<
        (),
        NipartError,
    >)
        ensures
            match old(self)@.vrfs_resolved(merged_ifaces@) {
                Ok(routes) => res is Ok && final(self)@ == routes,
                Err(e) => res is Err && res->Err_0@ == e,
            },
    {
        let routes = match &self.config {
            Some(routes) => routes,
            None => {
                return Ok(());
            },
        };
        let ghost views = routes.deep_view();
        let mut resolved: Vec<RouteEntry> = empty_list();
        let mut i: usize = 0;
        while i < routes.len()
            invariant
                i <= routes.len(),
                views == routes.deep_view(),
                vrfs_resolved_from(views, merged_ifaces@, 0, Seq::empty()) == vrfs_resolved_from(
                    views,
                    merged_ifaces@,
                    i as int,
                    resolved.deep_view(),
                ),
                old(self)@.config == Some(views),
            decreases routes.len() - i,
        {
            assert(views[i as int] == routes[i as int]@);
            match resolve_route_vrf(&routes[i], merged_ifaces) {
                Ok(rt) => push(&mut resolved, rt),
                Err(e) => {
                    return Err(e);
                },
            }
            i = i + 1;
        }
        self.config = Some(resolved);
        Ok(())
    }

    /// These routes with new ones: present routes are added, and old ones that
    /// an absent route matches are marked as absent.
    pub fn merge(&self, new_routes: &Self) -> (res: Result<Self, NipartError>)
        ensures
            error::same_result(res, self@.merge_result(new_routes@)),
    {
        if let Err(e) = new_routes.validate() {
            return Err(e);
        }
        let news = match &new_routes.config {
            Some(news) => news,
            None => {
                return Ok(self.dup());
            },
        };
        let ghost new_views = news.deep_view();
        let mut set = list_present(news);
        let ghost present = set.deep_view();
        let olds = to_route_list(&self.config);
        let ghost old_views = olds.deep_view();
        let mut i: usize = 0;
        while i < olds.len()
            invariant
                i <= olds.len(),
                new_views == news.deep_view(),
                old_views == olds.deep_view(),
                olds_from(old_views, new_views, 0, present) == olds_from(
                    old_views,
                    new_views,
                    i as int,
                    set.deep_view(),
                ),
            decreases olds.len() - i,
        {
            assert(old_views[i as int] == olds[i as int]@);
            let mut rt = olds[i].dup();
            if is_route_removed_by(news, &olds[i]) {
                rt.state = Some(RouteState::Absent);
            }
            insert_item(&mut set, rt);
            i = i + 1;
        }
        Ok(Routes { running: None, config: Some(sort(&set)) })
    }

    /// The routes that match none of `old`.
    pub fn gen_diff(&self, old_routes: &Self) -> (res: Self)
        ensures
            res@ == self@.diff_from(old_routes@),
    {
        let news = to_route_list(&self.config);
        let olds = to_route_list(&old_routes.config);
        let ghost new_views = news.deep_view();
        let mut diff: Vec<RouteEntry> = empty_list();
        let mut i: usize = 0;
        while i < news.len()
            invariant
                i <= news.len(),
                new_views == news.deep_view(),
                unmatched_from(new_views, olds.deep_view(), 0, Seq::empty()) == unmatched_from(
                    new_views,
                    olds.deep_view(),
                    i as int,
                    diff.deep_view(),
                ),
            decreases news.len() - i,
        {
            assert(new_views[i as int] == news[i as int]@);
            if !contains_match(&olds, &news[i]) {
                push(&mut diff, news[i].dup());
            }
            i = i + 1;
        }
        Routes { running: None, config: Some(diff) }
    }
}

/// A route matches itself, and one that defines nothing matches every route.
pub proof fn law_match(rt: RouteEntryView)
    ensures
        rt.matches_route(rt),
        RouteEntryView::undefined().matches_route(rt),
{
}

/// The set of present routes holds every present route of the list, and no
/// absent one.
pub proof fn law_present(
    routes: Seq<RouteEntryView>,
    i: int,
    acc: Seq<RouteEntryView>,
    rt: RouteEntryView,
)
    requires
        0 <= i <= routes.len(),
        order::distinct::<RouteEntry>(acc),
    ensures
        order::distinct::<RouteEntry>(present_from(routes, i, acc)),
        order::has_key::<RouteEntry>(acc, rt) ==> order::has_key::<RouteEntry>(
            present_from(routes, i, acc),
            rt,
        ),
        forall|j: int|
            i <= j < routes.len() && !(#[trigger] routes[j]).absent() ==> order::has_key::<
                RouteEntry,
            >(present_from(routes, i, acc), routes[j]),
        present_from(routes, i, acc).contains(rt) ==> acc.contains(rt) || (!rt.absent()
            && routes.contains(rt)),
    decreases routes.len() - i,
{
    if i < routes.len() {
        if routes[i].absent() {
            law_present(routes, i + 1, acc, rt);
        } else {
            let next = order::with_item::<RouteEntry>(acc, routes[i]);
            order::law_with_item::<RouteEntry>(acc, routes[i]);
            order::law_with_item_keeps::<RouteEntry>(acc, routes[i], rt);
            law_present(routes, i + 1, next, routes[i]);
            law_present(routes, i + 1, next, rt);
        }
    }
}

/// Routes that are all found again differ in nothing.
proof fn lemma_no_difference(
    news: Seq<RouteEntryView>,
    i: int,
    acc: Seq<RouteEntryView>,
)
    requires
        0 <= i,
    ensures
        unmatched_from(news, news, i, acc) == acc,
    decreases news.len() - i,
{
    if i < news.len() {
        law_match(news[i]);
        assert(has_match(news, news[i])) by {
            assert(news[i].matches_route(news[i]));
        }
        lemma_no_difference(news, i + 1, acc);
    }
}

/// Routes do not differ from themselves: the difference is empty.
pub proof fn law_no_difference(routes: RoutesView)
    ensures
        list_of(routes.diff_from(routes).config).len() == 0,
{
    lemma_no_difference(list_of(routes.config), 0, Seq::empty());
}

/// Sanitizing a route twice is the same as once.
pub proof fn law_sanitized(rt: RouteEntryView)
    ensures
        rt.sanitized() is Ok ==> rt.sanitized()->Ok_0.sanitized() == rt.sanitized(),
{
    if rt.sanitized() is Ok {
        if let Some(destination) = rt.destination {
            if destination.len() > 0 {
                addr_laws::law_canonical_network(destination);
            }
        }
        if let Some(next_hop_addr) = rt.next_hop_addr {
            addr_laws::law_ip_round_trip(addr::ip_addr(next_hop_addr)->0);
        }
    }
}

/// A route matches another one exactly when no property that it defines differs
/// there; an empty destination, a default metric and a default table fit any.
pub proof fn law_match_exact(rt: RouteEntryView, other: RouteEntryView)
    ensures
        rt.matches_route(other) <==> {
            &&& rt.destination is Some && rt.destination->0.len() > 0 ==> other.destination
                == rt.destination
            &&& rt.next_hop_iface is Some ==> other.next_hop_iface == rt.next_hop_iface
            &&& rt.next_hop_addr is Some ==> other.next_hop_addr == rt.next_hop_addr
            &&& rt.metric is Some && rt.metric->0 != RouteEntry::USE_DEFAULT_METRIC
                ==> other.metric == rt.metric
            &&& rt.table_id is Some && rt.table_id->0 != RouteEntry::USE_DEFAULT_ROUTE_TABLE
                ==> other.table_id == rt.table_id
            &&& rt.route_type is Some ==> other.route_type == rt.route_type
        },
{
    if let Some(destination) = rt.destination {
        assert(destination.len() == 0 <==> destination =~= Seq::<char>::empty());
    }
}

} // verus!
