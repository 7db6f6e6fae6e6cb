//! Routes: desired, current and saved, merged.

use vstd::prelude::*;
use vstd::string::*;

use crate::error::{ErrorKind, NipartError, NipartErrorView};
use crate::keymap::KeyMap;
use crate::merged_iface::{MergedInterface, MergedInterfaceView};
use crate::merged_ifaces::{MergedInterfaces, MergedInterfacesView};
use crate::order::{insert_item, remove_runs, sort};
use crate::route::{
    LOOPBACK_IFACE_NAME, RouteEntry, RouteEntryView, RouteState, Routes, RoutesView,
    contains_match, is_route_removed_by, list_present, to_route_list,
};
use crate::value::{Value, contains, empty_list, push};
use crate::{error, keymap, order, route};

verus! {

/// The names in the kernel of the interfaces that matter for routes.
#[derive(Clone, Debug, PartialEq, Eq)]
pub struct IfaceLists {
    /// Interfaces to delete.
    pub absent: Vec<String>,
    pub ipv4_disabled: Vec<String>,
    pub ipv6_disabled: Vec<String>,
    pub dhcpv4_enabled: Vec<String>,
    /// Interfaces that are deleted and created again.
    pub will_delete: Vec<String>,
    /// Profiles requested with `state: saved`: their routes are persisted
    /// but never applied.
    pub saved_only: Vec<String>,
    /// Interfaces of the desired state. Only these may have their current
    /// routes removed due to IPv4/IPv6 being disabled: a partial apply must not
    /// infer route removal from the transient IP-disabled state of untouched
    /// interfaces.
    pub desired_ifaces: Vec<String>,
}

/// What a [IfaceLists] stands for.
#[verifier::ext_equal]
pub struct IfaceListsView {
    pub absent: Seq<Seq<char>>,
    pub ipv4_disabled: Seq<Seq<char>>,
    pub ipv6_disabled: Seq<Seq<char>>,
    pub dhcpv4_enabled: Seq<Seq<char>>,
    pub will_delete: Seq<Seq<char>>,
    pub saved_only: Seq<Seq<char>>,
    pub desired_ifaces: Seq<Seq<char>>,
}

impl View for IfaceLists {
    type V = IfaceListsView;

    open spec fn view(&self) -> IfaceListsView {
        IfaceListsView {
            absent: self.absent.deep_view(),
            ipv4_disabled: self.ipv4_disabled.deep_view(),
            ipv6_disabled: self.ipv6_disabled.deep_view(),
            dhcpv4_enabled: self.dhcpv4_enabled.deep_view(),
            will_delete: self.will_delete.deep_view(),
            saved_only: self.saved_only.deep_view(),
            desired_ifaces: self.desired_ifaces.deep_view(),
        }
    }
}

impl DeepView for IfaceLists {
    type V = IfaceListsView;

    open spec fn deep_view(&self) -> IfaceListsView {
        self@
    }
}

impl Value for IfaceLists {
    fn dup(&self) -> (res: Self) {
        IfaceLists {
            absent: self.absent.dup(),
            ipv4_disabled: self.ipv4_disabled.dup(),
            ipv6_disabled: self.ipv6_disabled.dup(),
            dhcpv4_enabled: self.dhcpv4_enabled.dup(),
            will_delete: self.will_delete.dup(),
            saved_only: self.saved_only.dup(),
            desired_ifaces: self.desired_ifaces.dup(),
        }
    }

    fn same(&self, other: &Self) -> (res: bool) {
        self.absent.same(&other.absent) && self.ipv4_disabled.same(&other.ipv4_disabled) && self.ipv6_disabled.same(&other.ipv6_disabled) && self.dhcpv4_enabled.same(&other.dhcpv4_enabled) && self.will_delete.same(&other.will_delete) && self.saved_only.same(&other.saved_only) && self.desired_ifaces.same(&other.desired_ifaces)
    }
}

/// Routes on their way to being merged.
#[derive(Clone, Debug, PartialEq, Eq)]
pub struct RouteSets {
    /// The routes after the apply.
    pub merged: Vec<RouteEntry>,
    /// The routes that the apply adds or removes, each once.
    pub changed: Vec<RouteEntry>,
    /// The interfaces whose routes change, each once.
    pub ifaces: Vec<String>,
}

/// What a [RouteSets] stands for.
#[verifier::ext_equal]
pub struct RouteSetsView {
    pub merged: Seq<RouteEntryView>,
    pub changed: Seq<RouteEntryView>,
    pub ifaces: Seq<Seq<char>>,
}

impl View for RouteSets {
    type V = RouteSetsView;

    open spec fn view(&self) -> RouteSetsView {
        RouteSetsView {
            merged: self.merged.deep_view(),
            changed: self.changed.deep_view(),
            ifaces: self.ifaces.deep_view(),
        }
    }
}

impl DeepView for RouteSets {
    type V = RouteSetsView;

    open spec fn deep_view(&self) -> RouteSetsView {
        self@
    }
}

impl Value for RouteSets {
    fn dup(&self) -> (res: Self) {
        RouteSets {
            merged: self.merged.dup(),
            changed: self.changed.dup(),
            ifaces: self.ifaces.dup(),
        }
    }

    fn same(&self, other: &Self) -> (res: bool) {
        self.merged.same(&other.merged) && self.changed.same(&other.changed) && self.ifaces.same(&other.ifaces)
    }
}

/// What an apply does with routes.
#[derive(Clone, Debug, PartialEq, Eq)]
pub struct MergedRoutes {
    /// The routes after the apply by the interface of their next hop. One
    /// whose routes are all removed has no entry but stands in
    /// `route_changed_ifaces`. New routes without a next hop interface stand
    /// under the loopback interface; current ones are not listed.
    pub merged: KeyMap<String, Vec<RouteEntry>>,
    pub route_changed_ifaces: Vec<String>,
    /// The desired new routes, and the current ones that are marked as absent.
    /// A desired route that is there already is not among them.
    pub changed_routes: Vec<RouteEntry>,
    pub desired: Routes,
    pub current: Routes,
    pub saved: Option<Routes>,
    /// The routes to persist: the desired ones, and those saved before that
    /// survive the apply.
    pub for_save: Routes,
}

/// What a [MergedRoutes] stands for.
#[verifier::ext_equal]
pub struct MergedRoutesView {
    pub merged: Seq<(Seq<char>, Seq<RouteEntryView>)>,
    pub route_changed_ifaces: Seq<Seq<char>>,
    pub changed_routes: Seq<RouteEntryView>,
    pub desired: RoutesView,
    pub current: RoutesView,
    pub saved: Option<RoutesView>,
    pub for_save: RoutesView,
}

impl View for MergedRoutes {
    type V = MergedRoutesView;

    open spec fn view(&self) -> MergedRoutesView {
        MergedRoutesView {
            merged: self.merged.deep_view(),
            route_changed_ifaces: self.route_changed_ifaces.deep_view(),
            changed_routes: self.changed_routes.deep_view(),
            desired: self.desired.deep_view(),
            current: self.current.deep_view(),
            saved: self.saved.deep_view(),
            for_save: self.for_save.deep_view(),
        }
    }
}

impl DeepView for MergedRoutes {
    type V = MergedRoutesView;

    open spec fn deep_view(&self) -> MergedRoutesView {
        self@
    }
}

impl Value for MergedRoutes {
    fn dup(&self) -> (res: Self) {
        MergedRoutes {
            merged: self.merged.dup(),
            route_changed_ifaces: self.route_changed_ifaces.dup(),
            changed_routes: self.changed_routes.dup(),
            desired: self.desired.dup(),
            current: self.current.dup(),
            saved: self.saved.dup(),
            for_save: self.for_save.dup(),
        }
    }

    fn same(&self, other: &Self) -> (res: bool) {
        self.merged.same(&other.merged) && self.route_changed_ifaces.same(&other.route_changed_ifaces) && self.changed_routes.same(&other.changed_routes) && self.desired.same(&other.desired) && self.current.same(&other.current) && self.saved.same(&other.saved) && self.for_save.same(&other.for_save)
    }
}

/// What matters of an interface for routes.
#[derive(Clone, Copy)]
pub enum IfaceFlag {
    Absent,
    Ipv4Disabled,
    Ipv6Disabled,
    Dhcpv4Enabled,
    WillDelete,
    Desired,
    Ignored,
}

/// Whether the flag holds of the interface.
pub open spec fn has_flag(iface: MergedInterfaceView, flag: IfaceFlag) -> bool {
    match flag {
        IfaceFlag::Absent => iface.merged.base.state is Absent,
        IfaceFlag::Ipv4Disabled => !iface.merged.base.ipv4_on(),
        IfaceFlag::Ipv6Disabled => !iface.merged.base.ipv6_on(),
        IfaceFlag::Dhcpv4Enabled => iface.merged.base.ipv4 is Some
            && iface.merged.base.ipv4->0.dhcp == Some(true),
        IfaceFlag::WillDelete => iface.will_delete,
        IfaceFlag::Desired => iface.desired is Some,
        IfaceFlag::Ignored => iface.merged.base.state is Ignore,
    }
}

/// `acc` with the names in the kernel of the interfaces from `i` on that the
/// flag holds of.
pub open spec fn flagged_from(
    ifaces: Seq<(Seq<char>, MergedInterfaceView)>,
    flag: IfaceFlag,
    i: int,
    acc: Seq<Seq<char>>,
) -> Seq<Seq<char>>
    decreases ifaces.len() - i,
{
    if i < 0 || i >= ifaces.len() {
        acc
    } else if has_flag(ifaces[i].1, flag) {
        flagged_from(ifaces, flag, i + 1, acc.push(ifaces[i].1.merged.base.kernel_iface_name))
    } else {
        flagged_from(ifaces, flag, i + 1, acc)
    }
}

/// The names in the kernel of the interfaces that the flag holds of.
pub open spec fn flagged(ifaces: MergedInterfacesView, flag: IfaceFlag) -> Seq<Seq<char>> {
    flagged_from(ifaces.kernel_ifaces, flag, 0, Seq::empty())
}

/// `acc` with the names of the interfaces from `i` on that are only saved.
pub open spec fn saved_only_from(
    ifaces: Seq<(Seq<char>, MergedInterfaceView)>,
    i: int,
    acc: Seq<Seq<char>>,
) -> Seq<Seq<char>>
    decreases ifaces.len() - i,
{
    if i < 0 || i >= ifaces.len() {
        acc
    } else if ifaces[i].1.merged.base.state is Saved {
        saved_only_from(
            ifaces,
            i + 1,
            acc.push(ifaces[i].1.merged.base.kernel_iface_name).push(
                ifaces[i].1.merged.base.name,
            ),
        )
    } else {
        saved_only_from(ifaces, i + 1, acc)
    }
}

impl IfaceListsView {
    /// The lists for the merged interfaces.
    pub open spec fn of(ifaces: MergedInterfacesView) -> IfaceListsView {
        IfaceListsView {
            absent: flagged(ifaces, IfaceFlag::Absent),
            ipv4_disabled: flagged(ifaces, IfaceFlag::Ipv4Disabled),
            ipv6_disabled: flagged(ifaces, IfaceFlag::Ipv6Disabled),
            dhcpv4_enabled: flagged(ifaces, IfaceFlag::Dhcpv4Enabled),
            will_delete: flagged(ifaces, IfaceFlag::WillDelete),
            saved_only: saved_only_from(ifaces.kernel_ifaces, 0, Seq::empty()),
            desired_ifaces: flagged(ifaces, IfaceFlag::Desired),
        }
    }

    /// Whether the IP stack that the route needs is off on the interface.
    pub open spec fn ip_off(self, rt: RouteEntryView, via: Seq<char>) -> bool {
        if rt.ipv6() {
            self.ipv6_disabled.contains(via)
        } else {
            self.ipv4_disabled.contains(via)
        }
    }
}

/// Whether the next hop of the route is one of the interfaces.
pub open spec fn goes_via(rt: RouteEntryView, names: Seq<Seq<char>>) -> bool {
    rt.next_hop_iface is Some && names.contains(rt.next_hop_iface->0)
}

/// The route, with the flag that lets the kernel take a gateway before the
/// DHCPv4 lease of the interface is there.
pub open spec fn with_onlink(rt: RouteEntryView, lists: IfaceListsView) -> RouteEntryView {
    if rt.onlink is None && !rt.absent() && !rt.ipv6() && rt.next_hop_addr is Some && goes_via(
        rt,
        lists.dhcpv4_enabled,
    ) {
        RouteEntryView { onlink: Some(true), ..rt }
    } else {
        rt
    }
}

/// The desired route as it is applied, if it is: one that is only saved is
/// not, nor one through a WIFI configuration that is not connected.
pub open spec fn desired_resolved(
    desired: RouteEntryView,
    ifaces: MergedInterfacesView,
    lists: IfaceListsView,
) -> Result<Option<RouteEntryView>, NipartErrorView> {
    match desired.sanitized() {
        Err(e) => Err(e),
        Ok(rt) => if rt.state == Some(RouteState::Saved) || goes_via(rt, lists.saved_only) {
            Ok(None)
        } else {
            match rt.next_hop_iface {
                None => Ok(Some(with_onlink(rt, lists))),
                Some(name) => match ifaces.next_hop(name) {
                    Some(kernel_name) => Ok(
                        Some(
                            with_onlink(
                                RouteEntryView { next_hop_iface: Some(kernel_name), ..rt },
                                lists,
                            ),
                        ),
                    ),
                    None => if ifaces.pending_wifi(name) {
                        Ok(None)
                    } else {
                        Err(
                            error::invalid(
                                "Failed to find kernel interface name for route "@ + rt.text(),
                            ),
                        )
                    },
                },
            }
        },
    }
}

/// `acc` with the desired routes from `i` on as they are applied.
pub open spec fn desired_resolved_from(
    desired: Seq<RouteEntryView>,
    ifaces: MergedInterfacesView,
    lists: IfaceListsView,
    i: int,
    acc: Seq<RouteEntryView>,
) -> Result<Seq<RouteEntryView>, NipartErrorView>
    decreases desired.len() - i,
{
    if i < 0 || i >= desired.len() {
        Ok(acc)
    } else {
        match desired_resolved(desired[i], ifaces, lists) {
            Err(e) => Err(e),
            Ok(Some(rt)) => desired_resolved_from(desired, ifaces, lists, i + 1, acc.push(rt)),
            Ok(None) => desired_resolved_from(desired, ifaces, lists, i + 1, acc),
        }
    }
}

/// `names` with one more, unless it is among them.
pub open spec fn with_iface(names: Seq<Seq<char>>, name: Seq<char>) -> Seq<Seq<char>> {
    if names.contains(name) {
        names
    } else {
        names.push(name)
    }
}

/// The error of a route whose next hop cannot be used.
pub open spec fn bad_hop(rt: RouteEntryView, reason: Seq<char>) -> NipartErrorView {
    error::invalid(
        "The next hop interface of desired Route '"@ + rt.text() + "' has been marked as "@
            + reason,
    )
}

/// The interfaces whose routes change with those that a present route changes,
/// or the reason why it cannot be applied.
pub open spec fn hop_checked(
    rt: RouteEntryView,
    lists: IfaceListsView,
    names: Seq<Seq<char>>,
) -> Result<Seq<Seq<char>>, NipartErrorView> {
    if rt.absent() {
        Ok(names)
    } else {
        match rt.next_hop_iface {
            Some(via) => if lists.absent.contains(via) {
                Err(bad_hop(rt, "absent"@))
            } else if rt.ipv6() && lists.ipv6_disabled.contains(via) {
                Err(bad_hop(rt, "IPv6 disabled"@))
            } else if !rt.ipv6() && lists.ipv4_disabled.contains(via) {
                Err(bad_hop(rt, "IPv4 disabled"@))
            } else {
                Ok(with_iface(names, via))
            },
            None => if rt.route_type is Some {
                Ok(with_iface(names, LOOPBACK_IFACE_NAME@))
            } else {
                Ok(names)
            },
        }
    }
}

/// The interfaces whose routes change by the routes from `i` on.
pub open spec fn hops_checked_from(
    routes: Seq<RouteEntryView>,
    lists: IfaceListsView,
    i: int,
    names: Seq<Seq<char>>,
) -> Result<Seq<Seq<char>>, NipartErrorView>
    decreases routes.len() - i,
{
    if i < 0 || i >= routes.len() {
        Ok(names)
    } else {
        match hop_checked(routes[i], lists, names) {
            Err(e) => Err(e),
            Ok(names) => hops_checked_from(routes, lists, i + 1, names),
        }
    }
}

/// `names` with the interfaces of the current routes from `i` on that the
/// route matches.
pub open spec fn matched_hops_from(
    rt: RouteEntryView,
    current: Seq<RouteEntryView>,
    i: int,
    names: Seq<Seq<char>>,
) -> Seq<Seq<char>>
    decreases current.len() - i,
{
    if i < 0 || i >= current.len() {
        names
    } else if rt.matches_route(current[i]) {
        matched_hops_from(
            rt,
            current,
            i + 1,
            with_iface(names, route::text_or(current[i].next_hop_iface, LOOPBACK_IFACE_NAME@)),
        )
    } else {
        matched_hops_from(rt, current, i + 1, names)
    }
}

/// `names` with the interfaces that lose routes by the absent routes from `i`
/// on.
pub open spec fn absent_hops_from(
    routes: Seq<RouteEntryView>,
    current: Seq<RouteEntryView>,
    i: int,
    names: Seq<Seq<char>>,
) -> Seq<Seq<char>>
    decreases routes.len() - i,
{
    if i < 0 || i >= routes.len() {
        names
    } else if routes[i].absent() {
        absent_hops_from(
            routes,
            current,
            i + 1,
            matched_hops_from(routes[i], current, 0, names),
        )
    } else {
        absent_hops_from(routes, current, i + 1, names)
    }
}

/// All current routes.
pub open spec fn all_routes(current: RoutesView) -> Seq<RouteEntryView> {
    route::list_of(current.config) + route::list_of(current.running)
}

impl RouteSetsView {
    /// With a current route that goes, marked as absent, or stays. Only one
    /// with a next hop interface is listed when it stays.
    pub open spec fn with_settled(self, rt: RouteEntryView, goes: bool) -> RouteSetsView {
        if goes {
            RouteSetsView {
                changed: order::with_item::<RouteEntry>(self.changed, route::as_absent(rt)),
                ..self
            }
        } else if rt.next_hop_iface is Some {
            RouteSetsView { merged: self.merged.push(rt), ..self }
        } else {
            self
        }
    }

    /// With a current route: it goes when its interface loses the IP stack or
    /// an absent route matches it, and stays otherwise. A route without a next
    /// hop interface goes by an absent route only. The kernel purges the routes
    /// of a deleted interface by itself.
    pub open spec fn with_current(
        self,
        rt: RouteEntryView,
        desired: Seq<RouteEntryView>,
        lists: IfaceListsView,
    ) -> RouteSetsView {
        match rt.next_hop_iface {
            None => self.with_settled(rt, route::removed_by(desired, rt)),
            Some(via) => if lists.will_delete.contains(via) || lists.absent.contains(via) {
                self
            } else {
                self.with_settled(
                    rt,
                    (lists.desired_ifaces.contains(via) && lists.ip_off(rt, via))
                        || route::removed_by(desired, rt),
                )
            },
        }
    }

    /// With the current routes from `i` on.
    pub open spec fn with_current_from(
        self,
        current: Seq<RouteEntryView>,
        desired: Seq<RouteEntryView>,
        lists: IfaceListsView,
        i: int,
    ) -> RouteSetsView
        decreases current.len() - i,
    {
        if i < 0 || i >= current.len() {
            self
        } else {
            self.with_current(current[i], desired, lists).with_current_from(
                current,
                desired,
                lists,
                i + 1,
            )
        }
    }

    /// With a new route.
    pub open spec fn with_new(self, rt: RouteEntryView) -> RouteSetsView {
        RouteSetsView {
            changed: order::with_item::<RouteEntry>(self.changed, rt),
            merged: self.merged.push(rt),
            ..self
        }
    }

    /// With the present desired routes from `i` on that are not there already,
    /// or whose interface is created again.
    pub open spec fn with_desired_from(
        self,
        desired: Seq<RouteEntryView>,
        current: Seq<RouteEntryView>,
        lists: IfaceListsView,
        i: int,
    ) -> RouteSetsView
        decreases desired.len() - i,
    {
        if i < 0 || i >= desired.len() {
            self
        } else if !desired[i].absent() && (goes_via(desired[i], lists.will_delete)
            || !route::has_match(current, desired[i])) {
            self.with_new(desired[i]).with_desired_from(desired, current, lists, i + 1)
        } else {
            self.with_desired_from(desired, current, lists, i + 1)
        }
    }

    /// With the merged routes in order, each once.
    pub open spec fn settled(self) -> RouteSetsView {
        RouteSetsView {
            merged: order::dedup::<RouteEntry>(order::sorted::<RouteEntry>(self.merged)),
            ..self
        }
    }

    /// With the saved routes from `i` on of interfaces that are created again,
    /// unless a changed route is one of them.
    pub open spec fn with_saved_from(
        self,
        saved: Seq<RouteEntryView>,
        lists: IfaceListsView,
        i: int,
    ) -> RouteSetsView
        decreases saved.len() - i,
    {
        if i < 0 || i >= saved.len() {
            self
        } else if !saved[i].absent() && goes_via(saved[i], lists.will_delete) && !route::has_match(
            self.changed,
            saved[i],
        ) {
            let next = self.with_new(saved[i]);
            RouteSetsView {
                ifaces: with_iface(next.ifaces, saved[i].next_hop_iface->0),
                ..next
            }.with_saved_from(saved, lists, i + 1)
        } else {
            self.with_saved_from(saved, lists, i + 1)
        }
    }
}

/// The interface that a route is grouped by, if it goes anywhere.
pub open spec fn group_of(rt: RouteEntryView) -> Option<Seq<char>> {
    match rt.next_hop_iface {
        Some(via) => Some(via),
        None => if rt.route_type is Some {
            Some(LOOPBACK_IFACE_NAME@)
        } else {
            None
        },
    }
}

/// `acc` with the routes from `i` on by their interfaces.
pub open spec fn grouped_from(
    routes: Seq<RouteEntryView>,
    i: int,
    acc: Seq<(Seq<char>, Seq<RouteEntryView>)>,
) -> Seq<(Seq<char>, Seq<RouteEntryView>)>
    decreases routes.len() - i,
{
    if i < 0 || i >= routes.len() {
        acc
    } else {
        match group_of(routes[i]) {
            Some(via) => grouped_from(
                routes,
                i + 1,
                keymap::inserted(
                    acc,
                    via,
                    keymap::lookup(acc, via).unwrap_or(Seq::empty()).push(routes[i]),
                ),
            ),
            None => grouped_from(routes, i + 1, acc),
        }
    }
}

/// The map without the keys from `i` on.
pub open spec fn without_keys_from<V>(
    map: Seq<(Seq<char>, V)>,
    names: Seq<Seq<char>>,
    i: int,
) -> Seq<(Seq<char>, V)>
    decreases names.len() - i,
{
    if i < 0 || i >= names.len() {
        map
    } else {
        without_keys_from(keymap::removed(map, names[i]), names, i + 1)
    }
}

/// `acc` with the names from `i` on that are not among `dropped`.
pub open spec fn names_kept_from(
    names: Seq<Seq<char>>,
    dropped: Seq<Seq<char>>,
    i: int,
    acc: Seq<Seq<char>>,
) -> Seq<Seq<char>>
    decreases names.len() - i,
{
    if i < 0 || i >= names.len() {
        acc
    } else if dropped.contains(names[i]) {
        names_kept_from(names, dropped, i + 1, acc)
    } else {
        names_kept_from(names, dropped, i + 1, acc.push(names[i]))
    }
}

/// The route through the name in the kernel of its interface, where it is
/// known.
pub open spec fn hop_resolved(rt: RouteEntryView, ifaces: MergedInterfacesView) -> RouteEntryView {
    match rt.next_hop_iface {
        Some(name) => RouteEntryView {
            next_hop_iface: Some(ifaces.next_hop(name).unwrap_or(name)),
            ..rt
        },
        None => rt,
    }
}

/// Whether the desired state turns the IP stack that the route needs off.
pub open spec fn ip_turned_off(ifaces: MergedInterfacesView, via: Seq<char>, ipv6: bool) -> bool {
    match keymap::lookup(ifaces.kernel_ifaces, via) {
        Some(iface) => iface.desired is Some && if ipv6 {
            iface.desired->0.base.ipv6 is Some && !iface.desired->0.base.ipv6->0.on()
        } else {
            iface.desired->0.base.ipv4 is Some && !iface.desired->0.base.ipv4->0.on()
        },
        None => false,
    }
}

/// Whether an absent desired route matches the route, both through the names
/// in the kernel of their interfaces.
pub open spec fn removed_by_desired(
    rt: RouteEntryView,
    desired: Seq<RouteEntryView>,
    ifaces: MergedInterfacesView,
) -> bool {
    exists|i: int|
        0 <= i < desired.len() && (#[trigger] desired[i]).absent() && hop_resolved(
            desired[i],
            ifaces,
        ).matches_route(hop_resolved(rt, ifaces))
}

/// Whether a saved route does not survive the apply.
pub open spec fn saved_removed(
    rt: RouteEntryView,
    desired: Seq<RouteEntryView>,
    ifaces: MergedInterfacesView,
) -> bool {
    ||| removed_by_desired(rt, desired, ifaces)
    ||| match hop_resolved(rt, ifaces).next_hop_iface {
        None => false,
        Some(via) => {
            ||| flagged(ifaces, IfaceFlag::Ignored).contains(via)
            ||| flagged(ifaces, IfaceFlag::Absent).contains(via)
            ||| flagged(ifaces, IfaceFlag::Desired).contains(via) && ip_turned_off(
                ifaces,
                via,
                rt.ipv6(),
            )
        },
    }
}

/// The set `acc` with the saved routes from `i` on that survive the apply.
pub open spec fn survivors_from(
    saved: Seq<RouteEntryView>,
    desired: Seq<RouteEntryView>,
    ifaces: MergedInterfacesView,
    i: int,
    acc: Seq<RouteEntryView>,
) -> Seq<RouteEntryView>
    decreases saved.len() - i,
{
    if i < 0 || i >= saved.len() {
        acc
    } else if saved[i].absent() || saved_removed(saved[i], desired, ifaces) {
        survivors_from(saved, desired, ifaces, i + 1, acc)
    } else {
        survivors_from(
            saved,
            desired,
            ifaces,
            i + 1,
            order::with_item::<RouteEntry>(acc, saved[i]),
        )
    }
}

/// The saved static routes, if there are any.
pub open spec fn saved_list(saved: Option<RoutesView>) -> Seq<RouteEntryView> {
    match saved {
        Some(saved) => route::list_of(saved.config),
        None => Seq::empty(),
    }
}

/// The routes to persist.
pub open spec fn routes_to_save(
    desired: RoutesView,
    saved: Option<RoutesView>,
    ifaces: MergedInterfacesView,
) -> RoutesView {
    let list = route::list_of(desired.config);
    RoutesView {
        running: None,
        config: Some(
            order::sorted::<RouteEntry>(
                survivors_from(
                    saved_list(saved),
                    list,
                    ifaces,
                    0,
                    route::present_from(list, 0, Seq::empty()),
                ),
            ),
        ),
    }
}

/// The desired routes as they are taken: without those to be ignored, valid,
/// and in the tables of their VRFs.
pub open spec fn desired_prepared(desired: RoutesView, ifaces: MergedInterfacesView) -> Result<
    RoutesView,
    NipartErrorView,
> {
    match desired.unignored().validated() {
        Err(e) => Err(e),
        Ok(()) => desired.unignored().vrfs_resolved(ifaces),
    }
}

/// The routes that an apply of the prepared desired routes leaves and changes,
/// and the interfaces whose routes change.
pub open spec fn route_sets(
    desired: RoutesView,
    current: RoutesView,
    saved: Option<RoutesView>,
    ifaces: MergedInterfacesView,
) -> Result<RouteSetsView, NipartErrorView> {
    let lists = IfaceListsView::of(ifaces);
    match desired_resolved_from(
        route::list_of(desired.config),
        ifaces,
        lists,
        0,
        Seq::empty(),
    ) {
        Err(e) => Err(e),
        Ok(routes) => match hops_checked_from(routes, lists, 0, Seq::empty()) {
            Err(e) => Err(e),
            Ok(names) => Ok(
                RouteSetsView {
                    merged: Seq::empty(),
                    changed: Seq::empty(),
                    ifaces: absent_hops_from(routes, all_routes(current), 0, names),
                }.with_current_from(
                    route::list_of(current.config),
                    routes,
                    lists,
                    0,
                ).with_desired_from(routes, all_routes(current), lists, 0).settled().with_saved_from(
                    saved_list(saved),
                    lists,
                    0,
                ),
            ),
        },
    }
}

/// What [MergedRoutes::new] returns.
pub open spec fn merged_routes(
    desired: RoutesView,
    current: RoutesView,
    saved: Option<RoutesView>,
    ifaces: MergedInterfacesView,
) -> Result<MergedRoutesView, NipartErrorView> {
    match desired_prepared(desired, ifaces) {
        Err(e) => Err(e),
        Ok(desired) => match route_sets(desired, current, saved, ifaces) {
            Err(e) => Err(e),
            Ok(sets) => {
                let ignored = flagged(ifaces, IfaceFlag::Ignored);
                Ok(
                    MergedRoutesView {
                        merged: without_keys_from(
                            grouped_from(sets.merged, 0, Seq::empty()),
                            ignored,
                            0,
                        ),
                        route_changed_ifaces: names_kept_from(
                            sets.ifaces,
                            ignored,
                            0,
                            Seq::empty(),
                        ),
                        changed_routes: sets.changed,
                        desired,
                        current,
                        saved,
                        for_save: routes_to_save(desired, saved, ifaces),
                    },
                )
            },
        },
    }
}

/// What undoes the change of a route.
pub open spec fn undone(rt: RouteEntryView) -> RouteEntryView {
    RouteEntryView {
        state: if rt.absent() {
            None
        } else {
            Some(RouteState::Absent)
        },
        ..rt
    }
}

/// What undoes the changes of routes.
pub open spec fn all_undone(routes: Seq<RouteEntryView>) -> Seq<RouteEntryView> {
    Seq::new(routes.len(), |i: int| undone(routes[i]))
}

impl MergedInterface {
    /// Whether the flag holds of the interface.
    fn is_flagged(&self, flag: IfaceFlag) -> (res: bool)
        ensures
            res == has_flag(self@, flag),
    {
        match flag {
            IfaceFlag::Absent => self.is_absent(),
            IfaceFlag::Ipv4Disabled => !self.merged.base.is_ipv4_enabled(),
            IfaceFlag::Ipv6Disabled => !self.merged.base.is_ipv6_enabled(),
            IfaceFlag::Dhcpv4Enabled => match &self.merged.base.ipv4 {
                Some(ipv4) => matches!(ipv4.dhcp, Some(true)),
                None => false,
            },
            IfaceFlag::WillDelete => self.will_delete,
            IfaceFlag::Desired => self.is_desired(),
            IfaceFlag::Ignored => self.merged.is_ignore(),
        }
    }
}

/// The names in the kernel of the interfaces that the flag holds of.
pub fn list_flagged(merged_ifaces: &MergedInterfaces, flag: IfaceFlag) -> (res: Vec<String>)
    ensures
        res.deep_view() == flagged(merged_ifaces@, flag),
{
    let ghost ifaces = merged_ifaces.kernel_ifaces@;
    let mut names: Vec<String> = empty_list();
    let mut i: usize = 0;
    while i < merged_ifaces.kernel_ifaces.len()
        invariant
            i <= ifaces.len(),
            ifaces == merged_ifaces.kernel_ifaces@,
            flagged_from(ifaces, flag, 0, Seq::empty()) == flagged_from(
                ifaces,
                flag,
                i as int,
                names.deep_view(),
            ),
        decreases ifaces.len() - i,
    {
        let iface = merged_ifaces.kernel_ifaces.value_at(i);
        if iface.is_flagged(flag) {
            push(&mut names, iface.merged.base.kernel_iface_name.dup());
        }
        i = i + 1;
    }
    names
}

/// The names of the interfaces that are only saved.
fn list_saved_only(merged_ifaces: &MergedInterfaces) -> (res: Vec<String>)
    ensures
        res.deep_view() == saved_only_from(merged_ifaces@.kernel_ifaces, 0, Seq::empty()),
{
    let ghost ifaces = merged_ifaces.kernel_ifaces@;
    let mut names: Vec<String> = empty_list();
    let mut i: usize = 0;
    while i < merged_ifaces.kernel_ifaces.len()
        invariant
            i <= ifaces.len(),
            ifaces == merged_ifaces.kernel_ifaces@,
            saved_only_from(ifaces, 0, Seq::empty()) == saved_only_from(
                ifaces,
                i as int,
                names.deep_view(),
            ),
        decreases ifaces.len() - i,
    {
        let iface = merged_ifaces.kernel_ifaces.value_at(i);
        if iface.merged.base.state.is_saved() {
            push(&mut names, iface.merged.base.kernel_iface_name.dup());
            push(&mut names, iface.merged.base.name.dup());
        }
        i = i + 1;
    }
    names
}

/// The lists for the merged interfaces.
fn collect_iface_lists(merged_ifaces: &MergedInterfaces) -> (res: IfaceLists)
    ensures
        res@ == IfaceListsView::of(merged_ifaces@),
{
    IfaceLists {
        absent: list_flagged(merged_ifaces, IfaceFlag::Absent),
        ipv4_disabled: list_flagged(merged_ifaces, IfaceFlag::Ipv4Disabled),
        ipv6_disabled: list_flagged(merged_ifaces, IfaceFlag::Ipv6Disabled),
        dhcpv4_enabled: list_flagged(merged_ifaces, IfaceFlag::Dhcpv4Enabled),
        will_delete: list_flagged(merged_ifaces, IfaceFlag::WillDelete),
        saved_only: list_saved_only(merged_ifaces),
        desired_ifaces: list_flagged(merged_ifaces, IfaceFlag::Desired),
    }
}

/// Whether the next hop of the route is one of the interfaces.
fn is_via(rt: &RouteEntry, names: &Vec<String>) -> (res: bool)
    ensures
        res == goes_via(rt@, names.deep_view()),
{
    match &rt.next_hop_iface {
        Some(via) => contains(names, via),
        None => false,
    }
}

/// The desired route as it is applied, if it is.
fn resolve_desired_route(
    desired: &RouteEntry,
    merged_ifaces: &MergedInterfaces,
    iface_lists: &IfaceLists,
) -> (res: Result<Option<RouteEntry>, NipartError>)
    ensures
        error::same_result(res, desired_resolved(desired@, merged_ifaces@, iface_lists@)),
{
    let mut rt = desired.dup();
    if let Err(e) = rt.sanitize() {
        return Err(e);
    }
    if rt.is_saved() || is_via(&rt, &iface_lists.saved_only) {
        return Ok(None);
    }
    if let Some(name) = &rt.next_hop_iface {
        match merged_ifaces.resolve_route_next_hop_iface(name) {
            Some(kernel_name) => {
                rt.next_hop_iface = Some(kernel_name);
            },
            None => {
                // A WIFI configuration is userspace-only: its route can only be
                // installed once the device that carries its network is
                // connected. The link-up event applies it then.
                if merged_ifaces.is_pending_wifi_cfg_route_target(name) {
                    return Ok(None);
                }
                return Err(
                    NipartError::new(
                        ErrorKind::InvalidArgument,
                        String::from_str(
                            "Failed to find kernel interface name for route ",
                        ).concat(rt.to_text().as_str()),
                    ),
                );
            },
        }
    }
    // The kernel rejects an IPv4 route with a gateway before the DHCPv4 lease
    // is acquired on the interface of its next hop, hence the flag.
    if rt.onlink.is_none() && !rt.is_absent() && !rt.is_ipv6() && rt.next_hop_addr.is_some()
        && is_via(&rt, &iface_lists.dhcpv4_enabled) {
        rt.onlink = Some(true);
    }
    Ok(Some(rt))
}

/// The desired routes as they are applied.
fn resolve_desired_routes(
    desired: &Routes,
    merged_ifaces: &MergedInterfaces,
    iface_lists: &IfaceLists,
) -> (res: Result<Vec<RouteEntry>, NipartError>)
    ensures
        error::same_result(
            res,
            desired_resolved_from(
                route::list_of(desired@.config),
                merged_ifaces@,
                iface_lists@,
                0,
                Seq::empty(),
            ),
        ),
{
    let routes = to_route_list(&desired.config);
    let ghost views = routes.deep_view();
    let mut res: Vec<RouteEntry> = empty_list();
    let mut i: usize = 0;
    while i < routes.len()
        invariant
            i <= routes.len(),
            views == routes.deep_view(),
            views == route::list_of(desired@.config),
            desired_resolved_from(views, merged_ifaces@, iface_lists@, 0, Seq::empty())
                == desired_resolved_from(
                views,
                merged_ifaces@,
                iface_lists@,
                i as int,
                res.deep_view(),
            ),
        decreases routes.len() - i,
    {
        assert(views[i as int] == routes[i as int]@);
        match resolve_desired_route(&routes[i], merged_ifaces, iface_lists) {
            Ok(Some(rt)) => push(&mut res, rt),
            Ok(None) => {},
            Err(e) => {
                return Err(e);
            },
        }
        i = i + 1;
    }
    Ok(res)
}

/// Adds a name, unless it is there.
fn add_iface(names: &mut Vec<String>, name: String)
    ensures
        final(names).deep_view() == with_iface(old(names).deep_view(), name@),
{
    if !contains(names, &name) {
        push(names, name);
    }
}

/// The error of a route whose next hop cannot be used.
fn gen_hop_error(rt: &RouteEntry, reason: &str) -> (res: NipartError)
    ensures
        res@ == bad_hop(rt@, reason@),
{
    NipartError::new(
        ErrorKind::InvalidArgument,
        String::from_str("The next hop interface of desired Route '").concat(
            rt.to_text().as_str(),
        ).concat("' has been marked as ").concat(reason),
    )
}

/// Checks the next hop of a present route and adds its interface to those
/// whose routes change.
fn validate_desired_route(
    rt: &RouteEntry,
    iface_lists: &IfaceLists,
    changed_ifaces: &mut Vec<String>,
) -> (res: Result<(), NipartError>)
    ensures
        match hop_checked(rt@, iface_lists@, old(changed_ifaces).deep_view()) {
            Ok(names) => res is Ok && final(changed_ifaces).deep_view() == names,
            Err(e) => res is Err && res->Err_0@ == e,
        },
{
    if rt.is_absent() {
        return Ok(());
    }
    match &rt.next_hop_iface {
        Some(via) => {
            if contains(&iface_lists.absent, via) {
                return Err(gen_hop_error(rt, "absent"));
            }
            if rt.is_ipv6() && contains(&iface_lists.ipv6_disabled, via) {
                return Err(gen_hop_error(rt, "IPv6 disabled"));
            }
            if !rt.is_ipv6() && contains(&iface_lists.ipv4_disabled, via) {
                return Err(gen_hop_error(rt, "IPv4 disabled"));
            }
            add_iface(changed_ifaces, via.dup());
        },
        None => {
            if rt.route_type.is_some() {
                add_iface(changed_ifaces, String::from_str(LOOPBACK_IFACE_NAME));
            }
        },
    }
    Ok(())
}

/// Checks the next hops of the present routes and returns the interfaces whose
/// routes change by them.
fn validate_desired_routes(desired_routes: &Vec<RouteEntry>, iface_lists: &IfaceLists) -> (res:
    Result<Vec<String>, NipartError>)
    ensures
        error::same_result(
            res,
            hops_checked_from(desired_routes.deep_view(), iface_lists@, 0, Seq::empty()),
        ),
{
    let ghost views = desired_routes.deep_view();
    let mut changed_ifaces: Vec<String> = empty_list();
    let mut i: usize = 0;
    while i < desired_routes.len()
        invariant
            i <= desired_routes.len(),
            views == desired_routes.deep_view(),
            hops_checked_from(views, iface_lists@, 0, Seq::empty()) == hops_checked_from(
                views,
                iface_lists@,
                i as int,
                changed_ifaces.deep_view(),
            ),
        decreases desired_routes.len() - i,
    {
        assert(views[i as int] == desired_routes[i as int]@);
        if let Err(e) = validate_desired_route(
            &desired_routes[i],
            iface_lists,
            &mut changed_ifaces,
        ) {
            return Err(e);
        }
        i = i + 1;
    }
    Ok(changed_ifaces)
}

/// Adds the interfaces of the current routes that the route matches.
fn add_matched_hops(rt: &RouteEntry, current: &Vec<RouteEntry>, changed_ifaces: &mut Vec<String>)
    ensures
        final(changed_ifaces).deep_view() == matched_hops_from(
            rt@,
            current.deep_view(),
            0,
            old(changed_ifaces).deep_view(),
        ),
{
    let ghost views = current.deep_view();
    let ghost start = changed_ifaces.deep_view();
    let mut i: usize = 0;
    while i < current.len()
        invariant
            i <= current.len(),
            views == current.deep_view(),
            matched_hops_from(rt@, views, 0, start) == matched_hops_from(
                rt@,
                views,
                i as int,
                changed_ifaces.deep_view(),
            ),
        decreases current.len() - i,
    {
        assert(views[i as int] == current[i as int]@);
        if rt.is_match(&current[i]) {
            let name = match &current[i].next_hop_iface {
                Some(via) => via.dup(),
                None => String::from_str(LOOPBACK_IFACE_NAME),
            };
            add_iface(changed_ifaces, name);
        }
        i = i + 1;
    }
}

/// Adds the interfaces that lose routes by absent routes.
fn collect_absent_route_changes(
    desired_routes: &Vec<RouteEntry>,
    current: &Vec<RouteEntry>,
    changed_ifaces: &mut Vec<String>,
)
    ensures
        final(changed_ifaces).deep_view() == absent_hops_from(
            desired_routes.deep_view(),
            current.deep_view(),
            0,
            old(changed_ifaces).deep_view(),
        ),
{
    let ghost views = desired_routes.deep_view();
    let ghost cur_views = current.deep_view();
    let ghost start = changed_ifaces.deep_view();
    let mut i: usize = 0;
    while i < desired_routes.len()
        invariant
            i <= desired_routes.len(),
            views == desired_routes.deep_view(),
            cur_views == current.deep_view(),
            absent_hops_from(views, cur_views, 0, start) == absent_hops_from(
                views,
                cur_views,
                i as int,
                changed_ifaces.deep_view(),
            ),
        decreases desired_routes.len() - i,
    {
        assert(views[i as int] == desired_routes[i as int]@);
        if desired_routes[i].is_absent() {
            add_matched_hops(&desired_routes[i], current, changed_ifaces);
        }
        i = i + 1;
    }
}

/// All current routes.
fn list_all_routes(current: &Routes) -> (res: Vec<RouteEntry>)
    ensures
        res.deep_view() == all_routes(current@),
{
    let mut res = to_route_list(&current.config);
    let running = to_route_list(&current.running);
    let ghost first = res.deep_view();
    let ghost views = running.deep_view();
    let mut i: usize = 0;
    assert(res.deep_view() =~= first + views.subrange(0, 0));
    while i < running.len()
        invariant
            i <= running.len(),
            views == running.deep_view(),
            res.deep_view() == first + views.subrange(0, i as int),
        decreases running.len() - i,
    {
        assert(views[i as int] == running[i as int]@);
        push(&mut res, running[i].dup());
        i = i + 1;
        assert(res.deep_view() =~= first + views.subrange(0, i as int));
    }
    assert(views.subrange(0, i as int) =~= views);
    res
}

impl RouteSets {
    /// Takes a current route.
    fn add_current(
        &mut self,
        rt: &RouteEntry,
        desired_routes: &Vec<RouteEntry>,
        iface_lists: &IfaceLists,
    )
        ensures
            final(self)@ == old(self)@.with_current(
                rt@,
                desired_routes.deep_view(),
                iface_lists@,
            ),
    {
        let mut goes = is_route_removed_by(desired_routes, rt);
        if let Some(via) = &rt.next_hop_iface {
            if contains(&iface_lists.will_delete, via) || contains(&iface_lists.absent, via) {
                return ;
            }
            let ip_off = if rt.is_ipv6() {
                contains(&iface_lists.ipv6_disabled, via)
            } else {
                contains(&iface_lists.ipv4_disabled, via)
            };
            goes = goes || (contains(&iface_lists.desired_ifaces, via) && ip_off);
        }
        if goes {
            let mut absent_rt = rt.dup();
            absent_rt.state = Some(RouteState::Absent);
            insert_item(&mut self.changed, absent_rt);
        } else if rt.next_hop_iface.is_some() {
            push(&mut self.merged, rt.dup());
        }
    }

    /// Takes a new route.
    fn add_new(&mut self, rt: &RouteEntry)
        ensures
            final(self)@ == old(self)@.with_new(rt@),
    {
        insert_item(&mut self.changed, rt.dup());
        push(&mut self.merged, rt.dup());
    }

    /// Takes the current and the desired routes.
    fn build_merged_and_changed_routes(
        &mut self,
        current: &Routes,
        all_current: &Vec<RouteEntry>,
        desired_routes: &Vec<RouteEntry>,
        iface_lists: &IfaceLists,
    )
        ensures
            final(self)@ == old(self)@.with_current_from(
                route::list_of(current@.config),
                desired_routes.deep_view(),
                iface_lists@,
                0,
            ).with_desired_from(
                desired_routes.deep_view(),
                all_current.deep_view(),
                iface_lists@,
                0,
            ).settled(),
    {
        let cur_routes = to_route_list(&current.config);
        let ghost cur_views = cur_routes.deep_view();
        let ghost views = desired_routes.deep_view();
        let ghost all_views = all_current.deep_view();
        let mut i: usize = 0;
        while i < cur_routes.len()
            invariant
                i <= cur_routes.len(),
                cur_views == cur_routes.deep_view(),
                views == desired_routes.deep_view(),
                old(self)@.with_current_from(cur_views, views, iface_lists@, 0)
                    == self@.with_current_from(cur_views, views, iface_lists@, i as int),
            decreases cur_routes.len() - i,
        {
            assert(cur_views[i as int] == cur_routes[i as int]@);
            self.add_current(&cur_routes[i], desired_routes, iface_lists);
            i = i + 1;
        }
        let ghost start = self@;
        let mut i: usize = 0;
        while i < desired_routes.len()
            invariant
                i <= desired_routes.len(),
                views == desired_routes.deep_view(),
                all_views == all_current.deep_view(),
                start.with_desired_from(views, all_views, iface_lists@, 0)
                    == self@.with_desired_from(views, all_views, iface_lists@, i as int),
            decreases desired_routes.len() - i,
        {
            assert(views[i as int] == desired_routes[i as int]@);
            let rt = &desired_routes[i];
            if !rt.is_absent() && (is_via(rt, &iface_lists.will_delete) || !contains_match(
                all_current,
                rt,
            )) {
                self.add_new(rt);
            }
            i = i + 1;
        }
        self.merged = remove_runs(&sort(&self.merged));
    }

    /// Takes the saved routes of interfaces that are created again.
    fn add_saved(&mut self, saved: &Vec<RouteEntry>, iface_lists: &IfaceLists)
        ensures
            final(self)@ == old(self)@.with_saved_from(saved.deep_view(), iface_lists@, 0),
    {
        let ghost views = saved.deep_view();
        let mut i: usize = 0;
        while i < saved.len()
            invariant
                i <= saved.len(),
                views == saved.deep_view(),
                old(self)@.with_saved_from(views, iface_lists@, 0) == self@.with_saved_from(
                    views,
                    iface_lists@,
                    i as int,
                ),
            decreases saved.len() - i,
        {
            assert(views[i as int] == saved[i as int]@);
            let rt = &saved[i];
            if let Some(via) = &rt.next_hop_iface {
                if !rt.is_absent() && contains(&iface_lists.will_delete, via) && !contains_match(
                    &self.changed,
                    rt,
                ) {
                    self.add_new(rt);
                    add_iface(&mut self.ifaces, via.dup());
                }
            }
            i = i + 1;
        }
    }
}

/// The routes by their interfaces.
fn group_by_next_hop_iface(routes: &Vec<RouteEntry>) -> (res: KeyMap<String, Vec<RouteEntry>>)
    ensures
        res@ == grouped_from(routes.deep_view(), 0, Seq::empty()),
{
    let ghost views = routes.deep_view();
    let mut groups: KeyMap<String, Vec<RouteEntry>> = KeyMap::new();
    let mut i: usize = 0;
    while i < routes.len()
        invariant
            i <= routes.len(),
            views == routes.deep_view(),
            grouped_from(views, 0, Seq::empty()) == grouped_from(views, i as int, groups@),
        decreases routes.len() - i,
    {
        assert(views[i as int] == routes[i as int]@);
        let group = match &routes[i].next_hop_iface {
            Some(via) => Some(via.dup()),
            None => if routes[i].route_type.is_some() {
                Some(String::from_str(LOOPBACK_IFACE_NAME))
            } else {
                None
            },
        };
        if let Some(via) = group {
            let mut list = match groups.get(&via) {
                Some(list) => list.dup(),
                None => empty_list(),
            };
            push(&mut list, routes[i].dup());
            groups.insert(via, list);
        }
        i = i + 1;
    }
    groups
}

/// The route through the name in the kernel of its interface.
fn resolve_hop(rt: &RouteEntry, merged_ifaces: &MergedInterfaces) -> (res: RouteEntry)
    ensures
        res@ == hop_resolved(rt@, merged_ifaces@),
{
    let mut res = rt.dup();
    if let Some(name) = &rt.next_hop_iface {
        if let Some(kernel_name) = merged_ifaces.resolve_route_next_hop_iface(name) {
            res.next_hop_iface = Some(kernel_name);
        }
    }
    res
}

/// Whether the desired state for the given kernel interface explicitly
/// disables IPv4.
///
/// An interface merely mentioned in the desired state without an `ipv4`
/// section does not count: the merged interface defaults to IPv4-disabled
/// when the interface is absent from the kernel (e.g. its NIC is unplugged),
/// and its saved routes are meant to be restored when the NIC is back.
fn desired_iface_ipv4_disabled(kernel_iface_name: &String, merged_ifaces: &MergedInterfaces) -> (res:
    bool)
    ensures
        res == ip_turned_off(merged_ifaces@, kernel_iface_name@, false),
{
    match merged_ifaces.kernel_ifaces.get(kernel_iface_name) {
        Some(iface) => match &iface.desired {
            Some(desired) => match &desired.base.ipv4 {
                Some(ipv4) => !ipv4.is_enabled(),
                None => false,
            },
            None => false,
        },
        None => false,
    }
}

/// Whether the desired state for the given kernel interface explicitly
/// disables IPv6. See [desired_iface_ipv4_disabled].
fn desired_iface_ipv6_disabled(kernel_iface_name: &String, merged_ifaces: &MergedInterfaces) -> (res:
    bool)
    ensures
        res == ip_turned_off(merged_ifaces@, kernel_iface_name@, true),
{
    match merged_ifaces.kernel_ifaces.get(kernel_iface_name) {
        Some(iface) => match &iface.desired {
            Some(desired) => match &desired.base.ipv6 {
                Some(ipv6) => !ipv6.is_enabled(),
                None => false,
            },
            None => false,
        },
        None => false,
    }
}

/// Whether an absent desired route matches the route, both through the names
/// in the kernel of their interfaces.
fn is_removed_by_desired(
    rt: &RouteEntry,
    desired: &Vec<RouteEntry>,
    merged_ifaces: &MergedInterfaces,
) -> (res: bool)
    ensures
        res == removed_by_desired(rt@, desired.deep_view(), merged_ifaces@),
{
    let ghost views = desired.deep_view();
    let resolved = resolve_hop(rt, merged_ifaces);
    let mut i: usize = 0;
    while i < desired.len()
        invariant
            i <= desired.len(),
            views == desired.deep_view(),
            resolved@ == hop_resolved(rt@, merged_ifaces@),
            forall|j: int|
                0 <= j < i ==> !((#[trigger] views[j]).absent() && hop_resolved(
                    views[j],
                    merged_ifaces@,
                ).matches_route(resolved@)),
        decreases desired.len() - i,
    {
        assert(views[i as int] == desired[i as int]@);
        if desired[i].is_absent() && resolve_hop(&desired[i], merged_ifaces).is_match(&resolved) {
            return true;
        }
        i = i + 1;
    }
    false
}

/// Whether a previously saved route should be dropped from the persisted
/// state by this apply: it is explicitly marked `absent` in the desired
/// state, or its next hop interface is marked `absent`, has its IP stack
/// explicitly disabled by this apply, or is marked as `ignore`.
///
/// Saved routes may reference their next hop interface by profile or logical
/// name (the persisted format preserves them), so it is resolved first.
fn saved_route_is_removed(
    rt: &RouteEntry,
    desired: &Vec<RouteEntry>,
    iface_lists: &IfaceLists,
    ignored_ifaces: &Vec<String>,
    merged_ifaces: &MergedInterfaces,
) -> (res: bool)
    requires
        iface_lists@ == IfaceListsView::of(merged_ifaces@),
        ignored_ifaces.deep_view() == flagged(merged_ifaces@, IfaceFlag::Ignored),
    ensures
        res == saved_removed(rt@, desired.deep_view(), merged_ifaces@),
{
    if is_removed_by_desired(rt, desired, merged_ifaces) {
        return true;
    }
    let resolved = resolve_hop(rt, merged_ifaces);
    match &resolved.next_hop_iface {
        Some(via) => contains(ignored_ifaces, via) || contains(&iface_lists.absent, via) || (
        contains(&iface_lists.desired_ifaces, via) && if rt.is_ipv6() {
            desired_iface_ipv6_disabled(via, merged_ifaces)
        } else {
            desired_iface_ipv4_disabled(via, merged_ifaces)
        }),
        // Routes without next hop interface (e.g. blackhole) can only be
        // removed by an explicit absent match.
        None => false,
    }
}

/// The saved static routes, if there are any.
fn to_saved_list(saved: &Option<Routes>) -> (res: Vec<RouteEntry>)
    ensures
        res.deep_view() == saved_list(saved.deep_view()),
{
    match saved {
        Some(saved) => to_route_list(&saved.config),
        None => empty_list(),
    }
}

/// Compute the routes to persist: the desired routes plus every previously
/// saved route that survives this apply. A saved route survives unless it is
/// explicitly marked `absent` in the desired state, or its next hop
/// interface is being deleted (`absent`) or has its IP stack disabled by
/// this apply, or is marked as `ignore`.
fn gen_routes_for_save(
    desired: &Routes,
    saved: &Option<Routes>,
    iface_lists: &IfaceLists,
    ignored_ifaces: &Vec<String>,
    merged_ifaces: &MergedInterfaces,
) -> (res: Routes)
    requires
        iface_lists@ == IfaceListsView::of(merged_ifaces@),
        ignored_ifaces.deep_view() == flagged(merged_ifaces@, IfaceFlag::Ignored),
    ensures
        res@ == routes_to_save(desired@, saved.deep_view(), merged_ifaces@),
{
    let desired_list = to_route_list(&desired.config);
    let saved_routes = to_saved_list(saved);
    let mut set = list_present(&desired_list);
    let ghost list = desired_list.deep_view();
    let ghost views = saved_routes.deep_view();
    let ghost start = set.deep_view();
    let mut i: usize = 0;
    while i < saved_routes.len()
        invariant
            i <= saved_routes.len(),
            list == desired_list.deep_view(),
            views == saved_routes.deep_view(),
            iface_lists@ == IfaceListsView::of(merged_ifaces@),
            ignored_ifaces.deep_view() == flagged(merged_ifaces@, IfaceFlag::Ignored),
            survivors_from(views, list, merged_ifaces@, 0, start) == survivors_from(
                views,
                list,
                merged_ifaces@,
                i as int,
                set.deep_view(),
            ),
        decreases saved_routes.len() - i,
    {
        assert(views[i as int] == saved_routes[i as int]@);
        let rt = &saved_routes[i];
        if !rt.is_absent() && !saved_route_is_removed(
            rt,
            &desired_list,
            iface_lists,
            ignored_ifaces,
            merged_ifaces,
        ) {
            insert_item(&mut set, rt.dup());
        }
        i = i + 1;
    }
    Routes { running: None, config: Some(sort(&set)) }
}

/// The routes that an apply leaves and changes.
fn gen_route_sets(
    desired: &Routes,
    current: &Routes,
    saved: &Option<Routes>,
    iface_lists: &IfaceLists,
    merged_ifaces: &MergedInterfaces,
) -> (res: Result<RouteSets, NipartError>)
    requires
        iface_lists@ == IfaceListsView::of(merged_ifaces@),
    ensures
        error::same_result(
            res,
            route_sets(desired@, current@, saved.deep_view(), merged_ifaces@),
        ),
{
    let desired_routes = match resolve_desired_routes(desired, merged_ifaces, iface_lists) {
        Ok(routes) => routes,
        Err(e) => {
            return Err(e);
        },
    };
    let mut changed_ifaces = match validate_desired_routes(&desired_routes, iface_lists) {
        Ok(names) => names,
        Err(e) => {
            return Err(e);
        },
    };
    let all_current = list_all_routes(current);
    collect_absent_route_changes(&desired_routes, &all_current, &mut changed_ifaces);
    let mut sets = RouteSets {
        merged: empty_list(),
        changed: empty_list(),
        ifaces: changed_ifaces,
    };
    sets.build_merged_and_changed_routes(current, &all_current, &desired_routes, iface_lists);
    // For interfaces that will be deleted and recreated, current routes are
    // purged by kernel. Include saved routes so they are re-applied along with
    // desired routes.
    sets.add_saved(&to_saved_list(saved), iface_lists);
    Ok(sets)
}

impl MergedRoutesView {
    /// No routes.
    pub open spec fn none() -> MergedRoutesView {
        MergedRoutesView {
            merged: Seq::empty(),
            route_changed_ifaces: Seq::empty(),
            changed_routes: Seq::empty(),
            desired: RoutesView::undefined(),
            current: RoutesView::undefined(),
            saved: None,
            for_save: RoutesView::undefined(),
        }
    }
}

impl Default for MergedRoutes {
    fn default() -> (res: Self)
        ensures
            res@ == MergedRoutesView::none(),
    {
        MergedRoutes {
            merged: KeyMap::new(),
            route_changed_ifaces: empty_list(),
            changed_routes: empty_list(),
            desired: Routes::default(),
            current: Routes::default(),
            saved: None,
            for_save: Routes::default(),
        }
    }
}

impl MergedRoutes {
    /// Merges the desired, the current and the saved routes.
    pub fn new(
        desired: Routes,
        current: Routes,
        saved: Option<Routes>,
        merged_ifaces: &MergedInterfaces,
    ) -> (res: Result<Self, NipartError>)
        ensures
            error::same_result(
                res,
                merged_routes(desired@, current@, saved.deep_view(), merged_ifaces@),
            ),
    {
        let mut desired = desired;
        desired.remove_ignored_routes();
        if let Err(e) = desired.validate() {
            return Err(e);
        }
        if let Err(e) = desired.resolve_vrf_name(merged_ifaces) {
            return Err(e);
        }
        let iface_lists = collect_iface_lists(merged_ifaces);
        let sets = match gen_route_sets(&desired, &current, &saved, &iface_lists, merged_ifaces) {
            Ok(sets) => sets,
            Err(e) => {
                return Err(e);
            },
        };
        let mut res = MergedRoutes {
            merged: group_by_next_hop_iface(&sets.merged),
            route_changed_ifaces: sets.ifaces,
            changed_routes: sets.changed,
            desired,
            current,
            saved,
            for_save: Routes::default(),
        };
        let ignored_ifaces = res.remove_routes_to_ignored_ifaces(merged_ifaces);
        res.for_save = gen_routes_for_save(
            &res.desired,
            &res.saved,
            &iface_lists,
            &ignored_ifaces,
            merged_ifaces,
        );
        Ok(res)
    }

    /// Drops the routes of interfaces to be ignored, and returns the names of
    /// those.
    fn remove_routes_to_ignored_ifaces(&mut self, merged_ifaces: &MergedInterfaces) -> (res: Vec<
        String,
    >)
        ensures
            res.deep_view() == flagged(merged_ifaces@, IfaceFlag::Ignored),
            final(self)@ == (MergedRoutesView {
                merged: without_keys_from(old(self)@.merged, res.deep_view(), 0),
                route_changed_ifaces: names_kept_from(
                    old(self)@.route_changed_ifaces,
                    res.deep_view(),
                    0,
                    Seq::empty(),
                ),
                ..old(self)@
            }),
    {
        let ignored_ifaces = list_flagged(merged_ifaces, IfaceFlag::Ignored);
        let ghost ignored = ignored_ifaces.deep_view();
        let mut i: usize = 0;
        while i < ignored_ifaces.len()
            invariant
                i <= ignored_ifaces.len(),
                ignored == ignored_ifaces.deep_view(),
                self@ == (MergedRoutesView { merged: self.merged@, ..old(self)@ }),
                without_keys_from(old(self)@.merged, ignored, 0) == without_keys_from(
                    self.merged@,
                    ignored,
                    i as int,
                ),
            decreases ignored_ifaces.len() - i,
        {
            assert(ignored[i as int] == ignored_ifaces[i as int]@);
            self.merged.remove(&ignored_ifaces[i]);
            i = i + 1;
        }
        self.route_changed_ifaces = keep_names(&self.route_changed_ifaces, &ignored_ifaces);
        ignored_ifaces
    }

    /// Whether the routes of any interface change.
    pub fn is_changed(&self) -> (res: bool)
        ensures
            res == (self@.route_changed_ifaces.len() > 0),
    {
        self.route_changed_ifaces.len() > 0
    }

    /// The routes to apply.
    pub fn gen_state_for_apply(&self) -> (res: Routes)
        ensures
            res@ == (RoutesView { running: None, config: Some(self@.changed_routes) }),
    {
        Routes { running: None, config: Some(self.changed_routes.dup()) }
    }

    /// The routes to persist.
    ///
    /// The desired `routes.config` is additive: it adds routes to the existing
    /// ones instead of replacing them. Hence the desired routes are persisted
    /// with the previously saved routes that survive this apply.
    pub fn gen_state_for_save(&self) -> (res: Routes)
        ensures
            res@ == (RoutesView { running: None, config: self@.for_save.config }),
    {
        Routes { running: None, config: self.for_save.config.dup() }
    }

    /// What the apply changes.
    pub fn gen_diff(&self) -> (res: Routes)
        ensures
            res@ == (RoutesView { running: None, config: Some(self@.changed_routes) }),
    {
        self.gen_state_for_apply()
    }

    /// What undoes the apply: the added routes are removed, and the removed
    /// ones are added again.
    pub fn generate_revert(&self) -> (res: Result<Routes, NipartError>)
        ensures
            error::same_result(
                res,
                Ok(RoutesView { running: None, config: Some(all_undone(self@.changed_routes)) }),
            ),
    {
        let ghost views = self.changed_routes.deep_view();
        let mut routes: Vec<RouteEntry> = empty_list();
        let mut i: usize = 0;
        assert(routes.deep_view() =~= all_undone(views).subrange(0, 0));
        while i < self.changed_routes.len()
            invariant
                i <= self.changed_routes.len(),
                views == self.changed_routes.deep_view(),
                routes.deep_view() == all_undone(views).subrange(0, i as int),
            decreases self.changed_routes.len() - i,
        {
            assert(views[i as int] == self.changed_routes[i as int]@);
            let mut rt = self.changed_routes[i].dup();
            if rt.is_absent() {
                rt.state = None;
            } else {
                rt.state = Some(RouteState::Absent);
            }
            push(&mut routes, rt);
            i = i + 1;
            assert(routes.deep_view() =~= all_undone(views).subrange(0, i as int));
        }
        assert(all_undone(views).subrange(0, i as int) =~= all_undone(views));
        Ok(Routes { running: None, config: Some(routes) })
    }
}

/// The names that are not among `dropped`.
pub fn keep_names(names: &Vec<String>, dropped: &Vec<String>) -> (res: Vec<String>)
    ensures
        res.deep_view() == names_kept_from(
            names.deep_view(),
            dropped.deep_view(),
            0,
            Seq::empty(),
        ),
{
    let ghost views = names.deep_view();
    let ghost gone = dropped.deep_view();
    let mut kept: Vec<String> = empty_list();
    let mut i: usize = 0;
    while i < names.len()
        invariant
            i <= names.len(),
            views == names.deep_view(),
            gone == dropped.deep_view(),
            names_kept_from(views, gone, 0, Seq::empty()) == names_kept_from(
                views,
                gone,
                i as int,
                kept.deep_view(),
            ),
        decreases names.len() - i,
    {
        assert(views[i as int] == names[i as int]@);
        if !contains(dropped, &names[i]) {
            push(&mut kept, names[i].dup());
        }
        i = i + 1;
    }
    kept
}

/// What survives of the saved routes: all that are present and not removed,
/// besides what is in the set already, each key once.
proof fn lemma_survivors(
    saved: Seq<RouteEntryView>,
    desired: Seq<RouteEntryView>,
    ifaces: MergedInterfacesView,
    i: int,
    acc: Seq<RouteEntryView>,
    rt: RouteEntryView,
)
    requires
        0 <= i <= saved.len(),
        order::distinct::<RouteEntry>(acc),
    ensures
        ({
            let all = survivors_from(saved, desired, ifaces, i, acc);
            &&& order::distinct::<RouteEntry>(all)
            &&& order::has_key::<RouteEntry>(acc, rt) ==> order::has_key::<RouteEntry>(all, rt)
            &&& acc.contains(rt) ==> all.contains(rt)
            &&& forall|j: int|
                i <= j < saved.len() && !(#[trigger] saved[j]).absent() && !saved_removed(
                    saved[j],
                    desired,
                    ifaces,
                ) ==> order::has_key::<RouteEntry>(all, saved[j])
            &&& all.contains(rt) ==> acc.contains(rt) || (saved.contains(rt) && !rt.absent()
                && !saved_removed(rt, desired, ifaces))
        }),
    decreases saved.len() - i,
{
    if i < saved.len() {
        if saved[i].absent() || saved_removed(saved[i], desired, ifaces) {
            lemma_survivors(saved, desired, ifaces, i + 1, acc, rt);
        } else {
            let next = order::with_item::<RouteEntry>(acc, saved[i]);
            order::law_with_item::<RouteEntry>(acc, saved[i]);
            order::law_with_item_keeps::<RouteEntry>(acc, saved[i], rt);
            lemma_survivors(saved, desired, ifaces, i + 1, next, saved[i]);
            lemma_survivors(saved, desired, ifaces, i + 1, next, rt);
        }
    }
}

/// What is saved of routes is in order and holds every route once: all present
/// desired routes and all saved routes that survive, and no other.
pub proof fn law_routes_to_save(
    desired: RoutesView,
    saved: Option<RoutesView>,
    ifaces: MergedInterfacesView,
    rt: RouteEntryView,
)
    ensures
        ({
            let list = routes_to_save(desired, saved, ifaces).config->0;
            let wanted = route::list_of(desired.config);
            let olds = saved_list(saved);
            &&& order::in_order::<RouteEntry>(list)
            &&& order::distinct::<RouteEntry>(list)
            &&& wanted.contains(rt) && !rt.absent() ==> order::has_key::<RouteEntry>(list, rt)
            &&& olds.contains(rt) && !rt.absent() && !saved_removed(rt, wanted, ifaces)
                ==> order::has_key::<RouteEntry>(list, rt)
            &&& list.contains(rt) ==> !rt.absent() && (wanted.contains(rt) || (olds.contains(rt)
                && !saved_removed(rt, wanted, ifaces)))
        }),
{
    let wanted = route::list_of(desired.config);
    let olds = saved_list(saved);
    let none = Seq::<RouteEntryView>::empty();
    let present = route::present_from(wanted, 0, none);
    let all = survivors_from(olds, wanted, ifaces, 0, present);
    route::law_present(wanted, 0, none, rt);
    lemma_survivors(olds, wanted, ifaces, 0, present, rt);
    order::law_sorted::<RouteEntry>(all);
    order::law_sorted_items::<RouteEntry>(all, rt);
    if wanted.contains(rt) && !rt.absent() {
        let j = wanted.index_of(rt);
        assert(!wanted[j].absent());
    }
    if olds.contains(rt) && !rt.absent() && !saved_removed(rt, wanted, ifaces) {
        let j = olds.index_of(rt);
        assert(!olds[j].absent());
    }
}

/// An absent desired route that matches a saved one forgets it.
pub proof fn law_absent_route_is_forgotten(
    desired: RoutesView,
    saved: Option<RoutesView>,
    ifaces: MergedInterfacesView,
    rt: RouteEntryView,
)
    requires
        removed_by_desired(rt, route::list_of(desired.config), ifaces),
        !route::list_of(desired.config).contains(rt),
    ensures
        !routes_to_save(desired, saved, ifaces).config->0.contains(rt),
{
    law_routes_to_save(desired, saved, ifaces, rt);
}

/// Undoing the change of a route twice is the change itself, as every change
/// either adds or removes a route.
pub proof fn law_undone(rt: RouteEntryView)
    requires
        rt.state is None || rt.absent(),
    ensures
        undone(undone(rt)) == rt,
        undone(rt).absent() == !rt.absent(),
{
}

/// Whether changed routes are kept apart and keep the ones that they held.
pub open spec fn is_grown(before: Seq<RouteEntryView>, after: Seq<RouteEntryView>) -> bool {
    &&& order::distinct::<RouteEntry>(before) ==> order::distinct::<RouteEntry>(after)
    &&& forall|rt: RouteEntryView|
        order::has_key::<RouteEntry>(before, rt) ==> #[trigger] order::has_key::<RouteEntry>(
            after,
            rt,
        )
}

/// Adding a changed route keeps those that are there.
proof fn lemma_grown(before: Seq<RouteEntryView>, rt: RouteEntryView)
    ensures
        is_grown(before, order::with_item::<RouteEntry>(before, rt)),
{
    if order::distinct::<RouteEntry>(before) {
        order::law_with_item::<RouteEntry>(before, rt);
    }
    assert forall|other: RouteEntryView|
        order::has_key::<RouteEntry>(before, other) implies #[trigger] order::has_key::<
        RouteEntry,
    >(order::with_item::<RouteEntry>(before, rt), other) by {
        order::law_with_item_keeps::<RouteEntry>(before, rt, other);
    }
}

/// Every current route that is to go is among the changed ones.
proof fn lemma_current_changed(
    sets: RouteSetsView,
    current: Seq<RouteEntryView>,
    desired: Seq<RouteEntryView>,
    lists: IfaceListsView,
    i: int,
)
    requires
        0 <= i <= current.len(),
    ensures
        ({
            let after = sets.with_current_from(current, desired, lists, i);
            &&& is_grown(sets.changed, after.changed)
            &&& after.ifaces == sets.ifaces
            &&& forall|j: int|
                i <= j < current.len() && !goes_via(#[trigger] current[j], lists.will_delete)
                    && !goes_via(current[j], lists.absent) && route::removed_by(
                    desired,
                    current[j],
                ) ==> order::has_key::<RouteEntry>(
                    after.changed,
                    route::as_absent(current[j]),
                )
        }),
    decreases current.len() - i,
{
    if i < current.len() {
        let next = sets.with_current(current[i], desired, lists);
        let gone = route::as_absent(current[i]);
        lemma_grown(sets.changed, gone);
        order::law_with_item_keeps::<RouteEntry>(sets.changed, gone, gone);
        lemma_current_changed(next, current, desired, lists, i + 1);
    }
}

/// Every present desired route that is not there is among the changed ones.
proof fn lemma_desired_changed(
    sets: RouteSetsView,
    desired: Seq<RouteEntryView>,
    current: Seq<RouteEntryView>,
    lists: IfaceListsView,
    i: int,
)
    requires
        0 <= i <= desired.len(),
    ensures
        ({
            let after = sets.with_desired_from(desired, current, lists, i);
            &&& is_grown(sets.changed, after.changed)
            &&& after.ifaces == sets.ifaces
            &&& forall|j: int|
                i <= j < desired.len() && !(#[trigger] desired[j]).absent() && !route::has_match(
                    current,
                    desired[j],
                ) ==> order::has_key::<RouteEntry>(after.changed, desired[j])
        }),
    decreases desired.len() - i,
{
    if i < desired.len() {
        let next = sets.with_new(desired[i]);
        lemma_grown(sets.changed, desired[i]);
        order::law_with_item_keeps::<RouteEntry>(sets.changed, desired[i], desired[i]);
        if !desired[i].absent() && (goes_via(desired[i], lists.will_delete) || !route::has_match(
            current,
            desired[i],
        )) {
            lemma_desired_changed(next, desired, current, lists, i + 1);
        } else {
            lemma_desired_changed(sets, desired, current, lists, i + 1);
        }
    }
}

/// Saved routes that come back take no change away.
proof fn lemma_saved_changed(
    sets: RouteSetsView,
    saved: Seq<RouteEntryView>,
    lists: IfaceListsView,
    i: int,
)
    requires
        0 <= i <= saved.len(),
    ensures
        is_grown(sets.changed, sets.with_saved_from(saved, lists, i).changed),
    decreases saved.len() - i,
{
    if i < saved.len() {
        lemma_grown(sets.changed, saved[i]);
        if !saved[i].absent() && goes_via(saved[i], lists.will_delete) && !route::has_match(
            sets.changed,
            saved[i],
        ) {
            let next = sets.with_new(saved[i]);
            lemma_saved_changed(
                RouteSetsView {
                    ifaces: with_iface(next.ifaces, saved[i].next_hop_iface->0),
                    ..next
                },
                saved,
                lists,
                i + 1,
            );
        } else {
            lemma_saved_changed(sets, saved, lists, i + 1);
        }
    }
}

/// No route is changed twice; every present desired route that the host does
/// not have is added; and every current static route that an absent desired
/// one matches is removed, unless it goes with its interface anyway.
pub proof fn law_changed_routes(
    desired: RoutesView,
    current: RoutesView,
    saved: Option<RoutesView>,
    ifaces: MergedInterfacesView,
    rt: RouteEntryView,
)
    ensures
        route_sets(desired, current, saved, ifaces) is Ok ==> {
            let changed = route_sets(desired, current, saved, ifaces)->Ok_0.changed;
            let lists = IfaceListsView::of(ifaces);
            let routes = desired_resolved_from(
                route::list_of(desired.config),
                ifaces,
                lists,
                0,
                Seq::empty(),
            )->Ok_0;
            &&& order::distinct::<RouteEntry>(changed)
            &&& routes.contains(rt) && !rt.absent() && !route::has_match(all_routes(current), rt)
                ==> order::has_key::<RouteEntry>(changed, rt)
            &&& route::list_of(current.config).contains(rt) && !goes_via(rt, lists.will_delete)
                && !goes_via(rt, lists.absent)
                && route::removed_by(routes, rt) ==> order::has_key::<RouteEntry>(
                changed,
                route::as_absent(rt),
            )
        },
{
    if route_sets(desired, current, saved, ifaces) is Ok {
        let lists = IfaceListsView::of(ifaces);
        let routes = desired_resolved_from(
            route::list_of(desired.config),
            ifaces,
            lists,
            0,
            Seq::empty(),
        )->Ok_0;
        let names = hops_checked_from(routes, lists, 0, Seq::empty())->Ok_0;
        let olds = route::list_of(current.config);
        let start = RouteSetsView {
            merged: Seq::empty(),
            changed: Seq::empty(),
            ifaces: absent_hops_from(routes, all_routes(current), 0, names),
        };
        lemma_current_changed(start, olds, routes, lists, 0);
        let removed = start.with_current_from(olds, routes, lists, 0);
        lemma_desired_changed(removed, routes, all_routes(current), lists, 0);
        let added = removed.with_desired_from(routes, all_routes(current), lists, 0);
        lemma_saved_changed(added.settled(), saved_list(saved), lists, 0);
        if routes.contains(rt) && !rt.absent() && !route::has_match(all_routes(current), rt) {
            let j = routes.index_of(rt);
            assert(!routes[j].absent());
            assert(order::has_key::<RouteEntry>(added.changed, rt));
        }
        if olds.contains(rt) && !goes_via(rt, lists.will_delete) && !goes_via(rt, lists.absent)
            && route::removed_by(routes, rt) {
            let j = olds.index_of(rt);
            assert(olds[j] == rt);
            assert(!goes_via(olds[j], lists.will_delete));
            assert(order::has_key::<RouteEntry>(removed.changed, route::as_absent(rt)));
            assert(order::has_key::<RouteEntry>(added.changed, route::as_absent(rt)));
        }
    }
}

/// The routes after the apply are in order, each once, and none of the routes
/// that stay or are new is missing. Only saved routes of interfaces that are
/// created again follow.
pub proof fn law_settled(sets: RouteSetsView, rt: RouteEntryView)
    ensures
        order::in_order::<RouteEntry>(sets.settled().merged),
        order::distinct::<RouteEntry>(sets.settled().merged),
        sets.merged.contains(rt) ==> order::has_key::<RouteEntry>(sets.settled().merged, rt),
{
    let sorted = order::sorted::<RouteEntry>(sets.merged);
    order::law_sorted::<RouteEntry>(sets.merged);
    order::law_dedup_distinct::<RouteEntry>(sorted);
    if sets.merged.contains(rt) {
        order::law_sorted_items::<RouteEntry>(sets.merged, rt);
        let i = sorted.index_of(rt);
        <RouteEntry as order::Keyed>::law_total(rt, rt);
        assert(<RouteEntry as order::Keyed>::same_key(sorted[i], rt));
        order::law_dedup::<RouteEntry>(sorted, 0, Seq::empty(), rt);
    }
}

/// A current static route that does not go with its interface is among those
/// that the apply removes, or nothing of it changes: it then stands among the
/// routes after the apply when it has an interface of its next hop.
pub proof fn law_current_route(
    sets: RouteSetsView,
    rt: RouteEntryView,
    desired: Seq<RouteEntryView>,
    lists: IfaceListsView,
)
    requires
        !goes_via(rt, lists.will_delete),
        !goes_via(rt, lists.absent),
    ensures
        ({
            let after = sets.with_current(rt, desired, lists);
            ||| rt.next_hop_iface is Some && after.merged == sets.merged.push(rt) && after.changed
                == sets.changed
            ||| rt.next_hop_iface is None && after == sets && !route::removed_by(desired, rt)
            ||| after.merged == sets.merged && order::has_key::<RouteEntry>(
                after.changed,
                route::as_absent(rt),
            )
        }),
{
    let gone = route::as_absent(rt);
    order::law_with_item_keeps::<RouteEntry>(sets.changed, gone, gone);
}

/// Whether an interface of the kernel that is called `via` there has the
/// property.
pub open spec fn has_hop(
    ifaces: MergedInterfacesView,
    via: Seq<char>,
    p: spec_fn(MergedInterfaceView) -> bool,
) -> bool {
    exists|i: int|
        0 <= i < ifaces.kernel_ifaces.len() && (
        #[trigger] ifaces.kernel_ifaces[i]).1.merged.base.kernel_iface_name == via && p(
            ifaces.kernel_ifaces[i].1,
        )
}

/// Whether the interface of the next hop is deleted, for good or to be created
/// again: the kernel purges its routes by itself.
pub open spec fn is_purged(ifaces: MergedInterfacesView, rt: RouteEntryView) -> bool {
    rt.next_hop_iface is Some && (has_hop(
        ifaces,
        rt.next_hop_iface->0,
        |iface: MergedInterfaceView| iface.merged.base.state is Absent,
    ) || has_hop(
        ifaces,
        rt.next_hop_iface->0,
        |iface: MergedInterfaceView| iface.will_delete,
    ))
}

/// Whether the interface of the next hop is desired, and has the IP stack of
/// the route disabled.
pub open spec fn loses_ip(ifaces: MergedInterfacesView, rt: RouteEntryView) -> bool {
    &&& rt.next_hop_iface is Some
    &&& has_hop(
        ifaces,
        rt.next_hop_iface->0,
        |iface: MergedInterfaceView| iface.desired is Some,
    )
    &&& has_hop(
        ifaces,
        rt.next_hop_iface->0,
        |iface: MergedInterfaceView|
            if rt.ipv6() {
                iface.merged.base.ipv6 is None || iface.merged.base.ipv6->0.enabled == Some(false)
            } else {
                iface.merged.base.ipv4 is None || iface.merged.base.ipv4->0.enabled == Some(false)
            },
    )
}

/// Whether the route is a desired one as it is applied.
pub open spec fn is_wanted(
    desired: RoutesView,
    ifaces: MergedInterfacesView,
    rt: RouteEntryView,
) -> bool {
    exists|i: int|
        0 <= i < route::list_of(desired.config).len() && desired_resolved(
            #[trigger] route::list_of(desired.config)[i],
            ifaces,
            IfaceListsView::of(ifaces),
        ) == Ok::<Option<RouteEntryView>, NipartErrorView>(Some(rt))
}

/// Whether a desired route that is absent matches the route.
pub open spec fn is_unwanted(
    desired: RoutesView,
    ifaces: MergedInterfacesView,
    rt: RouteEntryView,
) -> bool {
    exists|gone: RouteEntryView|
        #[trigger] is_wanted(desired, ifaces, gone) && gone.state == Some(RouteState::Absent)
            && gone.matches_route(rt)
}

/// The flagged interfaces are those that the flag holds of.
proof fn lemma_flagged(
    ifaces: Seq<(Seq<char>, MergedInterfaceView)>,
    flag: IfaceFlag,
    i: int,
    acc: Seq<Seq<char>>,
    name: Seq<char>,
)
    requires
        0 <= i <= ifaces.len(),
    ensures
        flagged_from(ifaces, flag, i, acc).contains(name) <==> acc.contains(name) || exists|j: int|
            i <= j < ifaces.len() && (#[trigger] ifaces[j]).1.merged.base.kernel_iface_name == name
                && has_flag(ifaces[j].1, flag),
    decreases ifaces.len() - i,
{
    if i < ifaces.len() {
        let own = ifaces[i].1.merged.base.kernel_iface_name;
        let next = if has_flag(ifaces[i].1, flag) {
            acc.push(own)
        } else {
            acc
        };
        lemma_flagged(ifaces, flag, i + 1, next, name);
        if has_flag(ifaces[i].1, flag) {
            lemma_pushed(acc, own, name);
        }
    }
}

/// A list with one more item holds what it held and that item.
proof fn lemma_pushed<A>(s: Seq<A>, x: A, y: A)
    ensures
        s.push(x).contains(y) <==> s.contains(y) || x == y,
{
    let t = s.push(x);
    if s.contains(y) {
        assert(t[s.index_of(y)] == y);
    }
    if x == y {
        assert(t[s.len() as int] == y);
    }
    if t.contains(y) && x != y {
        assert(s[t.index_of(y)] == y);
    }
}

/// The lists of interfaces say what routes go by.
proof fn lemma_lists(ifaces: MergedInterfacesView, rt: RouteEntryView)
    ensures
        ({
            let lists = IfaceListsView::of(ifaces);
            &&& is_purged(ifaces, rt) <==> goes_via(rt, lists.will_delete) || goes_via(
                rt,
                lists.absent,
            )
            &&& loses_ip(ifaces, rt) <==> goes_via(rt, lists.desired_ifaces) && lists.ip_off(
                rt,
                rt.next_hop_iface->0,
            )
            &&& rt.next_hop_iface is Some ==> (flagged(ifaces, IfaceFlag::Ignored).contains(
                rt.next_hop_iface->0,
            ) <==> has_hop(
                ifaces,
                rt.next_hop_iface->0,
                |iface: MergedInterfaceView| iface.merged.base.state is Ignore,
            ))
            &&& goes_via(rt, lists.will_delete) <==> rt.next_hop_iface is Some && has_hop(
                ifaces,
                rt.next_hop_iface->0,
                |iface: MergedInterfaceView| iface.will_delete,
            )
        }),
{
    if let Some(via) = rt.next_hop_iface {
        let all = ifaces.kernel_ifaces;
        let none = Seq::<Seq<char>>::empty();
        lemma_flagged(all, IfaceFlag::Absent, 0, none, via);
        lemma_flagged(all, IfaceFlag::Ipv4Disabled, 0, none, via);
        lemma_flagged(all, IfaceFlag::Ipv6Disabled, 0, none, via);
        lemma_flagged(all, IfaceFlag::WillDelete, 0, none, via);
        lemma_flagged(all, IfaceFlag::Desired, 0, none, via);
        lemma_flagged(all, IfaceFlag::Ignored, 0, none, via);
    }
}

/// The resolved desired routes are the desired ones as they are applied.
proof fn lemma_wanted(
    desired: Seq<RouteEntryView>,
    ifaces: MergedInterfacesView,
    lists: IfaceListsView,
    i: int,
    acc: Seq<RouteEntryView>,
    rt: RouteEntryView,
)
    requires
        0 <= i <= desired.len(),
        desired_resolved_from(desired, ifaces, lists, i, acc) is Ok,
    ensures
        desired_resolved_from(desired, ifaces, lists, i, acc)->Ok_0.contains(rt) <==> acc.contains(
            rt,
        ) || exists|j: int|
            i <= j < desired.len() && desired_resolved(#[trigger] desired[j], ifaces, lists)
                == Ok::<Option<RouteEntryView>, NipartErrorView>(Some(rt)),
    decreases desired.len() - i,
{
    if i < desired.len() {
        match desired_resolved(desired[i], ifaces, lists) {
            Ok(Some(own)) => {
                lemma_wanted(desired, ifaces, lists, i + 1, acc.push(own), rt);
                lemma_pushed(acc, own, rt);
            },
            _ => {
                lemma_wanted(desired, ifaces, lists, i + 1, acc, rt);
            },
        }
    }
}

/// Whether a current route goes by the apply.
pub open spec fn is_going(
    rt: RouteEntryView,
    desired: Seq<RouteEntryView>,
    lists: IfaceListsView,
) -> bool {
    &&& !goes_via(rt, lists.will_delete)
    &&& !goes_via(rt, lists.absent)
    &&& route::removed_by(desired, rt) || (goes_via(rt, lists.desired_ifaces) && lists.ip_off(
        rt,
        rt.next_hop_iface->0,
    ))
}

/// Whether a current route through an interface stays.
pub open spec fn is_staying(
    rt: RouteEntryView,
    desired: Seq<RouteEntryView>,
    lists: IfaceListsView,
) -> bool {
    &&& rt.next_hop_iface is Some
    &&& !goes_via(rt, lists.will_delete)
    &&& !goes_via(rt, lists.absent)
    &&& !is_going(rt, desired, lists)
}

/// The current routes that go are marked as absent, those that stay are listed,
/// and no others are.
proof fn lemma_current_exact(
    sets: RouteSetsView,
    current: Seq<RouteEntryView>,
    desired: Seq<RouteEntryView>,
    lists: IfaceListsView,
    i: int,
    rt: RouteEntryView,
)
    requires
        0 <= i <= current.len(),
    ensures
        ({
            let after = sets.with_current_from(current, desired, lists, i);
            &&& is_grown(sets.changed, after.changed)
            &&& after.changed.contains(rt) ==> sets.changed.contains(rt) || exists|j: int|
                i <= j < current.len() && is_going(#[trigger] current[j], desired, lists)
                    && rt == route::as_absent(current[j])
            &&& forall|j: int|
                i <= j < current.len() && is_going(#[trigger] current[j], desired, lists)
                    ==> order::has_key::<RouteEntry>(after.changed, route::as_absent(current[j]))
            &&& after.merged.contains(rt) <==> sets.merged.contains(rt) || exists|j: int|
                i <= j < current.len() && is_staying(#[trigger] current[j], desired, lists) && rt
                    == current[j]
        }),
    decreases current.len() - i,
{
    if i < current.len() {
        let next = sets.with_current(current[i], desired, lists);
        let gone = route::as_absent(current[i]);
        lemma_grown(sets.changed, gone);
        order::law_with_item_keeps::<RouteEntry>(sets.changed, gone, gone);
        order::law_with_item_keeps::<RouteEntry>(sets.changed, gone, rt);
        lemma_pushed(sets.merged, current[i], rt);
        lemma_current_exact(next, current, desired, lists, i + 1, rt);
    }
}

/// Whether a desired route is to be added.
pub open spec fn is_added(
    rt: RouteEntryView,
    current: Seq<RouteEntryView>,
    lists: IfaceListsView,
) -> bool {
    !rt.absent() && (goes_via(rt, lists.will_delete) || !route::has_match(current, rt))
}

/// The desired routes that are not there are added, and no others are.
proof fn lemma_desired_exact(
    sets: RouteSetsView,
    desired: Seq<RouteEntryView>,
    current: Seq<RouteEntryView>,
    lists: IfaceListsView,
    i: int,
    rt: RouteEntryView,
)
    requires
        0 <= i <= desired.len(),
    ensures
        ({
            let after = sets.with_desired_from(desired, current, lists, i);
            &&& is_grown(sets.changed, after.changed)
            &&& after.changed.contains(rt) ==> sets.changed.contains(rt) || exists|j: int|
                i <= j < desired.len() && is_added(#[trigger] desired[j], current, lists) && rt
                    == desired[j]
            &&& forall|j: int|
                i <= j < desired.len() && is_added(#[trigger] desired[j], current, lists)
                    ==> order::has_key::<RouteEntry>(after.changed, desired[j])
            &&& after.merged.contains(rt) <==> sets.merged.contains(rt) || exists|j: int|
                i <= j < desired.len() && is_added(#[trigger] desired[j], current, lists) && rt
                    == desired[j]
        }),
    decreases desired.len() - i,
{
    if i < desired.len() {
        let next = if is_added(desired[i], current, lists) {
            sets.with_new(desired[i])
        } else {
            sets
        };
        lemma_grown(sets.changed, desired[i]);
        order::law_with_item_keeps::<RouteEntry>(sets.changed, desired[i], desired[i]);
        order::law_with_item_keeps::<RouteEntry>(sets.changed, desired[i], rt);
        lemma_pushed(sets.merged, desired[i], rt);
        lemma_desired_exact(next, desired, current, lists, i + 1, rt);
    }
}

/// Whether a saved route may come back.
pub open spec fn is_back(rt: RouteEntryView, lists: IfaceListsView) -> bool {
    !rt.absent() && goes_via(rt, lists.will_delete)
}

/// Only saved routes of interfaces that are created again come back, and they
/// take nothing away.
proof fn lemma_saved_exact(
    sets: RouteSetsView,
    saved: Seq<RouteEntryView>,
    lists: IfaceListsView,
    i: int,
    rt: RouteEntryView,
)
    requires
        0 <= i <= saved.len(),
    ensures
        ({
            let after = sets.with_saved_from(saved, lists, i);
            let back = exists|j: int|
                i <= j < saved.len() && is_back(#[trigger] saved[j], lists) && rt == saved[j];
            &&& is_grown(sets.changed, after.changed)
            &&& after.changed.contains(rt) ==> sets.changed.contains(rt) || back
            &&& sets.merged.contains(rt) ==> after.merged.contains(rt)
            &&& after.merged.contains(rt) ==> sets.merged.contains(rt) || back
        }),
    decreases saved.len() - i,
{
    if i < saved.len() {
        lemma_grown(sets.changed, saved[i]);
        order::law_with_item_keeps::<RouteEntry>(sets.changed, saved[i], rt);
        lemma_pushed(sets.merged, saved[i], rt);
        if is_back(saved[i], lists) && !route::has_match(sets.changed, saved[i]) {
            let next = sets.with_new(saved[i]);
            lemma_saved_exact(
                RouteSetsView {
                    ifaces: with_iface(next.ifaces, saved[i].next_hop_iface->0),
                    ..next
                },
                saved,
                lists,
                i + 1,
                rt,
            );
        } else {
            lemma_saved_exact(sets, saved, lists, i + 1, rt);
        }
    }
}

/// The routes that a map of groups has under a name.
pub open spec fn group_under(
    groups: Seq<(Seq<char>, Seq<RouteEntryView>)>,
    name: Seq<char>,
) -> Seq<RouteEntryView> {
    keymap::lookup(groups, name).unwrap_or(Seq::empty())
}

/// Grouping puts every route under its interface and nowhere else.
proof fn lemma_grouped(
    routes: Seq<RouteEntryView>,
    i: int,
    acc: Seq<(Seq<char>, Seq<RouteEntryView>)>,
    name: Seq<char>,
    rt: RouteEntryView,
)
    requires
        0 <= i <= routes.len(),
        keymap::unique(acc),
    ensures
        ({
            let groups = grouped_from(routes, i, acc);
            &&& keymap::unique(groups)
            &&& group_under(groups, name).contains(rt) <==> group_under(acc, name).contains(rt)
                || exists|j: int|
                i <= j < routes.len() && (#[trigger] routes[j]) == rt && group_of(rt) == Some(name)
        }),
    decreases routes.len() - i,
{
    if i < routes.len() {
        match group_of(routes[i]) {
            Some(via) => {
                let group = group_under(acc, via).push(routes[i]);
                let next = keymap::inserted(acc, via, group);
                keymap::law_inserted(acc, via, group, name);
                lemma_pushed(group_under(acc, via), routes[i], rt);
                lemma_grouped(routes, i + 1, next, name, rt);
            },
            None => {
                lemma_grouped(routes, i + 1, acc, name, rt);
            },
        }
    }
}

/// Dropping names from a map drops their entries and no others.
proof fn lemma_without_keys<V>(
    map: Seq<(Seq<char>, V)>,
    names: Seq<Seq<char>>,
    i: int,
    name: Seq<char>,
)
    requires
        0 <= i <= names.len(),
        keymap::unique(map),
    ensures
        keymap::lookup(without_keys_from(map, names, i), name) == if exists|j: int|
            i <= j < names.len() && (#[trigger] names[j]) == name {
            None
        } else {
            keymap::lookup(map, name)
        },
    decreases names.len() - i,
{
    if i < names.len() {
        let next = keymap::removed(map, names[i]);
        keymap::law_removed(map, names[i], name);
        lemma_without_keys(next, names, i + 1, name);
    }
}

/// Whether a route is absent, or goes to an interface or by its type.
pub open spec fn is_bound(rt: RouteEntryView) -> bool {
    rt.absent() || group_of(rt) is Some
}

/// Valid routes go somewhere.
proof fn lemma_valid_bound(routes: Seq<RouteEntryView>, i: int)
    requires
        0 <= i <= routes.len(),
        route::validated_from(routes, i) is Ok,
    ensures
        forall|j: int| i <= j < routes.len() ==> is_bound(#[trigger] routes[j]),
    decreases routes.len() - i,
{
    if i < routes.len() {
        lemma_valid_bound(routes, i + 1);
    }
}

/// Routes in the tables of their VRFs go where they went.
proof fn lemma_vrf_bound(
    routes: Seq<RouteEntryView>,
    ifaces: MergedInterfacesView,
    i: int,
    acc: Seq<RouteEntryView>,
)
    requires
        0 <= i <= routes.len(),
        route::vrfs_resolved_from(routes, ifaces, i, acc) is Ok,
        forall|j: int| 0 <= j < routes.len() ==> is_bound(#[trigger] routes[j]),
        forall|j: int| 0 <= j < acc.len() ==> is_bound(#[trigger] acc[j]),
    ensures
        ({
            let all = route::vrfs_resolved_from(routes, ifaces, i, acc)->Ok_0;
            forall|j: int| 0 <= j < all.len() ==> is_bound(#[trigger] all[j])
        }),
    decreases routes.len() - i,
{
    if i < routes.len() {
        let rt = route::vrf_resolved(routes[i], ifaces)->Ok_0;
        assert(is_bound(routes[i]));
        assert(is_bound(rt));
        lemma_vrf_bound(routes, ifaces, i + 1, acc.push(rt));
    }
}

/// Prepared desired routes go somewhere.
proof fn lemma_prepared_bound(desired: RoutesView, ifaces: MergedInterfacesView)
    requires
        desired_prepared(desired, ifaces) is Ok,
    ensures
        ({
            let routes = route::list_of(desired_prepared(desired, ifaces)->Ok_0.config);
            forall|j: int| 0 <= j < routes.len() ==> is_bound(#[trigger] routes[j])
        }),
{
    let kept = desired.unignored();
    lemma_valid_bound(route::list_of(kept.config), 0);
    if let Some(routes) = kept.config {
        lemma_vrf_bound(routes, ifaces, 0, Seq::empty());
    }
}

/// A desired route as it is applied goes somewhere.
proof fn lemma_wanted_bound(desired: RoutesView, ifaces: MergedInterfacesView, rt: RouteEntryView)
    requires
        desired_prepared(desired, ifaces) is Ok,
        is_wanted(desired_prepared(desired, ifaces)->Ok_0, ifaces, rt),
    ensures
        is_bound(rt),
{
    lemma_prepared_bound(desired, ifaces);
    let routes = route::list_of(desired_prepared(desired, ifaces)->Ok_0.config);
    let lists = IfaceListsView::of(ifaces);
    let i = choose|i: int|
        0 <= i < routes.len() && desired_resolved(#[trigger] routes[i], ifaces, lists) == Ok::<
            Option<RouteEntryView>,
            NipartErrorView,
        >(Some(rt));
    assert(is_bound(routes[i]));
}

/// Whether the apply removes a current static route: its interface is there
/// afterwards, and a desired route that is absent matches it, or the interface
/// is desired with the IP stack of the route disabled.
pub open spec fn is_removed(
    desired: RoutesView,
    ifaces: MergedInterfacesView,
    rt: RouteEntryView,
) -> bool {
    !is_purged(ifaces, rt) && (is_unwanted(desired, ifaces, rt) || loses_ip(ifaces, rt))
}

/// Whether the apply adds a route: a desired one that the host does not have,
/// or any route of an interface that is created again, be it desired or saved.
pub open spec fn is_new(
    desired: RoutesView,
    current: RoutesView,
    saved: Option<RoutesView>,
    ifaces: MergedInterfacesView,
    rt: RouteEntryView,
) -> bool {
    let recreated = rt.next_hop_iface is Some && has_hop(
        ifaces,
        rt.next_hop_iface->0,
        |iface: MergedInterfaceView| iface.will_delete,
    );
    &&& rt.state != Some(RouteState::Absent)
    &&& {
        ||| is_wanted(desired, ifaces, rt) && (recreated || !(route::has_match(
            route::list_of(current.config),
            rt,
        ) || route::has_match(route::list_of(current.running), rt)))
        ||| saved_list(saved).contains(rt) && recreated
    }
}

/// The sets of routes hold what is removed, what is added and what stays.
proof fn lemma_sets_exact(
    desired: RoutesView,
    current: RoutesView,
    saved: Option<RoutesView>,
    ifaces: MergedInterfacesView,
    rt: RouteEntryView,
)
    requires
        route_sets(desired, current, saved, ifaces) is Ok,
    ensures
        ({
            let sets = route_sets(desired, current, saved, ifaces)->Ok_0;
            let olds = route::list_of(current.config);
            &&& order::distinct::<RouteEntry>(sets.changed)
            &&& sets.changed.contains(rt) && rt.absent() ==> exists|j: int|
                0 <= j < olds.len() && is_removed(desired, ifaces, #[trigger] olds[j]) && rt
                    == route::as_absent(olds[j])
            &&& sets.changed.contains(rt) && !rt.absent() ==> is_new(
                desired,
                current,
                saved,
                ifaces,
                rt,
            )
            &&& olds.contains(rt) && is_removed(desired, ifaces, rt) ==> order::has_key::<
                RouteEntry,
            >(sets.changed, route::as_absent(rt))
            &&& is_wanted(desired, ifaces, rt) && is_new(desired, current, saved, ifaces, rt)
                ==> order::has_key::<RouteEntry>(sets.changed, rt) && order::has_key::<RouteEntry>(
                sets.merged,
                rt,
            )
            &&& olds.contains(rt) && rt.next_hop_iface is Some && !is_purged(ifaces, rt)
                && !is_removed(desired, ifaces, rt) ==> order::has_key::<RouteEntry>(
                sets.merged,
                rt,
            )
            &&& sets.merged.contains(rt) ==> is_new(desired, current, saved, ifaces, rt) || (
            olds.contains(rt) && rt.next_hop_iface is Some && !is_purged(ifaces, rt)
                && !is_removed(desired, ifaces, rt))
        }),
{
    let lists = IfaceListsView::of(ifaces);
    let none = Seq::<RouteEntryView>::empty();
    let wanted = route::list_of(desired.config);
    let routes = desired_resolved_from(wanted, ifaces, lists, 0, none)->Ok_0;
    let names = hops_checked_from(routes, lists, 0, Seq::empty())->Ok_0;
    let olds = route::list_of(current.config);
    let all = all_routes(current);
    let news = saved_list(saved);
    let start = RouteSetsView {
        merged: Seq::empty(),
        changed: Seq::empty(),
        ifaces: absent_hops_from(routes, all, 0, names),
    };
    let removed = start.with_current_from(olds, routes, lists, 0);
    let added = removed.with_desired_from(routes, all, lists, 0);
    let settled = added.settled();
    let sets = settled.with_saved_from(news, lists, 0);
    assert(route_sets(desired, current, saved, ifaces)->Ok_0 == sets);
    lemma_current_exact(start, olds, routes, lists, 0, rt);
    lemma_desired_exact(removed, routes, all, lists, 0, rt);
    lemma_saved_exact(settled, news, lists, 0, rt);
    assert forall|other: RouteEntryView| #[trigger]
        is_wanted(desired, ifaces, other) == routes.contains(other) by {
        lemma_wanted(wanted, ifaces, lists, 0, none, other);
    }
    assert forall|other: RouteEntryView|
        is_unwanted(desired, ifaces, other) == #[trigger] route::removed_by(routes, other) by {
        if is_unwanted(desired, ifaces, other) {
            let gone = choose|gone: RouteEntryView|
                #[trigger] is_wanted(desired, ifaces, gone) && gone.state == Some(
                    RouteState::Absent,
                ) && gone.matches_route(other);
            let j = routes.index_of(gone);
            assert(routes[j].absent() && routes[j].matches_route(other));
        }
        if route::removed_by(routes, other) {
            let j = choose|j: int|
                0 <= j < routes.len() && (#[trigger] routes[j]).absent()
                    && routes[j].matches_route(other);
            assert(routes.contains(routes[j]));
            assert(is_wanted(desired, ifaces, routes[j]));
        }
    }
    assert forall|other: RouteEntryView| #[trigger]
        is_removed(desired, ifaces, other) == is_going(other, routes, lists) by {
        lemma_lists(ifaces, other);
        assert(is_unwanted(desired, ifaces, other) == route::removed_by(routes, other));
    }
    lemma_lists(ifaces, rt);
    assert(route::has_match(all, rt) <==> route::has_match(olds, rt) || route::has_match(
        route::list_of(current.running),
        rt,
    )) by {
        let running = route::list_of(current.running);
        if route::has_match(olds, rt) {
            let j = choose|j: int| 0 <= j < olds.len() && rt.matches_route(#[trigger] olds[j]);
            assert(all[j] == olds[j]);
        }
        if route::has_match(running, rt) {
            let j = choose|j: int|
                0 <= j < running.len() && rt.matches_route(#[trigger] running[j]);
            assert(all[olds.len() + j] == running[j]);
        }
        if route::has_match(all, rt) {
            let j = choose|j: int| 0 <= j < all.len() && rt.matches_route(#[trigger] all[j]);
            if j < olds.len() {
                assert(all[j] == olds[j]);
            } else {
                assert(all[j] == running[j - olds.len()]);
            }
        }
    }
    // What is changed.
    if removed.changed.contains(rt) {
        let j = choose|j: int|
            0 <= j < olds.len() && is_going(#[trigger] olds[j], routes, lists) && rt
                == route::as_absent(olds[j]);
        assert(is_removed(desired, ifaces, olds[j]));
    }
    if olds.contains(rt) {
        let j = olds.index_of(rt);
        assert(olds[j] == rt);
        if is_removed(desired, ifaces, rt) {
            assert(is_going(olds[j], routes, lists));
            assert(order::has_key::<RouteEntry>(removed.changed, route::as_absent(rt)));
            assert(order::has_key::<RouteEntry>(added.changed, route::as_absent(rt)));
            assert(order::has_key::<RouteEntry>(sets.changed, route::as_absent(rt)));
        }
    }
    if routes.contains(rt) && is_added(rt, all, lists) {
        let j = routes.index_of(rt);
        assert(is_added(routes[j], all, lists));
        assert(order::has_key::<RouteEntry>(added.changed, rt));
        assert(order::has_key::<RouteEntry>(sets.changed, rt));
    }
    // What is there afterwards.
    let sorted = order::sorted::<RouteEntry>(added.merged);
    law_settled(added, rt);
    if order::has_key::<RouteEntry>(settled.merged, rt) {
        let j = choose|j: int|
            0 <= j < settled.merged.len() && <RouteEntry as order::Keyed>::same_key(
                #[trigger] settled.merged[j],
                rt,
            );
        let kept = settled.merged[j];
        lemma_saved_exact(settled, news, lists, 0, kept);
        assert(settled.merged.contains(kept));
        let k = sets.merged.index_of(kept);
        assert(<RouteEntry as order::Keyed>::same_key(sets.merged[k], rt));
    }
    if settled.merged.contains(rt) {
        order::law_dedup_items::<RouteEntry>(sorted, 0, none, rt);
        order::law_sorted_items::<RouteEntry>(added.merged, rt);
    }
}

/// Nothing but what has to change does. A route that the apply removes is a
/// current static one whose interface stays, and which a desired route that is
/// absent matches or whose interface is desired with the IP stack of the route
/// disabled; each such route is removed. A route that the apply adds is a
/// desired one that the host does not have, or one of an interface that is
/// created again; each such desired route is added. No route is changed twice.
pub proof fn law_changes(
    desired: RoutesView,
    current: RoutesView,
    saved: Option<RoutesView>,
    ifaces: MergedInterfacesView,
    rt: RouteEntryView,
)
    requires
        merged_routes(desired, current, saved, ifaces) is Ok,
    ensures
        ({
            let all = merged_routes(desired, current, saved, ifaces)->Ok_0;
            let olds = route::list_of(current.config);
            let removes = exists|old_rt: RouteEntryView|
                olds.contains(old_rt) && #[trigger] is_removed(all.desired, ifaces, old_rt) && rt
                    == (RouteEntryView { state: Some(RouteState::Absent), ..old_rt });
            let adds = is_new(all.desired, current, saved, ifaces, rt);
            &&& order::distinct::<RouteEntry>(all.changed_routes)
            &&& all.changed_routes.contains(rt) ==> removes || adds
            &&& removes ==> order::has_key::<RouteEntry>(all.changed_routes, rt)
            &&& adds && is_wanted(all.desired, ifaces, rt) ==> order::has_key::<RouteEntry>(
                all.changed_routes,
                rt,
            )
        }),
{
    let all = merged_routes(desired, current, saved, ifaces)->Ok_0;
    let olds = route::list_of(current.config);
    lemma_sets_exact(all.desired, current, saved, ifaces, rt);
    if all.changed_routes.contains(rt) && rt.absent() {
        let j = choose|j: int|
            0 <= j < olds.len() && is_removed(all.desired, ifaces, #[trigger] olds[j]) && rt
                == route::as_absent(olds[j]);
        assert(olds.contains(olds[j]));
    }
    if exists|old_rt: RouteEntryView|
        olds.contains(old_rt) && #[trigger] is_removed(all.desired, ifaces, old_rt) && rt == (
        RouteEntryView { state: Some(RouteState::Absent), ..old_rt }) {
        let old_rt = choose|old_rt: RouteEntryView|
            olds.contains(old_rt) && #[trigger] is_removed(all.desired, ifaces, old_rt) && rt == (
            RouteEntryView { state: Some(RouteState::Absent), ..old_rt });
        lemma_sets_exact(all.desired, current, saved, ifaces, old_rt);
    }
}

/// Every current static route through an interface that the apply neither
/// deletes nor removes the route from stays: it is not marked as absent, and
/// is among the routes of its interface after the apply, unless the interface
/// is to be ignored.
pub proof fn law_routes_stay(
    desired: RoutesView,
    current: RoutesView,
    saved: Option<RoutesView>,
    ifaces: MergedInterfacesView,
    rt: RouteEntryView,
)
    requires
        merged_routes(desired, current, saved, ifaces) is Ok,
        route::list_of(current.config).contains(rt),
        rt.next_hop_iface is Some,
        !is_purged(ifaces, rt),
        !is_unwanted(merged_routes(desired, current, saved, ifaces)->Ok_0.desired, ifaces, rt),
        !loses_ip(ifaces, rt),
    ensures
        ({
            let all = merged_routes(desired, current, saved, ifaces)->Ok_0;
            let via = rt.next_hop_iface->0;
            &&& !all.changed_routes.contains(
                RouteEntryView { state: Some(RouteState::Absent), ..rt },
            )
            &&& !has_hop(
                ifaces,
                via,
                |iface: MergedInterfaceView| iface.merged.base.state is Ignore,
            ) ==> keymap::lookup(all.merged, via) is Some && order::has_key::<RouteEntry>(
                keymap::lookup(all.merged, via)->0,
                rt,
            )
        }),
{
    let all = merged_routes(desired, current, saved, ifaces)->Ok_0;
    let olds = route::list_of(current.config);
    let via = rt.next_hop_iface->0;
    let gone = route::as_absent(rt);
    let sets = route_sets(all.desired, current, saved, ifaces)->Ok_0;
    lemma_sets_exact(all.desired, current, saved, ifaces, rt);
    lemma_sets_exact(all.desired, current, saved, ifaces, gone);
    if all.changed_routes.contains(gone) {
        let j = choose|j: int|
            0 <= j < olds.len() && is_removed(all.desired, ifaces, #[trigger] olds[j]) && gone
                == route::as_absent(olds[j]);
        lemma_same_fate(all.desired, ifaces, olds[j], rt);
    }
    lemma_lists(ifaces, rt);
    let ignored = flagged(ifaces, IfaceFlag::Ignored);
    if !ignored.contains(via) {
        let j = choose|j: int|
            0 <= j < sets.merged.len() && <RouteEntry as order::Keyed>::same_key(
                #[trigger] sets.merged[j],
                rt,
            );
        let kept = sets.merged[j];
        lemma_sets_exact(all.desired, current, saved, ifaces, kept);
        if is_new(all.desired, current, saved, ifaces, kept) && is_wanted(
            all.desired,
            ifaces,
            kept,
        ) {
            lemma_wanted_bound(desired, ifaces, kept);
        }
        assert(group_of(kept) == Some(via));
        let none = Seq::<(Seq<char>, Seq<RouteEntryView>)>::empty();
        let groups = grouped_from(sets.merged, 0, none);
        lemma_grouped(sets.merged, 0, none, via, kept);
        lemma_without_keys(groups, ignored, 0, via);
        assert(forall|j: int| 0 <= j < ignored.len() ==> (#[trigger] ignored[j]) != via) by {
            assert forall|j: int| 0 <= j < ignored.len() implies (#[trigger] ignored[j]) != via by {
                assert(ignored.contains(ignored[j]));
            }
        }
        let group = group_under(groups, via);
        let k = group.index_of(kept);
        assert(<RouteEntry as order::Keyed>::same_key(group[k], rt));
    }
}

/// Whether a current route is removed does not depend on how it is marked.
proof fn lemma_same_fate(
    desired: RoutesView,
    ifaces: MergedInterfacesView,
    a: RouteEntryView,
    b: RouteEntryView,
)
    requires
        route::as_absent(a) == route::as_absent(b),
    ensures
        is_removed(desired, ifaces, a) == is_removed(desired, ifaces, b),
{
    lemma_lists(ifaces, a);
    lemma_lists(ifaces, b);
    assert forall|gone: RouteEntryView| #[trigger] is_wanted(desired, ifaces, gone) implies
        gone.matches_route(a) == gone.matches_route(b) by {
    }
}

/// What the routes after the apply hold under an interface goes through it, and
/// is a current static route that stays or one that the apply adds.
pub proof fn law_routes_after(
    desired: RoutesView,
    current: RoutesView,
    saved: Option<RoutesView>,
    ifaces: MergedInterfacesView,
    name: Seq<char>,
    rt: RouteEntryView,
)
    requires
        merged_routes(desired, current, saved, ifaces) is Ok,
        ({
            let all = merged_routes(desired, current, saved, ifaces)->Ok_0;
            keymap::lookup(all.merged, name) is Some && keymap::lookup(
                all.merged,
                name,
            )->0.contains(rt)
        }),
    ensures
        ({
            let all = merged_routes(desired, current, saved, ifaces)->Ok_0;
            &&& rt.next_hop_iface == Some(name) || (rt.next_hop_iface is None
                && rt.route_type is Some && name == LOOPBACK_IFACE_NAME@)
            &&& is_new(all.desired, current, saved, ifaces, rt) || (route::list_of(
                current.config,
            ).contains(rt) && rt.next_hop_iface is Some && !is_purged(ifaces, rt) && !is_unwanted(
                all.desired,
                ifaces,
                rt,
            ) && !loses_ip(ifaces, rt))
        }),
{
    let all = merged_routes(desired, current, saved, ifaces)->Ok_0;
    let sets = route_sets(all.desired, current, saved, ifaces)->Ok_0;
    let ignored = flagged(ifaces, IfaceFlag::Ignored);
    let none = Seq::<(Seq<char>, Seq<RouteEntryView>)>::empty();
    let groups = grouped_from(sets.merged, 0, none);
    lemma_grouped(sets.merged, 0, none, name, rt);
    lemma_without_keys(groups, ignored, 0, name);
    assert(group_under(groups, name).contains(rt));
    lemma_sets_exact(all.desired, current, saved, ifaces, rt);
}

/// Routes that are not to be ignored are among the routes.
proof fn lemma_unignored(routes: Seq<RouteEntryView>, i: int, acc: Seq<RouteEntryView>)
    requires
        0 <= i <= routes.len(),
        forall|j: int| 0 <= j < acc.len() ==> (#[trigger] acc[j]).state != Some(RouteState::Ignore),
    ensures
        ({
            let kept = route::unignored_from(routes, i, acc);
            forall|j: int|
                0 <= j < kept.len() ==> (#[trigger] kept[j]).state != Some(RouteState::Ignore)
        }),
    decreases routes.len() - i,
{
    if i < routes.len() {
        if routes[i].state == Some(RouteState::Ignore) {
            lemma_unignored(routes, i + 1, acc);
        } else {
            lemma_unignored(routes, i + 1, acc.push(routes[i]));
        }
    }
}

/// Routes in the tables of their VRFs are marked as they were.
proof fn lemma_vrf_unignored(
    routes: Seq<RouteEntryView>,
    ifaces: MergedInterfacesView,
    i: int,
    acc: Seq<RouteEntryView>,
)
    requires
        0 <= i <= routes.len(),
        route::vrfs_resolved_from(routes, ifaces, i, acc) is Ok,
        forall|j: int|
            0 <= j < routes.len() ==> (#[trigger] routes[j]).state != Some(RouteState::Ignore),
        forall|j: int| 0 <= j < acc.len() ==> (#[trigger] acc[j]).state != Some(RouteState::Ignore),
    ensures
        ({
            let all = route::vrfs_resolved_from(routes, ifaces, i, acc)->Ok_0;
            forall|j: int|
                0 <= j < all.len() ==> (#[trigger] all[j]).state != Some(RouteState::Ignore)
        }),
    decreases routes.len() - i,
{
    if i < routes.len() {
        let rt = route::vrf_resolved(routes[i], ifaces)->Ok_0;
        lemma_vrf_unignored(routes, ifaces, i + 1, acc.push(rt));
    }
}

/// A desired route as it is applied is either to be there or absent: neither
/// one to be ignored nor one that is only saved is applied.
pub proof fn law_wanted_state(
    desired: RoutesView,
    ifaces: MergedInterfacesView,
    rt: RouteEntryView,
)
    requires
        desired_prepared(desired, ifaces) is Ok,
        is_wanted(desired_prepared(desired, ifaces)->Ok_0, ifaces, rt),
    ensures
        rt.state is None || rt.state == Some(RouteState::Absent),
{
    let kept = desired.unignored();
    if let Some(routes) = desired.config {
        lemma_unignored(routes, 0, Seq::empty());
        lemma_vrf_unignored(kept.config->0, ifaces, 0, Seq::empty());
    }
    let routes = route::list_of(desired_prepared(desired, ifaces)->Ok_0.config);
    let lists = IfaceListsView::of(ifaces);
    let i = choose|i: int|
        0 <= i < routes.len() && desired_resolved(#[trigger] routes[i], ifaces, lists) == Ok::<
            Option<RouteEntryView>,
            NipartErrorView,
        >(Some(rt));
    assert(routes[i].state != Some(RouteState::Ignore));
}

/// A desired route is applied with its destination and gateway in canonical
/// form, through the name in the kernel of its interface, and otherwise as it
/// is desired. Only the flag that lets a gateway be on the link may be added:
/// to a route that is to be there, leaves it undefined and has an IPv4 gateway
/// on an interface with DHCPv4.
pub proof fn law_resolved(
    desired: RouteEntryView,
    ifaces: MergedInterfacesView,
    rt: RouteEntryView,
)
    requires
        desired_resolved(desired, ifaces, IfaceListsView::of(ifaces)) == Ok::<
            Option<RouteEntryView>,
            NipartErrorView,
        >(Some(rt)),
    ensures
        desired.sanitized() is Ok,
        rt.destination == desired.sanitized()->Ok_0.destination,
        rt.next_hop_addr == desired.sanitized()->Ok_0.next_hop_addr,
        rt.next_hop_iface is Some == desired.next_hop_iface is Some,
        desired.next_hop_iface is Some ==> rt.next_hop_iface == ifaces.next_hop(
            desired.next_hop_iface->0,
        ),
        rt == (RouteEntryView {
            destination: rt.destination,
            next_hop_addr: rt.next_hop_addr,
            next_hop_iface: rt.next_hop_iface,
            onlink: rt.onlink,
            ..desired
        }),
        rt.onlink == desired.onlink || rt.onlink == Some(true),
        rt.onlink != desired.onlink <==> {
            &&& desired.onlink is None
            &&& desired.state != Some(RouteState::Absent)
            &&& !rt.ipv6()
            &&& rt.next_hop_addr is Some
            &&& rt.next_hop_iface is Some
            &&& has_hop(
                ifaces,
                rt.next_hop_iface->0,
                |iface: MergedInterfaceView|
                    iface.merged.base.ipv4 is Some && iface.merged.base.ipv4->0.dhcp == Some(true),
            )
        },
{
    if let Some(via) = rt.next_hop_iface {
        lemma_flagged(
            ifaces.kernel_ifaces,
            IfaceFlag::Dhcpv4Enabled,
            0,
            Seq::empty(),
            via,
        );
    }
}

/// The routes of a host after changes: without those that are marked as absent,
/// and with the others.
pub open spec fn host_after(
    host: Set<RouteEntryView>,
    changes: Seq<RouteEntryView>,
) -> Set<RouteEntryView> {
    Set::new(
        |rt: RouteEntryView|
            rt.state is None && (changes.contains(rt) || (host.contains(rt) && !changes.contains(
                RouteEntryView { state: Some(RouteState::Absent), ..rt },
            ))),
    )
}

/// What undoes the changes holds every route that the changes add as absent and
/// every route that they remove as one to be there, and no other.
pub proof fn law_undo_of_changes(changes: Seq<RouteEntryView>, rt: RouteEntryView)
    requires
        forall|i: int|
            0 <= i < changes.len() ==> (#[trigger] changes[i]).state is None || changes[i].state
                == Some(RouteState::Absent),
    ensures
        all_undone(changes).contains(rt) <==> {
            ||| rt.state is None && changes.contains(
                RouteEntryView { state: Some(RouteState::Absent), ..rt },
            )
            ||| rt.state == Some(RouteState::Absent) && changes.contains(
                RouteEntryView { state: None, ..rt },
            )
        },
{
    let undo = all_undone(changes);
    let gone = RouteEntryView { state: Some(RouteState::Absent), ..rt };
    let there = RouteEntryView { state: None, ..rt };
    if undo.contains(rt) {
        let i = undo.index_of(rt);
        assert(changes[i] == gone || changes[i] == there);
        assert(changes.contains(changes[i]));
    }
    if rt.state is None && changes.contains(gone) {
        assert(undo[changes.index_of(gone)] == rt);
    }
    if rt.state == Some(RouteState::Absent) && changes.contains(there) {
        assert(undo[changes.index_of(there)] == rt);
    }
}

/// The changes of a merge are undone on a host with the current static routes:
/// after the changes and what undoes them, it has the routes from before. No
/// interface may be created again, as the kernel purges its routes.
pub proof fn law_host_restored(
    desired: RoutesView,
    current: RoutesView,
    saved: Option<RoutesView>,
    ifaces: MergedInterfacesView,
    host: Set<RouteEntryView>,
)
    requires
        merged_routes(desired, current, saved, ifaces) is Ok,
        forall|i: int|
            0 <= i < ifaces.kernel_ifaces.len() ==> !(
            #[trigger] ifaces.kernel_ifaces[i]).1.will_delete,
        forall|rt: RouteEntryView|
            #[trigger] host.contains(rt) <==> route::list_of(current.config).contains(rt),
        forall|rt: RouteEntryView| #[trigger] host.contains(rt) ==> rt.state is None,
    ensures
        ({
            let changes = merged_routes(desired, current, saved, ifaces)->Ok_0.changed_routes;
            host_after(host_after(host, changes), all_undone(changes)) == host
        }),
{
    let all = merged_routes(desired, current, saved, ifaces)->Ok_0;
    let changes = all.changed_routes;
    let olds = route::list_of(current.config);
    assert forall|rt: RouteEntryView| #[trigger] changes.contains(rt) implies {
        &&& rt.state is None ==> !host.contains(rt)
        &&& rt.state is Some ==> rt.state == Some(RouteState::Absent) && host.contains(
            RouteEntryView { state: None, ..rt },
        )
    } by {
        law_changes(desired, current, saved, ifaces, rt);
        if is_new(all.desired, current, saved, ifaces, rt) {
            law_wanted_state(desired, ifaces, rt);
            if host.contains(rt) {
                let j = olds.index_of(rt);
                assert(rt.matches_route(olds[j]));
            }
        } else {
            let old_rt = choose|old_rt: RouteEntryView|
                olds.contains(old_rt) && #[trigger] is_removed(all.desired, ifaces, old_rt)
                    && rt == (RouteEntryView { state: Some(RouteState::Absent), ..old_rt });
            assert(host.contains(old_rt));
            assert(old_rt == RouteEntryView { state: None, ..rt });
        }
    }
    assert forall|i: int| 0 <= i < changes.len() implies (#[trigger] changes[i]).state is None
        || changes[i].state == Some(RouteState::Absent) by {
        assert(changes.contains(changes[i]));
    }
    let later = host_after(host, changes);
    let back = host_after(later, all_undone(changes));
    assert forall|rt: RouteEntryView| back.contains(rt) == host.contains(rt) by {
        let gone = RouteEntryView { state: Some(RouteState::Absent), ..rt };
        law_undo_of_changes(changes, rt);
        law_undo_of_changes(changes, gone);
        assert(changes.contains(rt) ==> rt.state is None ==> !host.contains(rt));
        assert(changes.contains(gone) ==> host.contains(RouteEntryView { state: None, ..gone }));
        if rt.state is None {
            assert(rt == RouteEntryView { state: None, ..gone });
        }
    }
    assert(back =~= host);
}

/// Where the flag holds of no interface, none is flagged.
pub proof fn lemma_none_flagged(
    ifaces: Seq<(Seq<char>, MergedInterfaceView)>,
    flag: IfaceFlag,
    i: int,
)
    requires
        0 <= i <= ifaces.len(),
        forall|j: int| i <= j < ifaces.len() ==> !has_flag((#[trigger] ifaces[j]).1, flag),
    ensures
        flagged_from(ifaces, flag, i, Seq::empty()) == Seq::<Seq<char>>::empty(),
    decreases ifaces.len() - i,
{
    if i < ifaces.len() {
        lemma_none_flagged(ifaces, flag, i + 1);
    }
}

/// The names with one more are those and that one.
proof fn lemma_with_iface(names: Seq<Seq<char>>, name: Seq<char>, other: Seq<char>)
    ensures
        with_iface(names, name).contains(other) <==> names.contains(other) || name == other,
{
    lemma_pushed(names, name, other);
}

/// The interfaces that present routes change are those that they go through,
/// none of which is deleted or has the IP stack of the route disabled.
proof fn lemma_hops_checked(
    routes: Seq<RouteEntryView>,
    lists: IfaceListsView,
    i: int,
    names: Seq<Seq<char>>,
    name: Seq<char>,
)
    requires
        0 <= i <= routes.len(),
        hops_checked_from(routes, lists, i, names) is Ok,
    ensures
        hops_checked_from(routes, lists, i, names)->Ok_0.contains(name) <==> names.contains(name)
            || exists|j: int|
            i <= j < routes.len() && !(#[trigger] routes[j]).absent() && group_of(routes[j])
                == Some(name),
        forall|j: int|
            i <= j < routes.len() && !(#[trigger] routes[j]).absent()
                && routes[j].next_hop_iface is Some ==> !lists.absent.contains(
                routes[j].next_hop_iface->0,
            ) && !lists.ip_off(routes[j], routes[j].next_hop_iface->0),
    decreases routes.len() - i,
{
    if i < routes.len() {
        let next = hop_checked(routes[i], lists, names)->Ok_0;
        if let Some(own) = group_of(routes[i]) {
            lemma_with_iface(names, own, name);
        }
        lemma_hops_checked(routes, lists, i + 1, next, name);
    }
}

/// The interfaces of the current routes that a route matches.
proof fn lemma_matched_hops(
    rt: RouteEntryView,
    current: Seq<RouteEntryView>,
    i: int,
    names: Seq<Seq<char>>,
    name: Seq<char>,
)
    requires
        0 <= i <= current.len(),
    ensures
        matched_hops_from(rt, current, i, names).contains(name) <==> names.contains(name)
            || exists|j: int|
            i <= j < current.len() && rt.matches_route(#[trigger] current[j]) && route::text_or(
                current[j].next_hop_iface,
                LOOPBACK_IFACE_NAME@,
            ) == name,
    decreases current.len() - i,
{
    if i < current.len() {
        let own = route::text_or(current[i].next_hop_iface, LOOPBACK_IFACE_NAME@);
        lemma_with_iface(names, own, name);
        if rt.matches_route(current[i]) {
            lemma_matched_hops(rt, current, i + 1, with_iface(names, own), name);
        } else {
            lemma_matched_hops(rt, current, i + 1, names, name);
        }
    }
}

/// Whether an absent route of the list matches a current one of the interface.
pub open spec fn is_matched_on(
    rt: RouteEntryView,
    current: Seq<RouteEntryView>,
    name: Seq<char>,
) -> bool {
    exists|j: int|
        0 <= j < current.len() && rt.matches_route(#[trigger] current[j]) && (
        current[j].next_hop_iface == Some(name) || (current[j].next_hop_iface is None && name
            == LOOPBACK_IFACE_NAME@))
}

/// The interfaces that lose routes are those of the current routes that absent
/// routes match.
proof fn lemma_absent_hops(
    routes: Seq<RouteEntryView>,
    current: Seq<RouteEntryView>,
    i: int,
    names: Seq<Seq<char>>,
    name: Seq<char>,
)
    requires
        0 <= i <= routes.len(),
    ensures
        absent_hops_from(routes, current, i, names).contains(name) <==> names.contains(name)
            || exists|j: int|
            i <= j < routes.len() && (#[trigger] routes[j]).absent() && is_matched_on(
                routes[j],
                current,
                name,
            ),
    decreases routes.len() - i,
{
    if i < routes.len() {
        lemma_matched_hops(routes[i], current, 0, names, name);
        let next = if routes[i].absent() {
            matched_hops_from(routes[i], current, 0, names)
        } else {
            names
        };
        lemma_absent_hops(routes, current, i + 1, next, name);
        if routes[i].absent() {
            assert(next.contains(name) == (names.contains(name) || is_matched_on(
                routes[i],
                current,
                name,
            )));
        }
    }
}

/// Saved routes that come back change their interfaces, and leave no other one
/// out.
proof fn lemma_saved_hops(
    sets: RouteSetsView,
    saved: Seq<RouteEntryView>,
    lists: IfaceListsView,
    i: int,
    name: Seq<char>,
)
    requires
        0 <= i <= saved.len(),
    ensures
        ({
            let after = sets.with_saved_from(saved, lists, i);
            &&& sets.ifaces.contains(name) ==> after.ifaces.contains(name)
            &&& after.ifaces.contains(name) ==> sets.ifaces.contains(name) || exists|j: int|
                i <= j < saved.len() && is_back(#[trigger] saved[j], lists)
                    && saved[j].next_hop_iface == Some(name)
        }),
    decreases saved.len() - i,
{
    if i < saved.len() {
        if is_back(saved[i], lists) && !route::has_match(sets.changed, saved[i]) {
            let next = sets.with_new(saved[i]);
            lemma_with_iface(next.ifaces, saved[i].next_hop_iface->0, name);
            lemma_saved_hops(
                RouteSetsView {
                    ifaces: with_iface(next.ifaces, saved[i].next_hop_iface->0),
                    ..next
                },
                saved,
                lists,
                i + 1,
                name,
            );
        } else {
            lemma_saved_hops(sets, saved, lists, i + 1, name);
        }
    }
}

/// The kept names are those that are not dropped.
proof fn lemma_names_kept(
    names: Seq<Seq<char>>,
    dropped: Seq<Seq<char>>,
    i: int,
    acc: Seq<Seq<char>>,
    name: Seq<char>,
)
    requires
        0 <= i <= names.len(),
    ensures
        names_kept_from(names, dropped, i, acc).contains(name) <==> acc.contains(name) || (
        !dropped.contains(name) && exists|j: int|
            i <= j < names.len() && (#[trigger] names[j]) == name),
    decreases names.len() - i,
{
    if i < names.len() {
        lemma_pushed(acc, names[i], name);
        if dropped.contains(names[i]) {
            lemma_names_kept(names, dropped, i + 1, acc, name);
        } else {
            lemma_names_kept(names, dropped, i + 1, acc.push(names[i]), name);
        }
    }
}

/// A merge succeeds only when no route that is to be there goes through an
/// interface that is deleted or has the IP stack of the route disabled.
pub proof fn law_hops_usable(
    desired: RoutesView,
    current: RoutesView,
    saved: Option<RoutesView>,
    ifaces: MergedInterfacesView,
    rt: RouteEntryView,
)
    requires
        merged_routes(desired, current, saved, ifaces) is Ok,
        is_wanted(merged_routes(desired, current, saved, ifaces)->Ok_0.desired, ifaces, rt),
        rt.state != Some(RouteState::Absent),
        rt.next_hop_iface is Some,
    ensures
        !has_hop(
            ifaces,
            rt.next_hop_iface->0,
            |iface: MergedInterfaceView| iface.merged.base.state is Absent,
        ),
        !has_hop(
            ifaces,
            rt.next_hop_iface->0,
            |iface: MergedInterfaceView|
                if rt.ipv6() {
                    iface.merged.base.ipv6 is None || iface.merged.base.ipv6->0.enabled == Some(
                        false,
                    )
                } else {
                    iface.merged.base.ipv4 is None || iface.merged.base.ipv4->0.enabled == Some(
                        false,
                    )
                },
        ),
{
    let all = merged_routes(desired, current, saved, ifaces)->Ok_0;
    let lists = IfaceListsView::of(ifaces);
    let none = Seq::<RouteEntryView>::empty();
    let wanted = route::list_of(all.desired.config);
    let routes = desired_resolved_from(wanted, ifaces, lists, 0, none)->Ok_0;
    let via = rt.next_hop_iface->0;
    lemma_wanted(wanted, ifaces, lists, 0, none, rt);
    lemma_hops_checked(routes, lists, 0, Seq::empty(), via);
    let j = routes.index_of(rt);
    assert(!routes[j].absent() && routes[j].next_hop_iface is Some);
    lemma_flagged(ifaces.kernel_ifaces, IfaceFlag::Absent, 0, Seq::empty(), via);
    lemma_flagged(ifaces.kernel_ifaces, IfaceFlag::Ipv4Disabled, 0, Seq::empty(), via);
    lemma_flagged(ifaces.kernel_ifaces, IfaceFlag::Ipv6Disabled, 0, Seq::empty(), via);
}

/// Whether a desired route changes the routes of an interface: one that is to be
/// there and goes through it, or an absent one that matches a current route of
/// it. Routes without a next hop are those of the loopback interface.
pub open spec fn touches(rt: RouteEntryView, current: RoutesView, name: Seq<char>) -> bool {
    if rt.state == Some(RouteState::Absent) {
        is_matched_on(rt, route::list_of(current.config) + route::list_of(current.running), name)
    } else {
        rt.next_hop_iface == Some(name) || (rt.next_hop_iface is None && rt.route_type is Some
            && name == LOOPBACK_IFACE_NAME@)
    }
}

/// The interfaces whose routes change are those that a desired route touches,
/// but for interfaces to be ignored; only interfaces that saved routes come back
/// to may be among them besides.
pub proof fn law_changed_ifaces(
    desired: RoutesView,
    current: RoutesView,
    saved: Option<RoutesView>,
    ifaces: MergedInterfacesView,
    name: Seq<char>,
)
    requires
        merged_routes(desired, current, saved, ifaces) is Ok,
    ensures
        ({
            let all = merged_routes(desired, current, saved, ifaces)->Ok_0;
            let touched = exists|rt: RouteEntryView|
                #[trigger] is_wanted(all.desired, ifaces, rt) && touches(rt, current, name);
            let ignored = has_hop(
                ifaces,
                name,
                |iface: MergedInterfaceView| iface.merged.base.state is Ignore,
            );
            let back = exists|i: int|
                0 <= i < saved_list(saved).len() && (
                #[trigger] saved_list(saved)[i]).next_hop_iface == Some(name)
                    && saved_list(saved)[i].state != Some(RouteState::Absent) && has_hop(
                    ifaces,
                    name,
                    |iface: MergedInterfaceView| iface.will_delete,
                );
            &&& touched && !ignored ==> all.route_changed_ifaces.contains(name)
            &&& all.route_changed_ifaces.contains(name) ==> !ignored && (touched || back)
        }),
{
    let all = merged_routes(desired, current, saved, ifaces)->Ok_0;
    let lists = IfaceListsView::of(ifaces);
    let none = Seq::<RouteEntryView>::empty();
    let wanted = route::list_of(all.desired.config);
    let routes = desired_resolved_from(wanted, ifaces, lists, 0, none)->Ok_0;
    let names = hops_checked_from(routes, lists, 0, Seq::empty())->Ok_0;
    let currents = all_routes(current);
    let start = RouteSetsView {
        merged: Seq::empty(),
        changed: Seq::empty(),
        ifaces: absent_hops_from(routes, currents, 0, names),
    };
    let olds = route::list_of(current.config);
    let removed = start.with_current_from(olds, routes, lists, 0);
    let added = removed.with_desired_from(routes, currents, lists, 0);
    let news = saved_list(saved);
    let sets = added.settled().with_saved_from(news, lists, 0);
    let ignored = flagged(ifaces, IfaceFlag::Ignored);
    lemma_hops_checked(routes, lists, 0, Seq::empty(), name);
    lemma_absent_hops(routes, currents, 0, names, name);
    lemma_current_changed(start, olds, routes, lists, 0);
    lemma_desired_changed(removed, routes, currents, lists, 0);
    lemma_saved_hops(added.settled(), news, lists, 0, name);
    lemma_names_kept(sets.ifaces, ignored, 0, Seq::empty(), name);
    lemma_flagged(ifaces.kernel_ifaces, IfaceFlag::Ignored, 0, Seq::empty(), name);
    lemma_flagged(ifaces.kernel_ifaces, IfaceFlag::WillDelete, 0, Seq::empty(), name);
    assert(sets.ifaces.contains(name) <==> exists|j: int|
        0 <= j < sets.ifaces.len() && (#[trigger] sets.ifaces[j]) == name);
    assert forall|rt: RouteEntryView| #[trigger]
        is_wanted(all.desired, ifaces, rt) == routes.contains(rt) by {
        lemma_wanted(wanted, ifaces, lists, 0, none, rt);
    }
    if exists|rt: RouteEntryView|
        #[trigger] is_wanted(all.desired, ifaces, rt) && touches(rt, current, name) {
        let rt = choose|rt: RouteEntryView|
            #[trigger] is_wanted(all.desired, ifaces, rt) && touches(rt, current, name);
        let j = routes.index_of(rt);
        assert(routes[j] == rt);
        assert(start.ifaces.contains(name));
    }
    if start.ifaces.contains(name) {
        let j = choose|j: int|
            0 <= j < routes.len() && touches(#[trigger] routes[j], current, name);
        assert(0 <= j < routes.len() && touches(routes[j], current, name)) by {
            if names.contains(name) {
                let k = choose|k: int|
                    0 <= k < routes.len() && !(#[trigger] routes[k]).absent() && group_of(
                        routes[k],
                    ) == Some(name);
                assert(touches(routes[k], current, name));
            } else {
                let k = choose|k: int|
                    0 <= k < routes.len() && (#[trigger] routes[k]).absent() && is_matched_on(
                        routes[k],
                        currents,
                        name,
                    );
                assert(touches(routes[k], current, name));
            }
        }
        assert(routes.contains(routes[j]));
        assert(is_wanted(all.desired, ifaces, routes[j]));
    }
}

/// A saved route is forgotten exactly when a desired route that is absent
/// matches it, both through the names in the kernel of their interfaces, or
/// when its interface is to be ignored, is deleted, or is desired with the IP
/// stack of the route turned off by what is desired of it.
pub proof fn law_saved_removed(
    rt: RouteEntryView,
    desired: Seq<RouteEntryView>,
    ifaces: MergedInterfacesView,
)
    ensures
        saved_removed(rt, desired, ifaces) <==> {
            let via = if rt.next_hop_iface is Some && ifaces.next_hop(
                rt.next_hop_iface->0,
            ) is Some {
                ifaces.next_hop(rt.next_hop_iface->0)
            } else {
                rt.next_hop_iface
            };
            let named = RouteEntryView { next_hop_iface: via, ..rt };
            ||| exists|i: int|
                0 <= i < desired.len() && (#[trigger] desired[i]).state == Some(RouteState::Absent)
                    && hop_resolved(desired[i], ifaces).matches_route(named)
            ||| via is Some && {
                let found = keymap::lookup(ifaces.kernel_ifaces, via->0);
                ||| has_hop(
                    ifaces,
                    via->0,
                    |iface: MergedInterfaceView| iface.merged.base.state is Ignore,
                )
                ||| has_hop(
                    ifaces,
                    via->0,
                    |iface: MergedInterfaceView| iface.merged.base.state is Absent,
                )
                ||| {
                    &&& has_hop(
                        ifaces,
                        via->0,
                        |iface: MergedInterfaceView| iface.desired is Some,
                    )
                    &&& found is Some && found->0.desired is Some
                    &&& if rt.ipv6() {
                        let ipv6 = found->0.desired->0.base.ipv6;
                        ipv6 is Some && ipv6->0.enabled == Some(false)
                    } else {
                        let ipv4 = found->0.desired->0.base.ipv4;
                        ipv4 is Some && ipv4->0.enabled == Some(false)
                    }
                }
            }
        },
{
    if let Some(via) = hop_resolved(rt, ifaces).next_hop_iface {
        lemma_flagged(ifaces.kernel_ifaces, IfaceFlag::Ignored, 0, Seq::empty(), via);
        lemma_flagged(ifaces.kernel_ifaces, IfaceFlag::Absent, 0, Seq::empty(), via);
        lemma_flagged(ifaces.kernel_ifaces, IfaceFlag::Desired, 0, Seq::empty(), via);
    }
}

/// The names of the interfaces that are only saved.
proof fn lemma_saved_only(
    ifaces: Seq<(Seq<char>, MergedInterfaceView)>,
    i: int,
    acc: Seq<Seq<char>>,
    name: Seq<char>,
)
    requires
        0 <= i <= ifaces.len(),
    ensures
        saved_only_from(ifaces, i, acc).contains(name) <==> acc.contains(name) || exists|j: int|
            i <= j < ifaces.len() && (#[trigger] ifaces[j]).1.merged.base.state is Saved && (
            ifaces[j].1.merged.base.kernel_iface_name == name || ifaces[j].1.merged.base.name
                == name),
    decreases ifaces.len() - i,
{
    if i < ifaces.len() {
        if ifaces[i].1.merged.base.state is Saved {
            let base = ifaces[i].1.merged.base;
            let next = acc.push(base.kernel_iface_name);
            lemma_saved_only(ifaces, i + 1, next.push(base.name), name);
            lemma_pushed(acc, base.kernel_iface_name, name);
            lemma_pushed(next, base.name, name);
        } else {
            lemma_saved_only(ifaces, i + 1, acc, name);
        }
    }
}

/// A valid desired route is held back exactly when it is only to be saved, when
/// the interface that it names is only saved, or when that is a WIFI
/// configuration which no device is connected to the network of.
pub proof fn law_held_route(desired: RouteEntryView, ifaces: MergedInterfacesView)
    requires
        desired.sanitized() is Ok,
    ensures
        desired_resolved(desired, ifaces, IfaceListsView::of(ifaces)) == Ok::<
            Option<RouteEntryView>,
            NipartErrorView,
        >(None) <==> {
            ||| desired.state == Some(RouteState::Saved)
            ||| desired.next_hop_iface is Some && {
                let via = desired.next_hop_iface->0;
                ||| exists|j: int|
                    0 <= j < ifaces.kernel_ifaces.len() && (
                    #[trigger] ifaces.kernel_ifaces[j]).1.merged.base.state is Saved && (
                    ifaces.kernel_ifaces[j].1.merged.base.kernel_iface_name == via
                        || ifaces.kernel_ifaces[j].1.merged.base.name == via)
                ||| ifaces.next_hop(via) is None && ifaces.pending_wifi(via)
            }
        },
{
    if let Some(via) = desired.next_hop_iface {
        lemma_saved_only(ifaces.kernel_ifaces, 0, Seq::empty(), via);
    }
}

} // verus!
