//! The state of the network: desired, current and saved, merged.

use vstd::prelude::*;

use crate::error::{NipartError, NipartErrorView};
use crate::iface::InterfaceType;
use crate::ifaces::InterfacesView;
use crate::merged_dns::{MergedDnsResolver, MergedDnsResolverView};
use crate::merged_iface::MergedInterfaceView;
use crate::merged_ifaces::{MergedInterfaces, MergedInterfacesView, Part};
use crate::merged_route::{
    IfaceFlag, MergedRoutes, MergedRoutesView, keep_names, list_flagged,
};
use crate::merged_route_rule::{MergedRouteRules, MergedRouteRulesView, retain_rules};
use crate::net_state::{NetworkState, NetworkStateView};
use crate::route::{RouteEntry, RouteEntryView, RouteState, RoutesView};
use crate::route_rule::{RouteRuleEntry, RouteRuleEntryView, RouteRuleState, RouteRulesView};
use crate::value::{Value, empty_list, or_dup, push};
use crate::wait_online::{NipartWaitOnline, NipartWaitOnlineView};
use crate::{
    error, ifaces, keymap, merge_ifaces, merged_dns, merged_route, merged_route_rule, order, route,
    route_rule, value,
};

verus! {

/// How a state is applied.
#[derive(Clone, Debug, PartialEq, Eq)]
pub struct NipartApplyOption {
    /// Whether every desired interface is applied in full even where the host
    /// shows it already.
    pub force: bool,
}

/// What a [NipartApplyOption] stands for.
#[verifier::ext_equal]
pub struct NipartApplyOptionView {
    pub force: bool,
}

impl View for NipartApplyOption {
    type V = NipartApplyOptionView;

    open spec fn view(&self) -> NipartApplyOptionView {
        NipartApplyOptionView {
            force: self.force.deep_view(),
        }
    }
}

impl DeepView for NipartApplyOption {
    type V = NipartApplyOptionView;

    open spec fn deep_view(&self) -> NipartApplyOptionView {
        self@
    }
}

impl Value for NipartApplyOption {
    fn dup(&self) -> (res: Self) {
        NipartApplyOption {
            force: self.force.dup(),
        }
    }

    fn same(&self, other: &Self) -> (res: bool) {
        self.force.same(&other.force)
    }
}

/// What an apply does.
#[derive(Clone, Debug, PartialEq, Eq)]
pub struct MergedNetworkState {
    pub version: Option<u32>,
    pub description: Option<String>,
    pub ifaces: MergedInterfaces,
    pub routes: MergedRoutes,
    pub route_rules: MergedRouteRules,
    pub dns: MergedDnsResolver,
    pub wait_online: NipartWaitOnline,
    pub option: NipartApplyOption,
    pub desired: NetworkState,
    /// The description to persist: the desired one, else the one saved before.
    pub description_for_save: Option<String>,
    /// What to persist of when to be online: as desired, else as saved before.
    pub wait_online_for_save: Option<NipartWaitOnline>,
}

/// What a [MergedNetworkState] stands for.
#[verifier::ext_equal]
pub struct MergedNetworkStateView {
    pub version: Option<u32>,
    pub description: Option<Seq<char>>,
    pub ifaces: MergedInterfacesView,
    pub routes: MergedRoutesView,
    pub route_rules: MergedRouteRulesView,
    pub dns: MergedDnsResolverView,
    pub wait_online: NipartWaitOnlineView,
    pub option: NipartApplyOptionView,
    pub desired: NetworkStateView,
    pub description_for_save: Option<Seq<char>>,
    pub wait_online_for_save: Option<NipartWaitOnlineView>,
}

impl View for MergedNetworkState {
    type V = MergedNetworkStateView;

    open spec fn view(&self) -> MergedNetworkStateView {
        MergedNetworkStateView {
            version: self.version.deep_view(),
            description: self.description.deep_view(),
            ifaces: self.ifaces.deep_view(),
            routes: self.routes.deep_view(),
            route_rules: self.route_rules.deep_view(),
            dns: self.dns.deep_view(),
            wait_online: self.wait_online.deep_view(),
            option: self.option.deep_view(),
            desired: self.desired.deep_view(),
            description_for_save: self.description_for_save.deep_view(),
            wait_online_for_save: self.wait_online_for_save.deep_view(),
        }
    }
}

impl DeepView for MergedNetworkState {
    type V = MergedNetworkStateView;

    open spec fn deep_view(&self) -> MergedNetworkStateView {
        self@
    }
}

impl Value for MergedNetworkState {
    fn dup(&self) -> (res: Self) {
        MergedNetworkState {
            version: self.version.dup(),
            description: self.description.dup(),
            ifaces: self.ifaces.dup(),
            routes: self.routes.dup(),
            route_rules: self.route_rules.dup(),
            dns: self.dns.dup(),
            wait_online: self.wait_online.dup(),
            option: self.option.dup(),
            desired: self.desired.dup(),
            description_for_save: self.description_for_save.dup(),
            wait_online_for_save: self.wait_online_for_save.dup(),
        }
    }

    fn same(&self, other: &Self) -> (res: bool) {
        self.version.same(&other.version) && self.description.same(&other.description) && self.ifaces.same(&other.ifaces) && self.routes.same(&other.routes) && self.route_rules.same(&other.route_rules) && self.dns.same(&other.dns) && self.wait_online.same(&other.wait_online) && self.option.same(&other.option) && self.desired.same(&other.desired) && self.description_for_save.same(&other.description_for_save) && self.wait_online_for_save.same(&other.wait_online_for_save)
    }
}

/// The interfaces of a saved state, if there is one.
pub open spec fn saved_ifaces(saved: Option<NetworkStateView>) -> Option<InterfacesView> {
    match saved {
        Some(saved) => Some(saved.ifaces),
        None => None,
    }
}

/// The routes of a saved state, if there is one.
pub open spec fn saved_routes(saved: Option<NetworkStateView>) -> Option<RoutesView> {
    match saved {
        Some(saved) => Some(saved.routes),
        None => None,
    }
}

/// The routing rules of a saved state, if there is one.
pub open spec fn saved_rules(saved: Option<NetworkStateView>) -> Option<RouteRulesView> {
    match saved {
        Some(saved) => Some(saved.route_rules),
        None => None,
    }
}

/// Whether the priorities of interfaces and of routing rules fit their types.
pub open spec fn has_room(
    desired: NetworkStateView,
    current: NetworkStateView,
    saved: Option<NetworkStateView>,
) -> bool {
    &&& merge_ifaces::has_room(desired.ifaces, current.ifaces, saved_ifaces(saved))
    &&& merged_route_rule::priority_room(desired.route_rules, current.route_rules)
}

/// What [MergedNetworkState::new] returns.
pub open spec fn merged_state(
    desired: NetworkStateView,
    current: NetworkStateView,
    saved: Option<NetworkStateView>,
    option: NipartApplyOptionView,
) -> Result<MergedNetworkStateView, NipartErrorView> {
    match merge_ifaces::merged(
        desired.ifaces,
        current.ifaces,
        saved_ifaces(saved),
        option.force,
    ) {
        Err(e) => Err(e),
        Ok(ifaces) => match merged_route::merged_routes(
            desired.routes,
            current.routes,
            saved_routes(saved),
            ifaces,
        ) {
            Err(e) => Err(e),
            Ok(routes) => match merged_route_rule::merged_rules(
                desired.route_rules,
                current.route_rules,
                saved_rules(saved),
            ) {
                Err(e) => Err(e),
                Ok(route_rules) => {
                    let ignored = merged_route::flagged(ifaces, IfaceFlag::Ignored);
                    Ok(
                        MergedNetworkStateView {
                            version: desired.version,
                            description: desired.description,
                            ifaces,
                            routes,
                            route_rules: if ignored.len() == 0 {
                                route_rules
                            } else {
                                route_rules.without_ifaces(ignored)
                            },
                            dns: merged_dns::merged_dns(
                                desired.dns_resolver,
                                current.dns_resolver,
                                match saved {
                                    Some(saved) => Some(saved.dns_resolver),
                                    None => None,
                                },
                            ),
                            wait_online: value::or(
                                desired.wait_online,
                                current.wait_online,
                            ).unwrap_or(NipartWaitOnlineView::default_wait()),
                            option,
                            desired,
                            description_for_save: match saved {
                                Some(saved) => value::or(desired.description, saved.description),
                                None => desired.description,
                            },
                            wait_online_for_save: match saved {
                                Some(saved) => value::or(desired.wait_online, saved.wait_online),
                                None => desired.wait_online,
                            },
                        },
                    )
                },
            },
        },
    }
}

/// The key of a merged interface.
pub open spec fn merged_key(iface: MergedInterfaceView) -> (Seq<char>, InterfaceType) {
    (
        if iface.merged.base.iface_type.userspace() {
            iface.merged.base.name
        } else {
            iface.merged.base.kernel_iface_name
        },
        iface.merged.base.iface_type,
    )
}

/// Whether the interface is to be brought up before its condition is met.
pub open spec fn is_held(iface: MergedInterfaceView) -> bool {
    iface.for_apply is Some && iface.merged.base.state is Up && !iface.ready
}

/// `acc` with the keys of the interfaces from `i` on that are held back.
pub open spec fn held_from(
    list: Seq<MergedInterfaceView>,
    i: int,
    acc: Seq<(Seq<char>, InterfaceType)>,
) -> Seq<(Seq<char>, InterfaceType)>
    decreases list.len() - i,
{
    if i < 0 || i >= list.len() {
        acc
    } else if is_held(list[i]) {
        held_from(list, i + 1, acc.push(merged_key(list[i])))
    } else {
        held_from(list, i + 1, acc)
    }
}

/// `acc` with the routes from `i` on that do not leave through the interface.
pub open spec fn not_via_from(
    routes: Seq<RouteEntryView>,
    name: Seq<char>,
    i: int,
    acc: Seq<RouteEntryView>,
) -> Seq<RouteEntryView>
    decreases routes.len() - i,
{
    if i < 0 || i >= routes.len() {
        acc
    } else if routes[i].next_hop_iface == Some(name) {
        not_via_from(routes, name, i + 1, acc)
    } else {
        not_via_from(routes, name, i + 1, acc.push(routes[i]))
    }
}

impl MergedNetworkStateView {
    /// Without an interface and what goes through it.
    pub open spec fn without(self, key: (Seq<char>, InterfaceType)) -> MergedNetworkStateView {
        if key.1.userspace() {
            MergedNetworkStateView {
                ifaces: MergedInterfacesView {
                    user_ifaces: keymap::removed(self.ifaces.user_ifaces, key),
                    ..self.ifaces
                },
                ..self
            }
        } else {
            let names = seq![key.0];
            MergedNetworkStateView {
                ifaces: MergedInterfacesView {
                    kernel_ifaces: keymap::removed(self.ifaces.kernel_ifaces, key.0),
                    ..self.ifaces
                },
                routes: MergedRoutesView {
                    route_changed_ifaces: merged_route::names_kept_from(
                        self.routes.route_changed_ifaces,
                        names,
                        0,
                        Seq::empty(),
                    ),
                    changed_routes: not_via_from(
                        self.routes.changed_routes,
                        key.0,
                        0,
                        Seq::empty(),
                    ),
                    desired: RoutesView {
                        config: match self.routes.desired.config {
                            Some(routes) => Some(not_via_from(routes, key.0, 0, Seq::empty())),
                            None => None,
                        },
                        ..self.routes.desired
                    },
                    ..self.routes
                },
                route_rules: MergedRouteRulesView {
                    changed_rules: merged_route_rule::not_from_ifaces(
                        self.route_rules.changed_rules,
                        names,
                        0,
                        Seq::empty(),
                    ),
                    desired: self.route_rules.desired.without_ifaces(names),
                    ..self.route_rules
                },
                ..self
            }
        }
    }

    /// Without the interfaces from `i` on and what goes through them.
    pub open spec fn without_from(
        self,
        keys: Seq<(Seq<char>, InterfaceType)>,
        i: int,
    ) -> MergedNetworkStateView
        decreases keys.len() - i,
    {
        if i < 0 || i >= keys.len() {
            self
        } else {
            self.without(keys[i]).without_from(keys, i + 1)
        }
    }

    /// What the apply changes.
    pub open spec fn for_apply(self) -> NetworkStateView {
        NetworkStateView {
            version: self.version,
            description: self.description,
            ifaces: self.ifaces.parts(Part::Apply),
            routes: RoutesView { running: None, config: Some(self.routes.changed_routes) },
            route_rules: merged_route_rule::defined_rules(self.route_rules.changed_rules),
            dns_resolver: self.dns.for_apply(),
            wait_online: self.desired.wait_online,
        }
    }

    /// What is persisted.
    pub open spec fn for_save(self) -> NetworkStateView {
        NetworkStateView {
            version: self.version,
            description: self.description_for_save,
            ifaces: self.ifaces.parts(Part::Save),
            routes: RoutesView { running: None, config: self.routes.for_save.config },
            route_rules: self.route_rules.for_save,
            dns_resolver: self.dns.for_save(),
            wait_online: self.wait_online_for_save,
        }
    }

    /// What the apply changes, as a state of its own.
    pub open spec fn diff(self) -> NetworkStateView {
        NetworkStateView {
            wait_online: if self.wait_online == NipartWaitOnlineView::default_wait() {
                None
            } else {
                Some(self.wait_online)
            },
            ..self.for_apply()
        }
    }

    /// Whether the host shows what is desired.
    pub open spec fn verified(self, current: NetworkStateView) -> Result<(), NipartErrorView> {
        match merge_ifaces::ifaces_verified_from(
            self.ifaces.to_verify(),
            current.ifaces.veth_unified(),
            0,
        ) {
            Err(e) => Err(e),
            Ok(()) => self.route_rules.verified(current.route_rules),
        }
    }

    /// What undoes the apply.
    pub open spec fn revert(self) -> NetworkStateView {
        NetworkStateView {
            ifaces: merge_ifaces::undone_from(self.ifaces.all(), 0, InterfacesView::none()),
            routes: RoutesView {
                running: None,
                config: Some(merged_route::all_undone(self.routes.changed_routes)),
            },
            route_rules: self.route_rules.reverted(),
            ..NetworkStateView::undefined()
        }
    }
}

/// The routes that do not leave through the interface.
fn retain_routes(routes: &Vec<RouteEntry>, name: &String) -> (res: Vec<RouteEntry>)
    ensures
        res.deep_view() == not_via_from(routes.deep_view(), name@, 0, Seq::empty()),
{
    let ghost views = routes.deep_view();
    let hop = Some(name.dup());
    let mut res: Vec<RouteEntry> = empty_list();
    let mut i: usize = 0;
    while i < routes.len()
        invariant
            i <= routes.len(),
            views == routes.deep_view(),
            hop.deep_view() == Some(name@),
            not_via_from(views, name@, 0, Seq::empty()) == not_via_from(
                views,
                name@,
                i as int,
                res.deep_view(),
            ),
        decreases routes.len() - i,
    {
        assert(views[i as int] == routes[i as int]@);
        if !routes[i].next_hop_iface.same(&hop) {
            push(&mut res, routes[i].dup());
        }
        i = i + 1;
    }
    res
}

/// A list of one name.
fn one_name(name: &String) -> (res: Vec<String>)
    ensures
        res.deep_view() == seq![name@],
{
    let mut res: Vec<String> = empty_list();
    push(&mut res, name.dup());
    assert(res.deep_view() =~= seq![name@]);
    res
}

impl MergedRoutes {
    /// Drops what leaves through the interface.
    fn remove_iface(&mut self, name: &String)
        ensures
            final(self)@ == (MergedRoutesView {
                route_changed_ifaces: merged_route::names_kept_from(
                    old(self)@.route_changed_ifaces,
                    seq![name@],
                    0,
                    Seq::empty(),
                ),
                changed_routes: not_via_from(
                    old(self)@.changed_routes,
                    name@,
                    0,
                    Seq::empty(),
                ),
                desired: RoutesView {
                    config: match old(self)@.desired.config {
                        Some(routes) => Some(not_via_from(routes, name@, 0, Seq::empty())),
                        None => None,
                    },
                    ..old(self)@.desired
                },
                ..old(self)@
            }),
    {
        self.route_changed_ifaces = keep_names(&self.route_changed_ifaces, &one_name(name));
        self.changed_routes = retain_routes(&self.changed_routes, name);
        if let Some(routes) = &self.desired.config {
            let kept = retain_routes(routes, name);
            self.desired.config = Some(kept);
        }
    }
}

impl MergedRouteRules {
    /// Drops what comes in from the interface.
    fn remove_iface(&mut self, name: &String)
        ensures
            final(self)@ == (MergedRouteRulesView {
                changed_rules: merged_route_rule::not_from_ifaces(
                    old(self)@.changed_rules,
                    seq![name@],
                    0,
                    Seq::empty(),
                ),
                desired: old(self)@.desired.without_ifaces(seq![name@]),
                ..old(self)@
            }),
    {
        let names = one_name(name);
        self.changed_rules = retain_rules(&self.changed_rules, &names);
        if let Some(rules) = &self.desired.config {
            let kept = retain_rules(rules, &names);
            self.desired.config = Some(kept);
        }
    }
}

impl NipartApplyOptionView {
    /// Nothing special.
    pub open spec fn plain() -> NipartApplyOptionView {
        NipartApplyOptionView { force: false }
    }
}

impl Default for NipartApplyOption {
    fn default() -> (res: Self)
        ensures
            res@ == NipartApplyOptionView::plain(),
    {
        NipartApplyOption { force: false }
    }
}

impl MergedNetworkState {
    /// Merges the desired, the current and the saved state.
    pub fn new(
        desired: NetworkState,
        current: NetworkState,
        saved_config: Option<NetworkState>,
        option: NipartApplyOption,
    ) -> (res: Result<Self, NipartError>)
        requires
            has_room(desired@, current@, saved_config.deep_view()),
        ensures
            error::same_result(
                res,
                merged_state(desired@, current@, saved_config.deep_view(), option@),
            ),
    {
        let (ifaces, routes, rules, dns) = match &saved_config {
            Some(saved) => (
                Some(saved.ifaces.dup()),
                Some(saved.routes.dup()),
                Some(saved.route_rules.dup()),
                Some(saved.dns_resolver.dup()),
            ),
            None => (None, None, None, None),
        };
        let merged_ifaces = match MergedInterfaces::new_with_force(
            desired.ifaces.dup(),
            current.ifaces,
            ifaces,
            option.force,
        ) {
            Ok(merged_ifaces) => merged_ifaces,
            Err(e) => {
                return Err(e);
            },
        };
        let merged_routes = match MergedRoutes::new(
            desired.routes.dup(),
            current.routes,
            routes,
            &merged_ifaces,
        ) {
            Ok(merged_routes) => merged_routes,
            Err(e) => {
                return Err(e);
            },
        };
        let mut merged_route_rules = match MergedRouteRules::new(
            desired.route_rules.dup(),
            current.route_rules,
            rules,
        ) {
            Ok(merged_route_rules) => merged_route_rules,
            Err(e) => {
                return Err(e);
            },
        };
        let ignored_ifaces = list_flagged(&merged_ifaces, IfaceFlag::Ignored);
        if !ignored_ifaces.is_empty() {
            merged_route_rules.remove_rules_to_ignored_ifaces(&ignored_ifaces);
        }
        let dns = match MergedDnsResolver::new(
            desired.dns_resolver.dup(),
            current.dns_resolver,
            dns,
        ) {
            Ok(dns) => dns,
            Err(e) => {
                return Err(e);
            },
        };
        let wait_online = match or_dup(&desired.wait_online, &current.wait_online) {
            Some(wait_online) => wait_online,
            None => NipartWaitOnline::default(),
        };
        let (description_for_save, wait_online_for_save) = match &saved_config {
            Some(saved) => (
                or_dup(&desired.description, &saved.description),
                or_dup(&desired.wait_online, &saved.wait_online),
            ),
            None => (desired.description.dup(), desired.wait_online.dup()),
        };
        Ok(
            MergedNetworkState {
                version: desired.version,
                description: desired.description.dup(),
                ifaces: merged_ifaces,
                routes: merged_routes,
                route_rules: merged_route_rules,
                dns,
                wait_online,
                option,
                desired,
                description_for_save,
                wait_online_for_save,
            },
        )
    }

    /// Whether the host shows what is desired.
    pub fn verify(&self, current: &NetworkState) -> (res: Result<(), NipartError>)
        ensures
            error::same_result(res, self@.verified(current@)),
    {
        if let Err(e) = self.ifaces.verify(&current.ifaces) {
            return Err(e);
        }
        self.route_rules.verify(&current.route_rules)
    }

    /// Generate a NetworkState with desired and impact changes only.
    pub fn gen_state_for_apply(&self) -> (res: NetworkState)
        ensures
            res@ == self@.for_apply(),
    {
        NetworkState {
            version: self.version,
            description: self.description.dup(),
            ifaces: self.ifaces.gen_state_for_apply(),
            routes: self.routes.gen_state_for_apply(),
            route_rules: self.route_rules.gen_state_for_apply(),
            dns_resolver: self.dns.gen_state_for_apply(),
            wait_online: self.desired.wait_online.dup(),
        }
    }

    /// Generate a NetworkState combined with desired, impacted and previous
    /// stored state.
    pub fn gen_state_for_save(&self) -> (res: NetworkState)
        ensures
            res@ == self@.for_save(),
    {
        NetworkState {
            version: self.version,
            description: self.description_for_save.dup(),
            ifaces: self.ifaces.gen_state_for_save(),
            routes: self.routes.gen_state_for_save(),
            route_rules: self.route_rules.gen_state_for_save(),
            dns_resolver: self.dns.gen_state_for_save(),
            wait_online: self.wait_online_for_save.dup(),
        }
    }

    /// Replaces every secret of the interfaces.
    pub fn hide_secrets(&mut self)
        ensures
            final(self)@ == (MergedNetworkStateView {
                ifaces: old(self)@.ifaces.secrets_hidden(),
                ..old(self)@
            }),
    {
        self.ifaces.hide_secrets();
    }

    /// The keys of the interfaces that are held back.
    fn list_held(&self) -> (res: Vec<(String, InterfaceType)>)
        ensures
            res.deep_view() == held_from(self@.ifaces.all(), 0, Seq::empty()),
    {
        let list = self.ifaces.iter();
        let ghost views = list.deep_view();
        let mut keys: Vec<(String, InterfaceType)> = empty_list();
        let mut i: usize = 0;
        while i < list.len()
            invariant
                i <= list.len(),
                views == list.deep_view(),
                held_from(views, 0, Seq::empty()) == held_from(views, i as int, keys.deep_view()),
            decreases list.len() - i,
        {
            let merged_iface = list[i];
            assert(views[i as int] == merged_iface@);
            if merged_iface.for_apply.is_some() && merged_iface.merged.is_up()
                && !merged_iface.can_bring_up() {
                let name = if merged_iface.is_userspace() {
                    merged_iface.merged.base.name.dup()
                } else {
                    merged_iface.merged.base.kernel_iface_name.dup()
                };
                push(&mut keys, (name, merged_iface.iface_type()));
            }
            i = i + 1;
        }
        keys
    }

    /// Retains the interfaces which can be brought up.
    pub fn remove_conditional_activation(&mut self)
        ensures
            final(self)@ == old(self)@.without_from(
                held_from(old(self)@.ifaces.all(), 0, Seq::empty()),
                0,
            ),
    {
        let keys = self.list_held();
        let ghost views = keys.deep_view();
        let mut i: usize = 0;
        while i < keys.len()
            invariant
                i <= keys.len(),
                views == keys.deep_view(),
                old(self)@.without_from(views, 0) == self@.without_from(views, i as int),
            decreases keys.len() - i,
        {
            assert(views[i as int] == keys[i as int].deep_view());
            let name = &keys[i].0;
            if keys[i].1.is_userspace() {
                self.ifaces.user_ifaces.remove(&keys[i]);
            } else {
                self.routes.remove_iface(name);
                self.route_rules.remove_iface(name);
                self.ifaces.kernel_ifaces.remove(name);
            }
            i = i + 1;
        }
    }

    /// What the apply changes.
    pub fn gen_diff(&self) -> (res: Result<NetworkState, NipartError>)
        ensures
            error::same_result(res, Ok(self@.diff())),
    {
        let ifaces = match self.ifaces.gen_diff() {
            Ok(ifaces) => ifaces,
            Err(e) => {
                return Err(e);
            },
        };
        Ok(
            NetworkState {
                version: self.version,
                description: self.description.dup(),
                ifaces,
                routes: self.routes.gen_diff(),
                route_rules: self.route_rules.gen_diff(),
                dns_resolver: self.dns.gen_state_for_apply(),
                wait_online: if self.wait_online.same(&NipartWaitOnline::default()) {
                    None
                } else {
                    Some(self.wait_online.dup())
                },
            },
        )
    }

    /// Generate revert state of MergedNetworkState which holds desired state,
    /// pre-apply current state.
    /// The returned state could be applied to restore network config back to
    /// pre-apply state.
    pub fn generate_revert(&self) -> (res: Result<NetworkState, NipartError>)
        ensures
            error::same_result(res, Ok(self@.revert())),
    {
        let ifaces = match self.ifaces.generate_revert() {
            Ok(ifaces) => ifaces,
            Err(e) => {
                return Err(e);
            },
        };
        let routes = match self.routes.generate_revert() {
            Ok(routes) => routes,
            Err(e) => {
                return Err(e);
            },
        };
        let route_rules = match self.route_rules.generate_revert() {
            Ok(route_rules) => route_rules,
            Err(e) => {
                return Err(e);
            },
        };
        Ok(NetworkState { ifaces, routes, route_rules, ..NetworkState::default() })
    }
}

/// Dropping the routes through an interface drops each of them and no other.
proof fn lemma_not_via(
    routes: Seq<RouteEntryView>,
    name: Seq<char>,
    i: int,
    acc: Seq<RouteEntryView>,
    rt: RouteEntryView,
)
    requires
        0 <= i <= routes.len(),
    ensures
        not_via_from(routes, name, i, acc).contains(rt) <==> acc.contains(rt) || (
        rt.next_hop_iface != Some(name) && routes.subrange(i, routes.len() as int).contains(rt)),
    decreases routes.len() - i,
{
    let rest = routes.subrange(i, routes.len() as int);
    if i < routes.len() {
        let tail = routes.subrange(i + 1, routes.len() as int);
        assert(rest =~= seq![routes[i]] + tail);
        assert(rest.contains(rt) <==> routes[i] == rt || tail.contains(rt)) by {
            if routes[i] == rt {
                assert(rest[0] == rt);
            }
            if tail.contains(rt) {
                assert(rest[tail.index_of(rt) + 1] == rt);
            }
            if rest.contains(rt) && routes[i] != rt {
                assert(tail[rest.index_of(rt) - 1] == rt);
            }
        }
        if routes[i].next_hop_iface == Some(name) {
            lemma_not_via(routes, name, i + 1, acc, rt);
        } else {
            let next = acc.push(routes[i]);
            lemma_not_via(routes, name, i + 1, next, rt);
            assert(next.contains(rt) <==> acc.contains(rt) || routes[i] == rt) by {
                if acc.contains(rt) {
                    assert(next[acc.index_of(rt)] == rt);
                }
                if routes[i] == rt {
                    assert(next[acc.len() as int] == rt);
                }
                if next.contains(rt) && routes[i] != rt {
                    assert(acc[next.index_of(rt)] == rt);
                }
            }
        }
    }
}

/// An interface that is held back is not applied, and neither is a route
/// through it. Every other interface and every other route stays.
pub proof fn law_held_back(
    state: MergedNetworkStateView,
    key: (Seq<char>, InterfaceType),
    other: Seq<char>,
    rt: RouteEntryView,
)
    requires
        !key.1.userspace(),
        keymap::unique(state.ifaces.kernel_ifaces),
    ensures
        ({
            let left = state.without(key);
            &&& keymap::lookup(left.ifaces.kernel_ifaces, key.0) is None
            &&& other != key.0 ==> keymap::lookup(left.ifaces.kernel_ifaces, other)
                == keymap::lookup(state.ifaces.kernel_ifaces, other)
            &&& left.routes.changed_routes.contains(rt) <==> rt.next_hop_iface != Some(key.0)
                && state.routes.changed_routes.contains(rt)
        }),
{
    keymap::law_removed(state.ifaces.kernel_ifaces, key.0, other);
    let routes = state.routes.changed_routes;
    lemma_not_via(routes, key.0, 0, Seq::empty(), rt);
    assert(routes.subrange(0, routes.len() as int) =~= routes);
}

/// What the desired state leaves out is saved as it was saved: the description
/// and what to wait for.
pub proof fn law_saved_settings_stay(
    desired: NetworkStateView,
    current: NetworkStateView,
    saved: NetworkStateView,
    option: NipartApplyOptionView,
)
    requires
        merged_state(desired, current, Some(saved), option) is Ok,
    ensures
        ({
            let for_save = merged_state(desired, current, Some(saved), option)->Ok_0.for_save();
            &&& for_save.description == (if desired.description is Some {
                desired.description
            } else {
                saved.description
            })
            &&& for_save.wait_online == (if desired.wait_online is Some {
                desired.wait_online
            } else {
                saved.wait_online
            })
        }),
{
}

/// Verification of the merged state succeeds exactly when the host is as desired
/// of every interface that is desired and not only to be saved, has every
/// desired routing rule, and has no rule that was removed.
pub proof fn law_verified(state: MergedNetworkStateView, host: NetworkStateView)
    ensures
        state.verified(host) is Ok <==> {
            &&& forall|i: int|
                0 <= i < state.ifaces.kernel_ifaces.len() && (
                #[trigger] state.ifaces.kernel_ifaces[i]).1.desired is Some
                    && state.ifaces.kernel_ifaces[i].1.for_verify is Some
                    ==> merge_ifaces::is_as_desired(
                    state.ifaces.kernel_ifaces[i].1.for_verify->0,
                    host.ifaces,
                )
            &&& forall|i: int|
                0 <= i < state.ifaces.user_ifaces.len() && (
                #[trigger] state.ifaces.user_ifaces[i]).1.desired is Some
                    && state.ifaces.user_ifaces[i].1.for_verify is Some
                    ==> merge_ifaces::is_as_desired(
                    state.ifaces.user_ifaces[i].1.for_verify->0,
                    host.ifaces,
                )
            &&& forall|i: int|
                0 <= i < state.route_rules.desired.rules().len() && !(
                #[trigger] state.route_rules.desired.rules()[i]).absent()
                    ==> merged_route_rule::is_found(
                    state.route_rules.desired.rules()[i],
                    host.route_rules.rules(),
                )
            &&& forall|i: int|
                0 <= i < state.route_rules.changed_rules.len() && (
                #[trigger] state.route_rules.changed_rules[i]).absent() ==> !route_rule::matches_any(
                    state.route_rules.changed_rules[i],
                    host.route_rules.rules(),
                )
        },
{
    merge_ifaces::law_ifaces_verified(state.ifaces, host.ifaces);
    merged_route_rule::law_verified(state.route_rules, host.route_rules);
}

/// A property of a desired interface that the host shows with another value
/// makes verification fail.
pub proof fn law_mismatch_fails(state: MergedNetworkStateView, host: NetworkStateView, i: int)
    requires
        0 <= i < state.ifaces.kernel_ifaces.len(),
        state.ifaces.kernel_ifaces[i].1.desired is Some,
        state.ifaces.kernel_ifaces[i].1.for_verify is Some,
        state.ifaces.kernel_ifaces[i].1.for_verify->0.base.state is Up,
        state.verified(host) is Ok,
    ensures
        ({
            let des = state.ifaces.kernel_ifaces[i].1.for_verify->0;
            let found = merge_ifaces::host_iface(des, host.ifaces);
            &&& found is Some
            &&& des.base.mtu is Some ==> found->0.base.mtu == des.base.mtu
            &&& des.parent is Some ==> found->0.parent == des.parent
            &&& des.vrf_table_id is Some ==> found->0.vrf_table_id == des.vrf_table_id
            &&& des.veth is Some ==> found->0.veth == des.veth
            &&& des.base.ipv4 is Some && des.base.ipv4->0.enabled == Some(true)
                ==> found->0.base.ipv4 is Some && found->0.base.ipv4->0.enabled != Some(false)
            &&& des.base.ipv6 is Some && des.base.ipv6->0.enabled == Some(true)
                ==> found->0.base.ipv6 is Some && found->0.base.ipv6->0.enabled != Some(false)
        }),
{
    law_verified(state, host);
    assert(merge_ifaces::is_as_desired(
        state.ifaces.kernel_ifaces[i].1.for_verify->0,
        host.ifaces,
    ));
}

/// In the revert of a merged state a route stands as absent exactly when the
/// apply adds it, and as one to be there exactly when the apply removes it.
pub proof fn law_revert_routes(state: MergedNetworkStateView, rt: RouteEntryView)
    requires
        forall|i: int|
            0 <= i < state.routes.changed_routes.len() ==> (
            #[trigger] state.routes.changed_routes[i]).state is None
                || state.routes.changed_routes[i].state == Some(RouteState::Absent),
    ensures
        ({
            let applied = route::list_of(state.for_apply().routes.config);
            let reverted = route::list_of(state.revert().routes.config);
            let gone = RouteEntryView { state: Some(RouteState::Absent), ..rt };
            let there = RouteEntryView { state: None, ..rt };
            &&& reverted.contains(gone) <==> applied.contains(there)
            &&& reverted.contains(there) <==> applied.contains(gone)
            &&& reverted.contains(rt) ==> rt == gone || rt == there
            &&& reverted.len() == applied.len()
            &&& applied == state.routes.changed_routes
            &&& state.revert().routes.running is None
        }),
{
    let changes = state.routes.changed_routes;
    let gone = RouteEntryView { state: Some(RouteState::Absent), ..rt };
    let there = RouteEntryView { state: None, ..rt };
    merged_route::law_undo_of_changes(changes, gone);
    merged_route::law_undo_of_changes(changes, there);
    merged_route::law_undo_of_changes(changes, rt);
}

/// Applying the revert to the host after the apply leaves the static routes from
/// before it, when no interface is created again.
pub proof fn law_revert_restores_routes(
    desired: NetworkStateView,
    current: NetworkStateView,
    saved: Option<NetworkStateView>,
    option: NipartApplyOptionView,
    host: Set<RouteEntryView>,
)
    requires
        merged_state(desired, current, saved, option) is Ok,
        ({
            let ifaces = merged_state(desired, current, saved, option)->Ok_0.ifaces;
            forall|i: int|
                0 <= i < ifaces.kernel_ifaces.len() ==> !(
                #[trigger] ifaces.kernel_ifaces[i]).1.will_delete
        }),
        forall|rt: RouteEntryView|
            #[trigger] host.contains(rt) <==> route::list_of(current.routes.config).contains(rt),
        forall|rt: RouteEntryView| #[trigger] host.contains(rt) ==> rt.state is None,
    ensures
        ({
            let state = merged_state(desired, current, saved, option)->Ok_0;
            let after = merged_route::host_after(
                host,
                route::list_of(state.for_apply().routes.config),
            );
            merged_route::host_after(after, route::list_of(state.revert().routes.config)) == host
        }),
{
    let state = merged_state(desired, current, saved, option)->Ok_0;
    merged_route::law_host_restored(
        desired.routes,
        current.routes,
        saved_routes(saved),
        state.ifaces,
        host,
    );
}

/// The revert of a merged state has an interface exactly where the apply of one
/// can be undone; it removes every routing rule that the apply adds, and brings
/// back the current ones that the apply removes. It leaves all else undefined.
pub proof fn law_revert(
    state: MergedNetworkStateView,
    name: Seq<char>,
    iface_type: InterfaceType,
    i: int,
    rule: RouteRuleEntryView,
)
    requires
        0 <= i < state.route_rules.changed_rules.len(),
    ensures
        ({
            let revert = state.revert();
            let all = state.ifaces.all();
            let found = revert.ifaces.find(name, iface_type);
            let change = state.for_apply().route_rules.rules()[i];
            &&& found is Some <==> exists|k: int|
                0 <= k < all.len() && (#[trigger] all[k]).for_revert is Some
                    && ifaces::same_place(
                    (name, iface_type),
                    ifaces::place_of(all[k].for_revert->0),
                )
            &&& found is Some ==> exists|k: int|
                0 <= k < all.len() && (#[trigger] all[k]).for_revert is Some
                    && ifaces::same_place(
                    (name, iface_type),
                    ifaces::place_of(all[k].for_revert->0),
                ) && found == Some(ifaces::registered(all[k].for_revert->0))
            &&& !change.absent() ==> order::has_key::<RouteRuleEntry>(
                revert.route_rules.rules(),
                RouteRuleEntryView { state: Some(RouteRuleState::Absent), ..change },
            )
            &&& change.absent() && state.route_rules.current.rules().contains(rule)
                && change.matches_rule(rule) ==> order::has_key::<RouteRuleEntry>(
                revert.route_rules.rules(),
                rule,
            )
            &&& revert.version is None && revert.description is None
            &&& revert.dns_resolver.config is None && revert.dns_resolver.cache is None
            &&& revert.wait_online is None
        }),
{
    merge_ifaces::law_ifaces_reverted(state.ifaces, name, iface_type);
    merged_route_rule::law_reverted(state.route_rules, i, rule);
}

/// A merged state is made of the merged interfaces, the routes that are merged
/// for them, and the merged rules without those that come in from interfaces to
/// be ignored.
pub proof fn law_merged_parts(
    desired: NetworkStateView,
    current: NetworkStateView,
    saved: Option<NetworkStateView>,
    option: NipartApplyOptionView,
)
    requires
        merged_state(desired, current, saved, option) is Ok,
    ensures
        ({
            let state = merged_state(desired, current, saved, option)->Ok_0;
            let saved_ifaces = if saved is Some {
                Some(saved->0.ifaces)
            } else {
                None
            };
            let saved_routes = if saved is Some {
                Some(saved->0.routes)
            } else {
                None
            };
            let saved_rules = if saved is Some {
                Some(saved->0.route_rules)
            } else {
                None
            };
            let rules = merged_route_rule::merged_rules(
                desired.route_rules,
                current.route_rules,
                saved_rules,
            );
            &&& merge_ifaces::merged(desired.ifaces, current.ifaces, saved_ifaces, option.force)
                == Ok::<MergedInterfacesView, NipartErrorView>(state.ifaces)
            &&& merged_route::merged_routes(
                desired.routes,
                current.routes,
                saved_routes,
                state.ifaces,
            ) == Ok::<MergedRoutesView, NipartErrorView>(state.routes)
            &&& rules is Ok
            &&& (forall|i: int|
                0 <= i < state.ifaces.kernel_ifaces.len() ==> !((
                #[trigger] state.ifaces.kernel_ifaces[i]).1.merged.base.state is Ignore))
                ==> state.route_rules == rules->Ok_0
            &&& state.desired == desired
            &&& state.wait_online == (if desired.wait_online is Some {
                desired.wait_online->0
            } else if current.wait_online is Some {
                current.wait_online->0
            } else {
                NipartWaitOnlineView::default_wait()
            })
            &&& state.for_apply().version == desired.version
            &&& state.for_apply().description == desired.description
            &&& state.for_apply().wait_online == desired.wait_online
            &&& state.for_apply().route_rules.rules() == state.route_rules.changed_rules
            &&& state.for_save().version == desired.version
            &&& state.for_save().routes.config == state.routes.for_save.config
            &&& state.for_save().route_rules == state.route_rules.for_save
        }),
{
    let state = merged_state(desired, current, saved, option)->Ok_0;
    if forall|i: int|
        0 <= i < state.ifaces.kernel_ifaces.len() ==> !((
        #[trigger] state.ifaces.kernel_ifaces[i]).1.merged.base.state is Ignore) {
        merged_route::lemma_none_flagged(
            state.ifaces.kernel_ifaces,
            IfaceFlag::Ignored,
            0,
        );
    }
    if state.route_rules.changed_rules.len() == 0 {
        assert(state.for_apply().route_rules.rules() =~= state.route_rules.changed_rules);
    }
}

/// The held keys are those of the interfaces that are held back.
proof fn lemma_held(
    list: Seq<MergedInterfaceView>,
    i: int,
    acc: Seq<(Seq<char>, InterfaceType)>,
    key: (Seq<char>, InterfaceType),
)
    requires
        0 <= i <= list.len(),
    ensures
        held_from(list, i, acc).contains(key) <==> acc.contains(key) || exists|j: int|
            i <= j < list.len() && (#[trigger] list[j]).for_apply is Some
                && list[j].merged.base.state is Up && !list[j].ready && merged_key(list[j]) == key,
    decreases list.len() - i,
{
    if i < list.len() {
        let own = merged_key(list[i]);
        let next = acc.push(own);
        if acc.contains(key) {
            assert(next[acc.index_of(key)] == key);
        }
        assert(next[acc.len() as int] == own);
        if next.contains(key) && own != key {
            assert(acc[next.index_of(key)] == key);
        }
        if is_held(list[i]) {
            lemma_held(list, i + 1, next, key);
        } else {
            lemma_held(list, i + 1, acc, key);
        }
    }
}

/// Dropping interfaces drops each of them and leaves every other one alone.
proof fn lemma_without(
    state: MergedNetworkStateView,
    keys: Seq<(Seq<char>, InterfaceType)>,
    i: int,
    name: Seq<char>,
    rt: RouteEntryView,
)
    requires
        0 <= i <= keys.len(),
        keymap::unique(state.ifaces.kernel_ifaces),
    ensures
        ({
            let left = state.without_from(keys, i);
            let dropped = exists|j: int|
                i <= j < keys.len() && !(#[trigger] keys[j]).1.userspace() && keys[j].0 == name;
            &&& keymap::unique(left.ifaces.kernel_ifaces)
            &&& dropped ==> keymap::lookup(left.ifaces.kernel_ifaces, name) is None
            &&& !dropped ==> keymap::lookup(left.ifaces.kernel_ifaces, name) == keymap::lookup(
                state.ifaces.kernel_ifaces,
                name,
            )
            &&& left.routes.changed_routes.contains(rt) <==> state.routes.changed_routes.contains(
                rt,
            ) && !exists|j: int|
                i <= j < keys.len() && !(#[trigger] keys[j]).1.userspace() && rt.next_hop_iface
                    == Some(keys[j].0)
        }),
    decreases keys.len() - i,
{
    if i < keys.len() {
        let next = state.without(keys[i]);
        if !keys[i].1.userspace() {
            law_held_back(state, keys[i], name, rt);
            keymap::law_removed(state.ifaces.kernel_ifaces, keys[i].0, name);
        }
        lemma_without(next, keys, i + 1, name, rt);
    }
}

/// Holding back interfaces whose condition is not met drops exactly the
/// interfaces of the kernel that are to be brought up and not ready, and the
/// changed routes through them; all others stay.
pub proof fn law_conditional_activation(
    state: MergedNetworkStateView,
    name: Seq<char>,
    rt: RouteEntryView,
)
    requires
        keymap::unique(state.ifaces.kernel_ifaces),
        forall|i: int|
            0 <= i < state.ifaces.kernel_ifaces.len() ==> (
            #[trigger] state.ifaces.kernel_ifaces[i]).0
                == state.ifaces.kernel_ifaces[i].1.merged.base.kernel_iface_name
                && !state.ifaces.kernel_ifaces[i].1.merged.base.iface_type.userspace(),
        forall|i: int|
            0 <= i < state.ifaces.user_ifaces.len() ==> (
            #[trigger] state.ifaces.user_ifaces[i]).1.merged.base.iface_type.userspace(),
    ensures
        ({
            let left = state.without_from(held_from(state.ifaces.all(), 0, Seq::empty()), 0);
            let found = keymap::lookup(state.ifaces.kernel_ifaces, name);
            let held = found is Some && found->0.for_apply is Some
                && found->0.merged.base.state is Up && !found->0.ready;
            &&& held ==> keymap::lookup(left.ifaces.kernel_ifaces, name) is None
            &&& !held ==> keymap::lookup(left.ifaces.kernel_ifaces, name) == found
            &&& rt.next_hop_iface == Some(name) ==> (left.routes.changed_routes.contains(rt)
                <==> state.routes.changed_routes.contains(rt) && !held)
        }),
{
    let all = state.ifaces.all();
    let keys = held_from(all, 0, Seq::empty());
    let kernel = state.ifaces.kernel_ifaces;
    lemma_without(state, keys, 0, name, rt);
    keymap::lemma_entry_from(kernel, name, 0);
    let found = keymap::lookup(kernel, name);
    if found is Some && is_held(found->0) {
        let i = keymap::entry(kernel, name);
        let key = merged_key(found->0);
        assert(all[i] == found->0);
        lemma_held(all, 0, Seq::empty(), key);
        let j = keys.index_of(key);
        assert(!keys[j].1.userspace() && keys[j].0 == name);
    } else {
        assert forall|j: int| 0 <= j < keys.len() && !(#[trigger] keys[j]).1.userspace() implies
            keys[j].0 != name by {
            lemma_held(all, 0, Seq::empty(), keys[j]);
            assert(keys.contains(keys[j]));
            let m = choose|m: int|
                0 <= m < all.len() && (#[trigger] all[m]).for_apply is Some
                    && all[m].merged.base.state is Up && !all[m].ready && merged_key(all[m])
                    == keys[j];
            if m < kernel.len() {
                assert(all[m] == kernel[m].1);
                if keys[j].0 == name {
                    keymap::lemma_entry_is(kernel, name, m, 0);
                }
            } else {
                assert(all[m] == state.ifaces.user_ifaces[m - kernel.len()].1);
            }
        }
    }
}

} // verus!
