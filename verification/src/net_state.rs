//! The state of the network.

use vstd::prelude::*;

use crate::dns::{DnsResolver, DnsResolverView};
use crate::error::{NipartError, NipartErrorView};
use crate::iface::{Interface, InterfaceView};
use crate::ifaces::{Interfaces, InterfacesView};
use crate::keymap::KeyMap;
use crate::route::{Routes, RoutesView};
use crate::route_rule::{RouteRules, RouteRulesView};
use crate::value::{Value, change_dup, empty_list, or_dup};
use crate::wait_online::{NipartWaitOnline, NipartWaitOnlineView};
use crate::{error, iface, ifaces, keymap, route, route_rule, value};

verus! {

/// The state of the network: what is desired of it, what it is, or what is
/// saved.
#[derive(Clone, Debug, PartialEq, Eq)]
pub struct NetworkState {
    /// The version of the schema.
    pub version: Option<u32>,
    /// For people; neither applied nor verified.
    pub description: Option<String>,
    pub ifaces: Interfaces,
    pub routes: Routes,
    pub route_rules: RouteRules,
    pub dns_resolver: DnsResolver,
    pub wait_online: Option<NipartWaitOnline>,
}

/// What a [NetworkState] stands for.
#[verifier::ext_equal]
pub struct NetworkStateView {
    pub version: Option<u32>,
    pub description: Option<Seq<char>>,
    pub ifaces: InterfacesView,
    pub routes: RoutesView,
    pub route_rules: RouteRulesView,
    pub dns_resolver: DnsResolverView,
    pub wait_online: Option<NipartWaitOnlineView>,
}

impl View for NetworkState {
    type V = NetworkStateView;

    open spec fn view(&self) -> NetworkStateView {
        NetworkStateView {
            version: self.version.deep_view(),
            description: self.description.deep_view(),
            ifaces: self.ifaces.deep_view(),
            routes: self.routes.deep_view(),
            route_rules: self.route_rules.deep_view(),
            dns_resolver: self.dns_resolver.deep_view(),
            wait_online: self.wait_online.deep_view(),
        }
    }
}

impl DeepView for NetworkState {
    type V = NetworkStateView;

    open spec fn deep_view(&self) -> NetworkStateView {
        self@
    }
}

impl Value for NetworkState {
    fn dup(&self) -> (res: Self) {
        NetworkState {
            version: self.version.dup(),
            description: self.description.dup(),
            ifaces: self.ifaces.dup(),
            routes: self.routes.dup(),
            route_rules: self.route_rules.dup(),
            dns_resolver: self.dns_resolver.dup(),
            wait_online: self.wait_online.dup(),
        }
    }

    fn same(&self, other: &Self) -> (res: bool) {
        self.version.same(&other.version) && self.description.same(&other.description) && self.ifaces.same(&other.ifaces) && self.routes.same(&other.routes) && self.route_rules.same(&other.route_rules) && self.dns_resolver.same(&other.dns_resolver) && self.wait_online.same(&other.wait_online)
    }
}

/// The map with every secret replaced.
pub open spec fn hidden_map<K>(map: Seq<(K, InterfaceView)>) -> Seq<(K, InterfaceView)> {
    Seq::new(map.len(), |i: int| (map[i].0, map[i].1.secrets_hidden()))
}

/// `acc` with the secrets of the interfaces from `i` on.
pub open spec fn secrets_from(
    list: Seq<InterfaceView>,
    i: int,
    acc: InterfacesView,
) -> InterfacesView
    decreases list.len() - i,
{
    if i < 0 || i >= list.len() {
        acc
    } else if list[i].has_secret() {
        secrets_from(list, i + 1, acc.pushed(list[i].secret_part()))
    } else {
        secrets_from(list, i + 1, acc)
    }
}

impl InterfacesView {
    /// With every secret replaced.
    pub open spec fn secrets_hidden(self) -> InterfacesView {
        InterfacesView {
            kernel_ifaces: hidden_map(self.kernel_ifaces),
            user_ifaces: hidden_map(self.user_ifaces),
            ..self
        }
    }

    /// The secrets, with what the interfaces are found by.
    pub open spec fn secrets(self) -> InterfacesView {
        secrets_from(self.list(), 0, InterfacesView::none())
    }
}

impl NetworkStateView {
    /// Nothing is defined.
    pub open spec fn undefined() -> NetworkStateView {
        NetworkStateView {
            version: None,
            description: None,
            ifaces: InterfacesView::none(),
            routes: RoutesView::undefined(),
            route_rules: RouteRulesView::undefined(),
            dns_resolver: DnsResolverView::undefined(),
            wait_online: None,
        }
    }

    /// Whether there is nothing to apply.
    pub open spec fn empty(self) -> bool {
        &&& self.ifaces.kernel_ifaces.len() == 0 && self.ifaces.user_ifaces.len() == 0
        &&& self.routes == RoutesView::undefined()
        &&& self.route_rules.config is None || self.route_rules.config->0.len() == 0
        &&& self.dns_resolver.empty()
        &&& self.wait_online is None
    }

    /// Whether the state may be applied, given the hosts file.
    pub open spec fn validated(self, hosts: Seq<char>) -> Result<(), NipartErrorView> {
        match self.routes.validated() {
            Err(e) => Err(e),
            Ok(()) => match self.route_rules.validated() {
                Err(e) => Err(e),
                Ok(()) => self.dns_resolver.validated(hosts),
            },
        }
    }

    /// The state after a new one is merged over it, as far as that goes, and
    /// why it went no further: version and description come first, then the
    /// routes, then the routing rules, then all the rest.
    pub open spec fn merge_steps(self, new: NetworkStateView) -> (
        NetworkStateView,
        Result<(), NipartErrorView>,
    ) {
        let named = NetworkStateView {
            version: value::or(new.version, self.version),
            description: value::or(new.description, self.description),
            ..self
        };
        match self.routes.merge_result(new.routes) {
            Err(e) => (named, Err(e)),
            Ok(routes) => match self.route_rules.merge_result(new.route_rules) {
                Err(e) => (NetworkStateView { routes, ..named }, Err(e)),
                Ok(route_rules) => (
                    NetworkStateView {
                        ifaces: self.ifaces.merged_from(new.ifaces.list(), 0),
                        routes,
                        route_rules,
                        dns_resolver: self.dns_resolver.merged_with(new.dns_resolver),
                        wait_online: value::or(new.wait_online, self.wait_online),
                        ..named
                    },
                    Ok(()),
                ),
            },
        }
    }

    /// What of the state the old one does not have.
    pub open spec fn diff_from(self, old_state: NetworkStateView) -> NetworkStateView {
        NetworkStateView {
            version: self.version,
            description: value::change(self.description, old_state.description),
            ifaces: self.ifaces.diff_from(old_state.ifaces),
            routes: self.routes.diff_from(old_state.routes),
            route_rules: if self.route_rules.config is Some {
                self.route_rules.diff_from(old_state.route_rules)
            } else {
                RouteRulesView { config: Some(Seq::empty()) }
            },
            dns_resolver: self.dns_resolver.diff_from(old_state.dns_resolver),
            wait_online: value::change(self.wait_online, old_state.wait_online),
        }
    }

    /// With every secret replaced.
    pub open spec fn secrets_hidden(self) -> NetworkStateView {
        NetworkStateView { ifaces: self.ifaces.secrets_hidden(), ..self }
    }

    /// A state of the secrets alone.
    pub open spec fn secrets(self) -> NetworkStateView {
        NetworkStateView {
            version: self.version,
            ifaces: self.ifaces.secrets(),
            ..NetworkStateView::undefined()
        }
    }
}

/// Replaces every secret in the map.
fn hide_map<K: Value>(map: &mut KeyMap<K, Interface>)
    ensures
        final(map)@ == hidden_map(old(map)@),
{
    let ghost start = map@;
    let mut i: usize = 0;
    while i < map.len()
        invariant
            i <= map@.len(),
            map@.len() == start.len(),
            start == old(map)@,
            forall|j: int|
                0 <= j < i ==> #[trigger] map@[j] == (start[j].0, start[j].1.secrets_hidden()),
            forall|j: int| i <= j < start.len() ==> #[trigger] map@[j] == start[j],
        decreases map@.len() - i,
    {
        let mut iface = map.value_at(i).dup();
        iface.hide_secrets();
        map.set_value(i, iface);
        i = i + 1;
    }
    assert(map@ =~= hidden_map(start));
}

impl Interfaces {
    /// Replaces every secret.
    pub fn hide_secrets(&mut self)
        ensures
            final(self)@ == old(self)@.secrets_hidden(),
    {
        hide_map(&mut self.kernel_ifaces);
        hide_map(&mut self.user_ifaces);
    }

    /// The secrets, with what the interfaces are found by.
    pub fn clone_secrets(&self) -> (res: Self)
        ensures
            res@ == self@.secrets(),
    {
        let list = self.to_list();
        let ghost views = list.deep_view();
        let mut res = Self::default();
        let mut i: usize = 0;
        while i < list.len()
            invariant
                i <= list.len(),
                views == list.deep_view(),
                secrets_from(views, 0, InterfacesView::none()) == secrets_from(
                    views,
                    i as int,
                    res@,
                ),
            decreases list.len() - i,
        {
            assert(views[i as int] == list[i as int]@);
            if list[i].has_secret() {
                res.push(list[i].clone_secret_part());
            }
            i = i + 1;
        }
        res
    }
}

impl Default for NetworkState {
    fn default() -> (res: Self)
        ensures
            res@ == NetworkStateView::undefined(),
    {
        NetworkState {
            version: None,
            description: None,
            ifaces: Interfaces::default(),
            routes: Routes::default(),
            route_rules: RouteRules::default(),
            dns_resolver: DnsResolver::default(),
            wait_online: None,
        }
    }
}

impl NetworkState {
    /// What a secret is replaced with.
    pub const HIDE_SECRET_STR: &'static str = "<_password_hid_by_nipart>";

    /// Whether there is nothing to apply.
    pub fn is_empty(&self) -> (res: bool)
        ensures
            res == self@.empty(),
    {
        self.ifaces.is_empty() && self.routes.is_empty() && self.route_rules.is_empty()
            && self.dns_resolver.is_empty() && self.wait_online.is_none()
    }

    /// Whether the state may be applied, given the content of the hosts file.
    pub fn validate(&self, hosts: &str) -> (res: Result<(), NipartError>)
        ensures
            error::same_result(res, self@.validated(hosts@)),
    {
        if let Err(e) = self.routes.validate() {
            return Err(e);
        }
        if let Err(e) = self.route_rules.validate() {
            return Err(e);
        }
        self.dns_resolver.validate(hosts)
    }

    /// Merges a new state into this one. Where the new routes or the new
    /// routing rules are not valid, what comes before them is merged already.
    pub fn merge(&mut self, new_state: &Self) -> (res: Result<(), NipartError>)
        ensures
            final(self)@ == old(self)@.merge_steps(new_state@).0,
            error::same_result(res, old(self)@.merge_steps(new_state@).1),
    {
        self.version = or_dup(&new_state.version, &self.version);
        self.description = or_dup(&new_state.description, &self.description);
        self.routes = match self.routes.merge(&new_state.routes) {
            Ok(routes) => routes,
            Err(e) => {
                return Err(e);
            },
        };
        self.route_rules = match self.route_rules.merge(&new_state.route_rules) {
            Ok(route_rules) => route_rules,
            Err(e) => {
                return Err(e);
            },
        };
        if let Err(e) = self.ifaces.merge(&new_state.ifaces) {
            return Err(e);
        }
        if let Err(e) = self.dns_resolver.merge(&new_state.dns_resolver) {
            return Err(e);
        }
        self.wait_online = or_dup(&new_state.wait_online, &self.wait_online);
        Ok(())
    }

    /// Generate NetworkState containing only the properties changed comparing
    /// to `old_state`.
    pub fn gen_diff(&self, old_state: &Self) -> (res: Result<Self, NipartError>)
        ensures
            error::same_result(res, Ok(self@.diff_from(old_state@))),
    {
        let ifaces = match self.ifaces.gen_diff(&old_state.ifaces) {
            Ok(ifaces) => ifaces,
            Err(e) => {
                return Err(e);
            },
        };
        Ok(
            NetworkState {
                version: self.version,
                description: change_dup(&self.description, &old_state.description),
                ifaces,
                routes: self.routes.gen_diff(&old_state.routes),
                route_rules: if self.route_rules.config.is_some() {
                    self.route_rules.gen_diff(&old_state.route_rules)
                } else {
                    RouteRules { config: Some(empty_list()) }
                },
                dns_resolver: self.dns_resolver.gen_diff(&old_state.dns_resolver),
                wait_online: change_dup(&self.wait_online, &old_state.wait_online),
            },
        )
    }

    /// Replaces every secret.
    pub fn hide_secrets(&mut self)
        ensures
            final(self)@ == old(self)@.secrets_hidden(),
    {
        self.ifaces.hide_secrets();
    }

    /// Takes the secrets out of the state: they are returned in a state of
    /// their own, if there are any, and replaced here.
    pub fn extract_secrets(&mut self) -> (res: Option<Self>)
        ensures
            final(self)@ == old(self)@.secrets_hidden(),
            match res {
                Some(secrets) => secrets@ == old(self)@.secrets() && (
                secrets@.ifaces.kernel_ifaces.len() > 0 || secrets@.ifaces.user_ifaces.len() > 0),
                None => old(self)@.ifaces.secrets().kernel_ifaces.len() == 0
                    && old(self)@.ifaces.secrets().user_ifaces.len() == 0,
            },
    {
        let ifaces = self.ifaces.clone_secrets();
        self.hide_secrets();
        if ifaces.is_empty() {
            return None;
        }
        Some(NetworkState { version: self.version, ifaces, ..NetworkState::default() })
    }
}

/// Whether an interface shows no secret: each that it has was replaced.
pub open spec fn shows_no_secret(iface: InterfaceView) -> bool {
    &&& iface.private_key is Some ==> iface.private_key->0 == Interface::HIDE_SECRET_STR@
    &&& iface.wifi is Some && iface.wifi->0.password is Some ==> iface.wifi->0.password->0
        == Interface::HIDE_SECRET_STR@
}

/// After the secrets are hidden, no interface shows one, and hiding them again
/// changes nothing.
pub proof fn law_secrets_hidden(state: NetworkStateView)
    ensures
        state.secrets_hidden().secrets_hidden() == state.secrets_hidden(),
        forall|i: int|
            0 <= i < state.ifaces.kernel_ifaces.len() ==> shows_no_secret(
                (#[trigger] state.secrets_hidden().ifaces.kernel_ifaces[i]).1,
            ),
        forall|i: int|
            0 <= i < state.ifaces.user_ifaces.len() ==> shows_no_secret(
                (#[trigger] state.secrets_hidden().ifaces.user_ifaces[i]).1,
            ),
{
    let once = state.ifaces.secrets_hidden();
    assert forall|i: int| 0 <= i < once.kernel_ifaces.len() implies #[trigger] hidden_map(
        once.kernel_ifaces,
    )[i] == once.kernel_ifaces[i] by {
        iface::law_secrets_hidden(state.ifaces.kernel_ifaces[i].1);
    }
    assert forall|i: int| 0 <= i < once.user_ifaces.len() implies #[trigger] hidden_map(
        once.user_ifaces,
    )[i] == once.user_ifaces[i] by {
        iface::law_secrets_hidden(state.ifaces.user_ifaces[i].1);
    }
    assert(hidden_map(once.kernel_ifaces) =~= once.kernel_ifaces);
    assert(hidden_map(once.user_ifaces) =~= once.user_ifaces);
}

/// Whether an interface has nothing but what it is found by and its secrets.
pub open spec fn is_secret_part(iface: InterfaceView) -> bool {
    &&& iface.has_secret()
    &&& iface == iface.secret_part()
}

/// Whether the interfaces have nothing but what they are found by and secrets.
pub open spec fn are_secret_parts(ifaces: InterfacesView) -> bool {
    &&& forall|i: int|
        0 <= i < ifaces.kernel_ifaces.len() ==> is_secret_part(
            (#[trigger] ifaces.kernel_ifaces[i]).1,
        )
    &&& forall|i: int|
        0 <= i < ifaces.user_ifaces.len() ==> is_secret_part((#[trigger] ifaces.user_ifaces[i]).1)
}

/// Adding the secrets of an interface leaves nothing but secrets.
proof fn lemma_secret_pushed(ifaces: InterfacesView, iface: InterfaceView)
    requires
        are_secret_parts(ifaces),
        iface.has_secret(),
    ensures
        are_secret_parts(ifaces.pushed(iface.secret_part())),
{
    let part = iface.secret_part();
    let next = ifaces.pushed(part);
    assert(is_secret_part(ifaces::registered(part)));
    keymap::lemma_entry_from(ifaces.kernel_ifaces, part.base.key_name(), 0);
    keymap::lemma_entry_from(ifaces.user_ifaces, (part.base.name, part.base.iface_type), 0);
    assert forall|i: int| 0 <= i < next.kernel_ifaces.len() implies is_secret_part(
        (#[trigger] next.kernel_ifaces[i]).1,
    ) by {
        if i < ifaces.kernel_ifaces.len() {
            assert(is_secret_part(ifaces.kernel_ifaces[i].1));
        }
    }
    assert forall|i: int| 0 <= i < next.user_ifaces.len() implies is_secret_part(
        (#[trigger] next.user_ifaces[i]).1,
    ) by {
        if i < ifaces.user_ifaces.len() {
            assert(is_secret_part(ifaces.user_ifaces[i].1));
        }
    }
}

/// Collecting secrets leaves nothing but secrets.
proof fn lemma_secrets_from(list: Seq<InterfaceView>, i: int, acc: InterfacesView)
    requires
        0 <= i,
        are_secret_parts(acc),
    ensures
        are_secret_parts(secrets_from(list, i, acc)),
    decreases list.len() - i,
{
    if i < list.len() {
        if list[i].has_secret() {
            lemma_secret_pushed(acc, list[i]);
            lemma_secrets_from(list, i + 1, acc.pushed(list[i].secret_part()));
        } else {
            lemma_secrets_from(list, i + 1, acc);
        }
    }
}

/// The secrets of a state are those of its interfaces and nothing else: no
/// other section, and of every interface nothing but what it is found by.
pub proof fn law_only_secrets(state: NetworkStateView)
    ensures
        ({
            let secrets = state.secrets();
            &&& secrets == NetworkStateView {
                version: state.version,
                ifaces: secrets.ifaces,
                ..NetworkStateView::undefined()
            }
            &&& are_secret_parts(secrets.ifaces)
        }),
{
    lemma_secrets_from(state.ifaces.list(), 0, InterfacesView::none());
}

/// Merging keeps what the new state leaves undefined, and takes what it
/// defines; no interface is lost.
pub proof fn law_merged(
    state: NetworkStateView,
    new: NetworkStateView,
    name: Seq<char>,
    iface_type: iface::InterfaceType,
)
    requires
        state.ifaces.valid(),
        state.merge_steps(new).1 is Ok,
    ensures
        ({
            let merged = state.merge_steps(new).0;
            &&& merged.ifaces.valid()
            &&& state.ifaces.find(name, iface_type) is Some ==> merged.ifaces.find(
                name,
                iface_type,
            ) is Some
            &&& merged.description == (if new.description is Some {
                new.description
            } else {
                state.description
            })
            &&& merged.wait_online == (if new.wait_online is Some {
                new.wait_online
            } else {
                state.wait_online
            })
            &&& new.routes.config is None ==> merged.routes == state.routes
            &&& new.route_rules.config is None ==> merged.route_rules == state.route_rules
        }),
{
    ifaces::law_merged_valid(state.ifaces, new.ifaces.list(), 0, name, iface_type);
}

/// A merge fails only on new routes or new routing rules that are not valid.
/// Nothing but the version, the description and, where only the rules are not
/// valid, the routes is merged then.
pub proof fn law_refused_merge(state: NetworkStateView, new: NetworkStateView)
    ensures
        ({
            let (merged, res) = state.merge_steps(new);
            &&& (res is Err <==> new.routes.validated() is Err || new.route_rules.validated() is Err)
            &&& res is Err ==> merged == NetworkStateView {
                version: value::or(new.version, state.version),
                description: value::or(new.description, state.description),
                routes: merged.routes,
                ..state
            }
            &&& new.routes.validated() is Err ==> merged.routes == state.routes
        }),
{
}

/// A state differs from itself in nothing that it defines of the host: neither
/// in its description, its interfaces, its routes and what to wait for, nor in
/// its routing rules, when their prefixes are in canonical form.
pub proof fn law_no_difference(state: NetworkStateView)
    requires
        state.ifaces.valid(),
        state.ifaces.keyed(),
    ensures
        state.diff_from(state).description is None,
        state.diff_from(state).ifaces == InterfacesView::none(),
        route::list_of(state.diff_from(state).routes.config).len() == 0,
        (forall|i: int|
            0 <= i < state.route_rules.rules().len() ==> route_rule::is_canonical_prefix(
                (#[trigger] state.route_rules.rules()[i]).ip_from,
            ) && route_rule::is_canonical_prefix(state.route_rules.rules()[i].ip_to))
            ==> state.diff_from(state).route_rules.rules().len() == 0,
        state.diff_from(state).wait_online is None,
{
    ifaces::law_no_difference(state.ifaces);
    route::law_no_difference(state.routes);
    let rules = state.route_rules.rules();
    let diff = state.diff_from(state).route_rules.rules();
    if state.route_rules.config is Some && (forall|i: int|
        0 <= i < rules.len() ==> route_rule::is_canonical_prefix((#[trigger] rules[i]).ip_from)
            && route_rule::is_canonical_prefix(rules[i].ip_to)) && diff.len() > 0 {
        route_rule::law_difference(state.route_rules, state.route_rules, diff[0]);
        assert(diff.contains(diff[0]));
        let i = rules.index_of(diff[0]);
        assert(route_rule::is_canonical_prefix(rules[i].ip_from));
    }
}

/// What the old state has and this one leaves undefined is not in the
/// difference: no description, nothing to wait for, no route and no routing
/// rule is taken from the old state.
pub proof fn law_undefined_is_no_difference(state: NetworkStateView, old_state: NetworkStateView)
    ensures
        ({
            let diff = state.diff_from(old_state);
            &&& state.description is None ==> diff.description is None
            &&& state.wait_online is None ==> diff.wait_online is None
            &&& state.routes.config is None ==> route::list_of(diff.routes.config).len() == 0
            &&& state.route_rules.config is None ==> diff.route_rules.rules().len() == 0
        }),
{
}

} // verus!
