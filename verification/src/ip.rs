//! IP configuration of an interface.

use vstd::prelude::*;
use vstd::string::*;

use crate::addr::IpAddr;
use crate::error;
use crate::error::{ErrorKind, NipartError, NipartErrorView};
use crate::text;
use crate::text::signed_decimal;
use crate::value;
use crate::value::{Value, contains, or_dup};

verus! {

/// How far a DHCP client has come. Shown by the host only.
#[derive(Clone, Copy, Debug, PartialEq, Eq, Hash, Structural)]
pub enum DhcpState {
    On,
    Done,
    Off,
    Error,
}

impl DeepView for DhcpState {
    type V = DhcpState;

    open spec fn deep_view(&self) -> DhcpState {
        *self
    }
}

impl Value for DhcpState {
    fn dup(&self) -> (res: Self) {
        *self
    }

    fn same(&self, other: &Self) -> (res: bool) {
        *self == *other
    }
}

/// An address of an interface.
#[derive(Clone, Debug, PartialEq, Eq)]
pub struct InterfaceIpAddr {
    pub ip: IpAddr,
    pub prefix_length: u8,
}

/// What a [InterfaceIpAddr] stands for.
#[verifier::ext_equal]
pub struct InterfaceIpAddrView {
    pub ip: IpAddr,
    pub prefix_length: u8,
}

impl View for InterfaceIpAddr {
    type V = InterfaceIpAddrView;

    open spec fn view(&self) -> InterfaceIpAddrView {
        InterfaceIpAddrView {
            ip: self.ip.deep_view(),
            prefix_length: self.prefix_length.deep_view(),
        }
    }
}

impl DeepView for InterfaceIpAddr {
    type V = InterfaceIpAddrView;

    open spec fn deep_view(&self) -> InterfaceIpAddrView {
        self@
    }
}

impl Value for InterfaceIpAddr {
    fn dup(&self) -> (res: Self) {
        InterfaceIpAddr {
            ip: self.ip.dup(),
            prefix_length: self.prefix_length.dup(),
        }
    }

    fn same(&self, other: &Self) -> (res: bool) {
        self.ip.same(&other.ip) && self.prefix_length.same(&other.prefix_length)
    }
}

/// IPv4 configuration of an interface.
#[derive(Clone, Debug, PartialEq, Eq)]
pub struct InterfaceIpv4 {
    /// Whether the IPv4 stack is enabled.
    pub enabled: Option<bool>,
    /// Whether DHCPv4 is enabled.
    pub dhcp: Option<bool>,
    /// State of the DHCPv4 client. Shown by the host only.
    pub dhcp_state: Option<DhcpState>,
    pub addresses: Option<Vec<InterfaceIpAddr>>,
    /// Whether to use the gateway learned from DHCP.
    pub auto_gateway: Option<bool>,
    /// Metric of the routes learned from DHCP; `-1` means the default one.
    pub auto_route_metric: Option<i64>,
}

/// What a [InterfaceIpv4] stands for.
#[verifier::ext_equal]
pub struct InterfaceIpv4View {
    pub enabled: Option<bool>,
    pub dhcp: Option<bool>,
    pub dhcp_state: Option<DhcpState>,
    pub addresses: Option<Seq<InterfaceIpAddrView>>,
    pub auto_gateway: Option<bool>,
    pub auto_route_metric: Option<i64>,
}

impl View for InterfaceIpv4 {
    type V = InterfaceIpv4View;

    open spec fn view(&self) -> InterfaceIpv4View {
        InterfaceIpv4View {
            enabled: self.enabled.deep_view(),
            dhcp: self.dhcp.deep_view(),
            dhcp_state: self.dhcp_state.deep_view(),
            addresses: self.addresses.deep_view(),
            auto_gateway: self.auto_gateway.deep_view(),
            auto_route_metric: self.auto_route_metric.deep_view(),
        }
    }
}

impl DeepView for InterfaceIpv4 {
    type V = InterfaceIpv4View;

    open spec fn deep_view(&self) -> InterfaceIpv4View {
        self@
    }
}

impl Value for InterfaceIpv4 {
    fn dup(&self) -> (res: Self) {
        InterfaceIpv4 {
            enabled: self.enabled.dup(),
            dhcp: self.dhcp.dup(),
            dhcp_state: self.dhcp_state.dup(),
            addresses: self.addresses.dup(),
            auto_gateway: self.auto_gateway.dup(),
            auto_route_metric: self.auto_route_metric.dup(),
        }
    }

    fn same(&self, other: &Self) -> (res: bool) {
        self.enabled.same(&other.enabled) && self.dhcp.same(&other.dhcp) && self.dhcp_state.same(&other.dhcp_state) && self.addresses.same(&other.addresses) && self.auto_gateway.same(&other.auto_gateway) && self.auto_route_metric.same(&other.auto_route_metric)
    }
}

/// IPv6 configuration of an interface.
#[derive(Clone, Debug, PartialEq, Eq)]
pub struct InterfaceIpv6 {
    /// Whether the IPv6 stack is enabled.
    pub enabled: Option<bool>,
    /// Whether DHCPv6 is enabled.
    pub dhcp: Option<bool>,
    /// State of the DHCPv6 client. Shown by the host only.
    pub dhcp_state: Option<DhcpState>,
    /// Whether addresses are learned from router advertisements.
    pub autoconf: Option<bool>,
    pub addresses: Option<Vec<InterfaceIpAddr>>,
}

/// What a [InterfaceIpv6] stands for.
#[verifier::ext_equal]
pub struct InterfaceIpv6View {
    pub enabled: Option<bool>,
    pub dhcp: Option<bool>,
    pub dhcp_state: Option<DhcpState>,
    pub autoconf: Option<bool>,
    pub addresses: Option<Seq<InterfaceIpAddrView>>,
}

impl View for InterfaceIpv6 {
    type V = InterfaceIpv6View;

    open spec fn view(&self) -> InterfaceIpv6View {
        InterfaceIpv6View {
            enabled: self.enabled.deep_view(),
            dhcp: self.dhcp.deep_view(),
            dhcp_state: self.dhcp_state.deep_view(),
            autoconf: self.autoconf.deep_view(),
            addresses: self.addresses.deep_view(),
        }
    }
}

impl DeepView for InterfaceIpv6 {
    type V = InterfaceIpv6View;

    open spec fn deep_view(&self) -> InterfaceIpv6View {
        self@
    }
}

impl Value for InterfaceIpv6 {
    fn dup(&self) -> (res: Self) {
        InterfaceIpv6 {
            enabled: self.enabled.dup(),
            dhcp: self.dhcp.dup(),
            dhcp_state: self.dhcp_state.dup(),
            autoconf: self.autoconf.dup(),
            addresses: self.addresses.dup(),
        }
    }

    fn same(&self, other: &Self) -> (res: bool) {
        self.enabled.same(&other.enabled) && self.dhcp.same(&other.dhcp) && self.dhcp_state.same(&other.dhcp_state) && self.autoconf.same(&other.autoconf) && self.addresses.same(&other.addresses)
    }
}

impl InterfaceIpv4View {
    /// Nothing defined.
    pub open spec fn undefined() -> InterfaceIpv4View {
        InterfaceIpv4View {
            enabled: None,
            dhcp: None,
            dhcp_state: None,
            addresses: None,
            auto_gateway: None,
            auto_route_metric: None,
        }
    }

    /// A disabled stack.
    pub open spec fn disabled() -> InterfaceIpv4View {
        InterfaceIpv4View { enabled: Some(false), ..InterfaceIpv4View::undefined() }
    }

    /// Whether the stack is not disabled.
    pub open spec fn on(self) -> bool {
        self.enabled != Some(false)
    }

    /// Whether addresses are learned.
    pub open spec fn auto(self) -> bool {
        self.dhcp == Some(true)
    }

    /// Whether addresses are configured rather than learned.
    pub open spec fn has_static_addresses(self) -> bool {
        !self.auto() && self.addresses is Some && self.addresses->0.len() > 0
    }

    /// These properties, or those of `old` where undefined.
    pub open spec fn over(self, old: Option<InterfaceIpv4View>) -> InterfaceIpv4View {
        match old {
            None => self,
            Some(old) => InterfaceIpv4View {
                enabled: value::or(self.enabled, old.enabled),
                dhcp: value::or(self.dhcp, old.dhcp),
                dhcp_state: value::or(self.dhcp_state, old.dhcp_state),
                addresses: value::or(self.addresses, old.addresses),
                auto_gateway: value::or(self.auto_gateway, old.auto_gateway),
                auto_route_metric: value::or(self.auto_route_metric, old.auto_route_metric),
            },
        }
    }

    /// Whether a defined property differs from the current one.
    pub open spec fn differs(self, current: Option<InterfaceIpv4View>) -> bool {
        let cur = current.unwrap_or(InterfaceIpv4View::undefined());
        ||| value::changes(self.enabled, cur.enabled)
        ||| value::changes(self.dhcp, cur.dhcp)
        ||| value::changes(self.addresses, cur.addresses)
        ||| value::changes(self.auto_gateway, cur.auto_gateway)
        ||| value::changes(self.auto_route_metric, cur.auto_route_metric)
    }

    /// What can be applied and saved: no state of the DHCP client, no addresses
    /// on a disabled stack, and no DHCP options without DHCP.
    pub open spec fn sanitized(self) -> Result<InterfaceIpv4View, NipartErrorView> {
        if self.enabled == Some(false) {
            Ok(InterfaceIpv4View::disabled())
        } else if self.dhcp != Some(true) {
            Ok(
                InterfaceIpv4View {
                    dhcp_state: None,
                    auto_gateway: None,
                    auto_route_metric: None,
                    ..self
                },
            )
        } else if self.auto_route_metric is Some && !(-1 <= self.auto_route_metric->0
            <= 0xffff_ffff) {
            Err(
                error::invalid(
                    "Invalid auto-route-metric "@ + text::int_text(self.auto_route_metric->0 as int)
                        + ", expecting -1 or a 32 bit unsigned integer"@,
                ),
            )
        } else {
            Ok(InterfaceIpv4View { dhcp_state: None, ..self })
        }
    }

    /// Whether the current configuration shows what is desired: the stack is
    /// in the desired state and holds every configured address.
    pub open spec fn shown_by(self, current: Option<InterfaceIpv4View>) -> bool {
        let cur = current.unwrap_or(InterfaceIpv4View::disabled());
        &&& self.enabled is Some ==> self.enabled->0 == cur.on()
        &&& self.on() && !self.auto() ==> addresses_shown(self.addresses, cur.addresses)
    }
}

impl InterfaceIpv6View {
    /// Nothing defined.
    pub open spec fn undefined() -> InterfaceIpv6View {
        InterfaceIpv6View {
            enabled: None,
            dhcp: None,
            dhcp_state: None,
            autoconf: None,
            addresses: None,
        }
    }

    /// A disabled stack.
    pub open spec fn disabled() -> InterfaceIpv6View {
        InterfaceIpv6View { enabled: Some(false), ..InterfaceIpv6View::undefined() }
    }

    /// Whether the stack is not disabled.
    pub open spec fn on(self) -> bool {
        self.enabled != Some(false)
    }

    /// Whether addresses are learned.
    pub open spec fn auto(self) -> bool {
        self.dhcp == Some(true) || self.autoconf == Some(true)
    }

    /// Whether addresses are configured rather than learned.
    pub open spec fn has_static_addresses(self) -> bool {
        !self.auto() && self.addresses is Some && self.addresses->0.len() > 0
    }

    /// These properties, or those of `old` where undefined.
    pub open spec fn over(self, old: Option<InterfaceIpv6View>) -> InterfaceIpv6View {
        match old {
            None => self,
            Some(old) => InterfaceIpv6View {
                enabled: value::or(self.enabled, old.enabled),
                dhcp: value::or(self.dhcp, old.dhcp),
                dhcp_state: value::or(self.dhcp_state, old.dhcp_state),
                autoconf: value::or(self.autoconf, old.autoconf),
                addresses: value::or(self.addresses, old.addresses),
            },
        }
    }

    /// Whether a defined property differs from the current one.
    pub open spec fn differs(self, current: Option<InterfaceIpv6View>) -> bool {
        let cur = current.unwrap_or(InterfaceIpv6View::undefined());
        ||| value::changes(self.enabled, cur.enabled)
        ||| value::changes(self.dhcp, cur.dhcp)
        ||| value::changes(self.autoconf, cur.autoconf)
        ||| value::changes(self.addresses, cur.addresses)
    }

    /// What can be applied and saved: no state of the DHCP client, and no
    /// addresses on a disabled stack.
    pub open spec fn sanitized(self) -> InterfaceIpv6View {
        if self.enabled == Some(false) {
            InterfaceIpv6View::disabled()
        } else {
            InterfaceIpv6View { dhcp_state: None, ..self }
        }
    }

    /// Whether the current configuration shows what is desired: the stack is
    /// in the desired state and holds every configured address.
    pub open spec fn shown_by(self, current: Option<InterfaceIpv6View>) -> bool {
        let cur = current.unwrap_or(InterfaceIpv6View::disabled());
        &&& self.enabled is Some ==> self.enabled->0 == cur.on()
        &&& self.on() && !self.auto() ==> addresses_shown(self.addresses, cur.addresses)
    }
}

/// Whether every desired address is among the current ones.
pub open spec fn addresses_shown(
    desired: Option<Seq<InterfaceIpAddrView>>,
    current: Option<Seq<InterfaceIpAddrView>>,
) -> bool {
    desired is Some ==> forall|i: int|
        0 <= i < desired->0.len() ==> current.unwrap_or(Seq::empty()).contains(
            #[trigger] desired->0[i],
        )
}

/// The IPv4 configuration after an apply: the desired properties over `base`.
/// Configured addresses go away when DHCP is switched on, learned ones when it
/// is switched off.
pub open spec fn merged_ipv4(
    desired: Option<InterfaceIpv4View>,
    base: Option<InterfaceIpv4View>,
    previous: Option<InterfaceIpv4View>,
) -> Option<InterfaceIpv4View> {
    match desired {
        None => base,
        Some(des) => {
            let merged = des.over(base);
            Some(
                InterfaceIpv4View {
                    addresses: if des.auto() && previous is Some
                        && previous->0.has_static_addresses() {
                        None
                    } else if des.dhcp == Some(false) && previous is Some && previous->0.auto() {
                        des.addresses
                    } else {
                        merged.addresses
                    },
                    ..merged
                },
            )
        },
    }
}

/// The IPv6 configuration after an apply: the desired properties over `base`.
/// Configured addresses go away when they become learned, and the other way
/// round.
pub open spec fn merged_ipv6(
    desired: Option<InterfaceIpv6View>,
    base: Option<InterfaceIpv6View>,
    previous: Option<InterfaceIpv6View>,
) -> Option<InterfaceIpv6View> {
    match desired {
        None => base,
        Some(des) => {
            let merged = des.over(base);
            Some(
                InterfaceIpv6View {
                    addresses: if des.auto() && previous is Some
                        && previous->0.has_static_addresses() {
                        None
                    } else if !merged.auto() && previous is Some && previous->0.auto() {
                        des.addresses
                    } else {
                        merged.addresses
                    },
                    ..merged
                },
            )
        },
    }
}

/// Whether every desired address is among the current ones.
fn are_addresses_shown(
    desired: &Option<Vec<InterfaceIpAddr>>,
    current: &Option<Vec<InterfaceIpAddr>>,
) -> (res: bool)
    ensures
        res == addresses_shown(desired.deep_view(), current.deep_view()),
{
    let none: Vec<InterfaceIpAddr> = value::empty_list();
    let cur = match current {
        Some(cur) => cur,
        None => &none,
    };
    let des = match desired {
        Some(des) => des,
        None => {
            return true;
        },
    };
    let ghost views = des.deep_view();
    let ghost shown = cur.deep_view();
    let mut i: usize = 0;
    while i < des.len()
        invariant
            i <= des.len(),
            views == des.deep_view(),
            shown == cur.deep_view(),
            desired.deep_view() == Some(views),
            current.deep_view().unwrap_or(Seq::empty()) == shown,
            forall|j: int| 0 <= j < i ==> shown.contains(#[trigger] views[j]),
        decreases des.len() - i,
    {
        assert(views[i as int] == des[i as int]@);
        if !contains(cur, &des[i]) {
            assert(desired.deep_view()->0[i as int] == views[i as int]);
            return false;
        }
        i = i + 1;
    }
    true
}

impl Default for InterfaceIpv4 {
    fn default() -> (res: Self)
        ensures
            res@ == InterfaceIpv4View::undefined(),
    {
        InterfaceIpv4 {
            enabled: None,
            dhcp: None,
            dhcp_state: None,
            addresses: None,
            auto_gateway: None,
            auto_route_metric: None,
        }
    }
}

impl InterfaceIpv4 {
    /// The value of `auto_route_metric` that means the default metric.
    pub const DEFAULT_METRIC: i64 = -1;

    /// A disabled stack.
    pub fn new_disabled() -> (res: Self)
        ensures
            res@ == InterfaceIpv4View::disabled(),
    {
        InterfaceIpv4 {
            enabled: Some(false),
            dhcp: None,
            dhcp_state: None,
            addresses: None,
            auto_gateway: None,
            auto_route_metric: None,
        }
    }

    /// Whether the stack is not disabled.
    pub fn is_enabled(&self) -> (res: bool)
        ensures
            res == self@.on(),
    {
        !matches!(self.enabled, Some(false))
    }

    /// Whether addresses are learned.
    pub fn is_auto(&self) -> (res: bool)
        ensures
            res == self@.auto(),
    {
        matches!(self.dhcp, Some(true))
    }

    /// Whether addresses are configured rather than learned.
    fn has_static_addresses(&self) -> (res: bool)
        ensures
            res == self@.has_static_addresses(),
    {
        !self.is_auto() && match &self.addresses {
            Some(addresses) => addresses.len() > 0,
            None => false,
        }
    }

    /// The metric of a route learned from DHCP: the configured one, else one
    /// hundred times the index of the interface plus `offset`.
    pub fn dhcp_route_metric(&self, iface_index: Option<u32>, offset: u32) -> (res: Option<i64>)
        ensures
            res == match self@.auto_route_metric {
                Some(metric) if metric != InterfaceIpv4::DEFAULT_METRIC => Some(metric),
                _ => match iface_index {
                    Some(index) => Some((index * 100 + offset) as i64),
                    None => None,
                },
            },
    {
        if let Some(metric) = self.auto_route_metric {
            if metric != Self::DEFAULT_METRIC {
                return Some(metric);
            }
        }
        match iface_index {
            Some(index) => Some(index as i64 * 100 + offset as i64),
            None => None,
        }
    }

    /// Drops what cannot be applied or saved.
    pub fn sanitize(&mut self) -> (res: Result<(), NipartError>)
        ensures
            match old(self)@.sanitized() {
                Ok(sanitized) => res is Ok && final(self)@ == sanitized,
                Err(e) => res is Err && res->Err_0@ == e && final(self)@ == old(self)@,
            },
    {
        if !self.is_enabled() {
            *self = Self::new_disabled();
            return Ok(());
        }
        if !self.is_auto() {
            self.auto_gateway = None;
            self.auto_route_metric = None;
        } else if let Some(metric) = self.auto_route_metric {
            if metric < -1 || metric > 0xffff_ffff {
                return Err(
                    NipartError::new(
                        ErrorKind::InvalidArgument,
                        String::from_str("Invalid auto-route-metric ").concat(
                            signed_decimal(metric).as_str(),
                        ).concat(", expecting -1 or a 32 bit unsigned integer"),
                    ),
                );
            }
        }
        self.dhcp_state = None;
        Ok(())
    }

    /// Whether a defined property differs from the current one.
    pub fn is_changed(&self, current: &Option<Self>) -> (res: bool)
        ensures
            res == self@.differs(current.deep_view()),
    {
        let none = Self::default();
        let cur = match current {
            Some(current) => current,
            None => &none,
        };
        value::is_change(&self.enabled, &cur.enabled) || value::is_change(&self.dhcp, &cur.dhcp)
            || value::is_change(&self.addresses, &cur.addresses) || value::is_change(
            &self.auto_gateway,
            &cur.auto_gateway,
        ) || value::is_change(&self.auto_route_metric, &cur.auto_route_metric)
    }

    /// Whether the current configuration shows what is desired.
    pub fn is_shown_by(&self, current: &Option<Self>) -> (res: bool)
        ensures
            res == self@.shown_by(current.deep_view()),
    {
        let none = Self::new_disabled();
        let cur = match current {
            Some(current) => current,
            None => &none,
        };
        if let Some(enabled) = self.enabled {
            if enabled != cur.is_enabled() {
                return false;
            }
        }
        if self.is_enabled() && !self.is_auto() {
            return are_addresses_shown(&self.addresses, &cur.addresses);
        }
        true
    }
}

/// The IPv4 configuration after an apply.
pub fn merge_ipv4(
    desired: &Option<InterfaceIpv4>,
    base: &Option<InterfaceIpv4>,
    previous: &Option<InterfaceIpv4>,
) -> (res: Option<InterfaceIpv4>)
    ensures
        res.deep_view() == merged_ipv4(
            desired.deep_view(),
            base.deep_view(),
            previous.deep_view(),
        ),
{
    let des = match desired {
        Some(des) => des,
        None => {
            return base.dup();
        },
    };
    let mut merged = match base {
        None => des.dup(),
        Some(base) => InterfaceIpv4 {
            enabled: or_dup(&des.enabled, &base.enabled),
            dhcp: or_dup(&des.dhcp, &base.dhcp),
            dhcp_state: or_dup(&des.dhcp_state, &base.dhcp_state),
            addresses: or_dup(&des.addresses, &base.addresses),
            auto_gateway: or_dup(&des.auto_gateway, &base.auto_gateway),
            auto_route_metric: or_dup(&des.auto_route_metric, &base.auto_route_metric),
        },
    };
    if let Some(previous) = previous {
        if des.is_auto() && previous.has_static_addresses() {
            merged.addresses = None;
        } else if matches!(des.dhcp, Some(false)) && previous.is_auto() {
            merged.addresses = des.addresses.dup();
        }
    }
    Some(merged)
}

impl Default for InterfaceIpv6 {
    fn default() -> (res: Self)
        ensures
            res@ == InterfaceIpv6View::undefined(),
    {
        InterfaceIpv6 {
            enabled: None,
            dhcp: None,
            dhcp_state: None,
            autoconf: None,
            addresses: None,
        }
    }
}

impl InterfaceIpv6 {
    /// A disabled stack.
    pub fn new_disabled() -> (res: Self)
        ensures
            res@ == InterfaceIpv6View::disabled(),
    {
        InterfaceIpv6 {
            enabled: Some(false),
            dhcp: None,
            dhcp_state: None,
            autoconf: None,
            addresses: None,
        }
    }

    /// Whether the stack is not disabled.
    pub fn is_enabled(&self) -> (res: bool)
        ensures
            res == self@.on(),
    {
        !matches!(self.enabled, Some(false))
    }

    /// Whether addresses are learned.
    pub fn is_auto(&self) -> (res: bool)
        ensures
            res == self@.auto(),
    {
        matches!(self.dhcp, Some(true)) || matches!(self.autoconf, Some(true))
    }

    /// Whether addresses are configured rather than learned.
    fn has_static_addresses(&self) -> (res: bool)
        ensures
            res == self@.has_static_addresses(),
    {
        !self.is_auto() && match &self.addresses {
            Some(addresses) => addresses.len() > 0,
            None => false,
        }
    }

    /// Drops what cannot be applied or saved.
    pub fn sanitize(&mut self)
        ensures
            final(self)@ == old(self)@.sanitized(),
    {
        if !self.is_enabled() {
            *self = Self::new_disabled();
        }
        self.dhcp_state = None;
    }

    /// Whether a defined property differs from the current one.
    pub fn is_changed(&self, current: &Option<Self>) -> (res: bool)
        ensures
            res == self@.differs(current.deep_view()),
    {
        let none = Self::default();
        let cur = match current {
            Some(current) => current,
            None => &none,
        };
        value::is_change(&self.enabled, &cur.enabled) || value::is_change(&self.dhcp, &cur.dhcp)
            || value::is_change(&self.autoconf, &cur.autoconf) || value::is_change(
            &self.addresses,
            &cur.addresses,
        )
    }

    /// Whether the current configuration shows what is desired.
    pub fn is_shown_by(&self, current: &Option<Self>) -> (res: bool)
        ensures
            res == self@.shown_by(current.deep_view()),
    {
        let none = Self::new_disabled();
        let cur = match current {
            Some(current) => current,
            None => &none,
        };
        if let Some(enabled) = self.enabled {
            if enabled != cur.is_enabled() {
                return false;
            }
        }
        if self.is_enabled() && !self.is_auto() {
            return are_addresses_shown(&self.addresses, &cur.addresses);
        }
        true
    }
}

/// The IPv6 configuration after an apply.
pub fn merge_ipv6(
    desired: &Option<InterfaceIpv6>,
    base: &Option<InterfaceIpv6>,
    previous: &Option<InterfaceIpv6>,
) -> (res: Option<InterfaceIpv6>)
    ensures
        res.deep_view() == merged_ipv6(
            desired.deep_view(),
            base.deep_view(),
            previous.deep_view(),
        ),
{
    let des = match desired {
        Some(des) => des,
        None => {
            return base.dup();
        },
    };
    let mut merged = match base {
        None => des.dup(),
        Some(base) => InterfaceIpv6 {
            enabled: or_dup(&des.enabled, &base.enabled),
            dhcp: or_dup(&des.dhcp, &base.dhcp),
            dhcp_state: or_dup(&des.dhcp_state, &base.dhcp_state),
            autoconf: or_dup(&des.autoconf, &base.autoconf),
            addresses: or_dup(&des.addresses, &base.addresses),
        },
    };
    if let Some(previous) = previous {
        if des.is_auto() && previous.has_static_addresses() {
            merged.addresses = None;
        } else if !merged.is_auto() && previous.is_auto() {
            merged.addresses = des.addresses.dup();
        }
    }
    Some(merged)
}

/// Sanitizing an IP configuration twice is the same as once: what was
/// sanitized is accepted, and nothing is left to change.
pub proof fn law_sanitized_ip(ipv4: InterfaceIpv4View, ipv6: InterfaceIpv6View)
    ensures
        ipv4.sanitized() is Ok ==> ipv4.sanitized()->Ok_0.sanitized() == ipv4.sanitized(),
        ipv6.sanitized().sanitized() == ipv6.sanitized(),
{
}

/// Merging keeps every property that is desired, apart from addresses that
/// stand against how addresses are learned.
pub proof fn law_merged_ip(
    ipv4: InterfaceIpv4View,
    base4: Option<InterfaceIpv4View>,
    previous4: Option<InterfaceIpv4View>,
    ipv6: InterfaceIpv6View,
    base6: Option<InterfaceIpv6View>,
    previous6: Option<InterfaceIpv6View>,
)
    ensures
        ({
            let merged = merged_ipv4(Some(ipv4), base4, previous4)->0;
            &&& ipv4.enabled is Some ==> merged.enabled == ipv4.enabled
            &&& ipv4.dhcp is Some ==> merged.dhcp == ipv4.dhcp
            &&& ipv4.auto_gateway is Some ==> merged.auto_gateway == ipv4.auto_gateway
            &&& ipv4.auto_route_metric is Some ==> merged.auto_route_metric
                == ipv4.auto_route_metric
            &&& ipv4.addresses is Some && !ipv4.auto() ==> merged.addresses == ipv4.addresses
        }),
        ({
            let merged = merged_ipv6(Some(ipv6), base6, previous6)->0;
            &&& ipv6.enabled is Some ==> merged.enabled == ipv6.enabled
            &&& ipv6.dhcp is Some ==> merged.dhcp == ipv6.dhcp
            &&& ipv6.autoconf is Some ==> merged.autoconf == ipv6.autoconf
            &&& ipv6.addresses is Some && !ipv6.auto() ==> merged.addresses == ipv6.addresses
        }),
        merged_ipv4(None, base4, previous4) == base4,
        merged_ipv6(None, base6, previous6) == base6,
{
}

/// Addresses that were configured do not outlive a change to learned ones.
pub proof fn law_static_addresses_go(
    ipv4: InterfaceIpv4View,
    old4: InterfaceIpv4View,
    ipv6: InterfaceIpv6View,
    old6: InterfaceIpv6View,
)
    ensures
        ipv4.auto() && old4.has_static_addresses() ==> merged_ipv4(
            Some(ipv4),
            Some(old4),
            Some(old4),
        )->0.addresses is None,
        ipv6.auto() && old6.has_static_addresses() ==> merged_ipv6(
            Some(ipv6),
            Some(old6),
            Some(old6),
        )->0.addresses is None,
{
}

} // verus!
