//! Applying without a daemon: what the kernel can do by itself, and routing rules
//! as the kernel shows and takes them.

use vstd::prelude::*;
use vstd::string::*;

use crate::addr::{IpAddr, parse_ip_addr};
use crate::error::{ErrorKind, NipartError, NipartErrorView};
use crate::iface::InterfaceType;
use crate::merged_route_rule::MergedRouteRules;
use crate::order::{remove_runs, sort};
use crate::route_rule::{
    AddressFamily, RouteRuleAction, RouteRuleEntry, RouteRuleEntryView, RouteRules, RouteRulesView,
};
use crate::text::{
    find_last_char, from_chars, signed_decimal, slice_chars, to_chars, to_hex_digit,
};
use crate::value::{Value, empty_list, push};
use crate::{addr, error, order, text};

verus! {

/// The main route table of the kernel.
pub const RT_TABLE_MAIN: u8 = 254;

/// What a rule of the kernel does.
#[derive(Clone, Copy, Debug, PartialEq, Eq, Hash, Structural)]
pub enum KernelRuleAction {
    /// Looks a table up.
    Table,
    Blackhole,
    Unreachable,
    Prohibit,
    /// Anything else.
    Other,
}

impl DeepView for KernelRuleAction {
    type V = KernelRuleAction;

    open spec fn deep_view(&self) -> KernelRuleAction {
        *self
    }
}

impl Value for KernelRuleAction {
    fn dup(&self) -> (res: Self) {
        *self
    }

    fn same(&self, other: &Self) -> (res: bool) {
        *self == *other
    }
}

/// Who added a rule of the kernel.
#[derive(Clone, Copy, Debug, PartialEq, Eq, Hash, Structural)]
pub enum KernelRuleProtocol {
    Boot,
    Static,
    Unspec,
    /// Anyone else.
    Other,
}

impl DeepView for KernelRuleProtocol {
    type V = KernelRuleProtocol;

    open spec fn deep_view(&self) -> KernelRuleProtocol {
        *self
    }
}

impl Value for KernelRuleProtocol {
    fn dup(&self) -> (res: Self) {
        *self
    }

    fn same(&self, other: &Self) -> (res: bool) {
        *self == *other
    }
}

/// The address family of a rule of the kernel.
#[derive(Clone, Copy, Debug, PartialEq, Eq, Hash, Structural)]
pub enum KernelRuleFamily {
    Ipv4,
    Ipv6,
    /// Any other one.
    Other,
}

impl DeepView for KernelRuleFamily {
    type V = KernelRuleFamily;

    open spec fn deep_view(&self) -> KernelRuleFamily {
        *self
    }
}

impl Value for KernelRuleFamily {
    fn dup(&self) -> (res: Self) {
        *self
    }

    fn same(&self, other: &Self) -> (res: bool) {
        *self == *other
    }
}

/// A routing rule as the kernel shows it.
#[derive(Clone, Debug, PartialEq, Eq)]
pub struct KernelRule {
    pub action: KernelRuleAction,
    pub address_family: KernelRuleFamily,
    pub protocol: Option<KernelRuleProtocol>,
    pub table: Option<u32>,
    pub dst: Option<String>,
    pub src: Option<String>,
    pub iif: Option<String>,
    pub priority: Option<u32>,
    pub fw_mark: Option<u32>,
    pub fw_mask: Option<u32>,
    pub suppress_prefix_len: Option<u32>,
}

/// What a [KernelRule] stands for.
#[verifier::ext_equal]
pub struct KernelRuleView {
    pub action: KernelRuleAction,
    pub address_family: KernelRuleFamily,
    pub protocol: Option<KernelRuleProtocol>,
    pub table: Option<u32>,
    pub dst: Option<Seq<char>>,
    pub src: Option<Seq<char>>,
    pub iif: Option<Seq<char>>,
    pub priority: Option<u32>,
    pub fw_mark: Option<u32>,
    pub fw_mask: Option<u32>,
    pub suppress_prefix_len: Option<u32>,
}

impl View for KernelRule {
    type V = KernelRuleView;

    open spec fn view(&self) -> KernelRuleView {
        KernelRuleView {
            action: self.action.deep_view(),
            address_family: self.address_family.deep_view(),
            protocol: self.protocol.deep_view(),
            table: self.table.deep_view(),
            dst: self.dst.deep_view(),
            src: self.src.deep_view(),
            iif: self.iif.deep_view(),
            priority: self.priority.deep_view(),
            fw_mark: self.fw_mark.deep_view(),
            fw_mask: self.fw_mask.deep_view(),
            suppress_prefix_len: self.suppress_prefix_len.deep_view(),
        }
    }
}

impl DeepView for KernelRule {
    type V = KernelRuleView;

    open spec fn deep_view(&self) -> KernelRuleView {
        self@
    }
}

impl Value for KernelRule {
    fn dup(&self) -> (res: Self) {
        KernelRule {
            action: self.action.dup(),
            address_family: self.address_family.dup(),
            protocol: self.protocol.dup(),
            table: self.table.dup(),
            dst: self.dst.dup(),
            src: self.src.dup(),
            iif: self.iif.dup(),
            priority: self.priority.dup(),
            fw_mark: self.fw_mark.dup(),
            fw_mask: self.fw_mask.dup(),
            suppress_prefix_len: self.suppress_prefix_len.dup(),
        }
    }

    fn same(&self, other: &Self) -> (res: bool) {
        self.action.same(&other.action) && self.address_family.same(&other.address_family) && self.protocol.same(&other.protocol) && self.table.same(&other.table) && self.dst.same(&other.dst) && self.src.same(&other.src) && self.iif.same(&other.iif) && self.priority.same(&other.priority) && self.fw_mark.same(&other.fw_mark) && self.fw_mask.same(&other.fw_mask) && self.suppress_prefix_len.same(&other.suppress_prefix_len)
    }
}

/// An attribute of a routing rule for the kernel.
#[derive(Clone, Debug, PartialEq, Eq)]
pub enum RuleAttribute {
    Table(u32),
    Source(IpAddr),
    Destination(IpAddr),
    Priority(u32),
    FwMark(u32),
    FwMask(u32),
    Iifname(String),
    SuppressPrefixLen(u32),
}

/// What a [RuleAttribute] stands for.
#[verifier::ext_equal]
pub enum RuleAttributeView {
    Table(u32),
    Source(IpAddr),
    Destination(IpAddr),
    Priority(u32),
    FwMark(u32),
    FwMask(u32),
    Iifname(Seq<char>),
    SuppressPrefixLen(u32),
}

impl View for RuleAttribute {
    type V = RuleAttributeView;

    open spec fn view(&self) -> RuleAttributeView {
        match self {
            RuleAttribute::Table(id) => RuleAttributeView::Table(*id),
            RuleAttribute::Source(ip) => RuleAttributeView::Source(*ip),
            RuleAttribute::Destination(ip) => RuleAttributeView::Destination(*ip),
            RuleAttribute::Priority(priority) => RuleAttributeView::Priority(*priority),
            RuleAttribute::FwMark(mark) => RuleAttributeView::FwMark(*mark),
            RuleAttribute::FwMask(mask) => RuleAttributeView::FwMask(*mask),
            RuleAttribute::Iifname(name) => RuleAttributeView::Iifname(name@),
            RuleAttribute::SuppressPrefixLen(len) => RuleAttributeView::SuppressPrefixLen(*len),
        }
    }
}

impl DeepView for RuleAttribute {
    type V = RuleAttributeView;

    open spec fn deep_view(&self) -> RuleAttributeView {
        self@
    }
}

/// A routing rule for the kernel.
#[derive(Clone, Debug, PartialEq, Eq)]
pub struct RuleMessage {
    pub family: AddressFamily,
    /// What the rule does; undefined when it looks a table up.
    pub action: Option<RouteRuleAction>,
    pub table: u8,
    pub src_len: u8,
    pub dst_len: u8,
    pub attributes: Vec<RuleAttribute>,
}

/// What a [RuleMessage] stands for.
#[verifier::ext_equal]
pub struct RuleMessageView {
    pub family: AddressFamily,
    pub action: Option<RouteRuleAction>,
    pub table: u8,
    pub src_len: u8,
    pub dst_len: u8,
    pub attributes: Seq<RuleAttributeView>,
}

impl View for RuleMessage {
    type V = RuleMessageView;

    open spec fn view(&self) -> RuleMessageView {
        RuleMessageView {
            family: self.family,
            action: self.action,
            table: self.table,
            src_len: self.src_len,
            dst_len: self.dst_len,
            attributes: self.attributes.deep_view(),
        }
    }
}

impl DeepView for RuleMessage {
    type V = RuleMessageView;

    open spec fn deep_view(&self) -> RuleMessageView {
        self@
    }
}

/// Applying without a daemon.
#[derive(Clone, Copy, Debug, PartialEq, Eq)]
pub struct NipartNoDaemon {}

/// The interface types that the kernel can apply by itself.
pub open spec fn kernel_types() -> Seq<InterfaceType> {
    seq![
        InterfaceType::Ethernet,
        InterfaceType::LinuxBridge,
        InterfaceType::Bond,
        InterfaceType::Dummy,
        InterfaceType::Loopback,
        InterfaceType::Veth,
        InterfaceType::Vlan,
        InterfaceType::Vrf,
        InterfaceType::Vxlan,
        InterfaceType::WifiPhy,
        InterfaceType::Wireguard,
    ]
}

/// No type that only a plugin or nothing handles is among those that the
/// kernel applies by itself, and none stands there twice.
pub proof fn law_kernel_types()
    ensures
        forall|i: int|
            0 <= i < kernel_types().len() ==> !(#[trigger] kernel_types()[i]).userspace(),
        forall|i: int, j: int|
            0 <= i < j < kernel_types().len() ==> #[trigger] kernel_types()[i]
                != #[trigger] kernel_types()[j],
{
}

impl NipartNoDaemon {
    /// Interface types that can be applied via kernel (no_daemon) path.
    /// Plugin-handled types (OvsBridge, OvsInterface, WifiCfg) and
    /// unsupported types are excluded.
    pub fn supported_iface_types() -> (res: Vec<InterfaceType>)
        ensures
            res.deep_view() == kernel_types(),
    {
        let res = vec![
            InterfaceType::Ethernet,
            InterfaceType::LinuxBridge,
            InterfaceType::Bond,
            InterfaceType::Dummy,
            InterfaceType::Loopback,
            InterfaceType::Veth,
            InterfaceType::Vlan,
            InterfaceType::Vrf,
            InterfaceType::Vxlan,
            InterfaceType::WifiPhy,
            InterfaceType::Wireguard,
        ];
        assert(res.deep_view() =~= kernel_types());
        res
    }
}

/// The rule that is shown for one of the kernel, unless it does what cannot be
/// shown or is managed by someone else.
pub open spec fn shown_rule(rule: KernelRuleView) -> Option<RouteRuleEntryView> {
    if rule.action is Other || (rule.protocol is Some && rule.protocol->0 is Other) {
        None
    } else {
        Some(
            RouteRuleEntryView {
                family: match rule.address_family {
                    KernelRuleFamily::Ipv4 => Some(AddressFamily::Ipv4),
                    KernelRuleFamily::Ipv6 => Some(AddressFamily::Ipv6),
                    KernelRuleFamily::Other => None,
                },
                state: None,
                ip_from: rule.src,
                ip_to: rule.dst,
                priority: match rule.priority {
                    Some(priority) => Some(priority as i64),
                    None => None,
                },
                table_id: rule.table,
                fwmark: rule.fw_mark,
                fwmask: rule.fw_mask,
                action: match rule.action {
                    KernelRuleAction::Blackhole => Some(RouteRuleAction::Blackhole),
                    KernelRuleAction::Unreachable => Some(RouteRuleAction::Unreachable),
                    KernelRuleAction::Prohibit => Some(RouteRuleAction::Prohibit),
                    _ => None,
                },
                iif: rule.iif,
                suppress_prefix_length: rule.suppress_prefix_len,
            },
        )
    }
}

/// `acc` with the rules that are shown for those of the kernel from `i` on.
pub open spec fn shown_rules_from(
    rules: Seq<KernelRuleView>,
    i: int,
    acc: Seq<RouteRuleEntryView>,
) -> Seq<RouteRuleEntryView>
    decreases rules.len() - i,
{
    if i < 0 || i >= rules.len() {
        acc
    } else {
        match shown_rule(rules[i]) {
            Some(rule) => shown_rules_from(rules, i + 1, acc.push(rule)),
            None => shown_rules_from(rules, i + 1, acc),
        }
    }
}

/// The rules that are shown for those of the kernel, in order and each once.
pub open spec fn shown_rules(rules: Seq<KernelRuleView>) -> RouteRulesView {
    RouteRulesView {
        config: Some(
            order::dedup::<RouteRuleEntry>(
                order::sorted::<RouteRuleEntry>(shown_rules_from(rules, 0, Seq::empty())),
            ),
        ),
    }
}

/// The rule that is shown for one of the kernel.
fn to_shown_rule(rule: &KernelRule) -> (res: Option<RouteRuleEntry>)
    ensures
        res.deep_view() == shown_rule(rule@),
{
    let action = match rule.action {
        KernelRuleAction::Table => None,
        KernelRuleAction::Blackhole => Some(RouteRuleAction::Blackhole),
        KernelRuleAction::Unreachable => Some(RouteRuleAction::Unreachable),
        KernelRuleAction::Prohibit => Some(RouteRuleAction::Prohibit),
        KernelRuleAction::Other => {
            return None;
        },
    };
    // Rules are added with protocol boot by default, and with protocol unspec
    // historically. Both are presented as manageable, like the static ones.
    if matches!(rule.protocol, Some(KernelRuleProtocol::Other)) {
        return None;
    }
    let mut res = RouteRuleEntry::new();
    res.action = action;
    res.iif = rule.iif.dup();
    res.ip_to = rule.dst.dup();
    res.ip_from = rule.src.dup();
    res.table_id = rule.table;
    res.priority =
    match rule.priority {
        Some(priority) => Some(priority as i64),
        None => None,
    };
    res.fwmark = rule.fw_mark;
    res.fwmask = rule.fw_mask;
    res.suppress_prefix_length = rule.suppress_prefix_len;
    res.family =
    match rule.address_family {
        KernelRuleFamily::Ipv4 => Some(AddressFamily::Ipv4),
        KernelRuleFamily::Ipv6 => Some(AddressFamily::Ipv6),
        KernelRuleFamily::Other => None,
    };
    Some(res)
}

/// The rules of the kernel that can be managed.
pub fn get_route_rules(kernel_rules: &Vec<KernelRule>) -> (res: RouteRules)
    ensures
        res@ == shown_rules(kernel_rules.deep_view()),
{
    let ghost views = kernel_rules.deep_view();
    let mut rules: Vec<RouteRuleEntry> = empty_list();
    let mut i: usize = 0;
    while i < kernel_rules.len()
        invariant
            i <= kernel_rules.len(),
            views == kernel_rules.deep_view(),
            shown_rules_from(views, 0, Seq::empty()) == shown_rules_from(
                views,
                i as int,
                rules.deep_view(),
            ),
        decreases kernel_rules.len() - i,
    {
        assert(views[i as int] == kernel_rules[i as int]@);
        if let Some(rule) = to_shown_rule(&kernel_rules[i]) {
            push(&mut rules, rule);
        }
        i = i + 1;
    }
    RouteRules { config: Some(remove_runs(&sort(&rules))) }
}

/// `acc` with the rules from `i` on that are to be removed, or that are not.
pub open spec fn rules_of_kind_from(
    rules: Seq<RouteRuleEntryView>,
    absent: bool,
    i: int,
    acc: Seq<RouteRuleEntryView>,
) -> Seq<RouteRuleEntryView>
    decreases rules.len() - i,
{
    if i < 0 || i >= rules.len() {
        acc
    } else if rules[i].absent() == absent {
        rules_of_kind_from(rules, absent, i + 1, acc.push(rules[i]))
    } else {
        rules_of_kind_from(rules, absent, i + 1, acc)
    }
}

/// The changed rules in the order of applying: first those to remove.
pub open spec fn rules_in_order(rules: Seq<RouteRuleEntryView>) -> Seq<RouteRuleEntryView> {
    rules_of_kind_from(rules, false, 0, rules_of_kind_from(rules, true, 0, Seq::empty()))
}

/// Adds the rules that are to be removed, or those that are not.
fn add_rules_of_kind(rules: &Vec<RouteRuleEntry>, absent: bool, res: &mut Vec<RouteRuleEntry>)
    ensures
        final(res).deep_view() == rules_of_kind_from(
            rules.deep_view(),
            absent,
            0,
            old(res).deep_view(),
        ),
{
    let ghost views = rules.deep_view();
    let ghost start = res.deep_view();
    let mut i: usize = 0;
    while i < rules.len()
        invariant
            i <= rules.len(),
            views == rules.deep_view(),
            rules_of_kind_from(views, absent, 0, start) == rules_of_kind_from(
                views,
                absent,
                i as int,
                res.deep_view(),
            ),
        decreases rules.len() - i,
    {
        assert(views[i as int] == rules[i as int]@);
        if rules[i].is_absent() == absent {
            push(res, rules[i].dup());
        }
        i = i + 1;
    }
}

impl MergedRouteRules {
    /// The changed rules in the order of applying: first those to remove.
    pub fn list_changes(&self) -> (res: Vec<RouteRuleEntry>)
        ensures
            res.deep_view() == rules_in_order(self@.changed_rules),
    {
        let mut res: Vec<RouteRuleEntry> = empty_list();
        add_rules_of_kind(&self.changed_rules, true, &mut res);
        add_rules_of_kind(&self.changed_rules, false, &mut res);
        res
    }
}

/// The value of a number of at most 255 with the digits from `i` on after
/// `value`, or the reason why it is none.
pub open spec fn prefix_digits(s: Seq<char>, i: int, value: nat) -> Result<nat, Seq<char>>
    decreases s.len() - i,
{
    if i < 0 || i >= s.len() {
        Ok(value)
    } else {
        match text::hex_digit(s[i]) {
            Some(digit) if digit < 10 => if 10 * value + digit > 255 {
                Err("number too large to fit in target type"@)
            } else {
                prefix_digits(s, i + 1, (10 * value + digit) as nat)
            },
            _ => Err("invalid digit found in string"@),
        }
    }
}

/// The prefix length that a text writes, or the reason why it writes none. A
/// plus sign may stand before the digits.
pub open spec fn prefix_length(s: Seq<char>) -> Result<nat, Seq<char>> {
    if s.len() == 0 {
        Err("cannot parse integer from empty string"@)
    } else if s[0] == '+' && s.len() > 1 {
        prefix_digits(s, 1, 0)
    } else {
        prefix_digits(s, 0, 0)
    }
}

/// The address and prefix length of the network of a rule, or the reason why
/// it is none of the family.
pub open spec fn rule_network(s: Seq<char>, ipv6: bool) -> Result<(IpAddr, u8), NipartErrorView> {
    let slash = text::last_position(s, '/', s.len() - 1);
    if slash < 0 {
        Err(error::invalid("Invalid route rule network '"@ + s + "'"@))
    } else {
        let len_text = s.subrange(slash + 1, s.len() as int);
        match prefix_length(len_text) {
            Err(reason) => Err(
                error::invalid(
                    "Invalid route rule prefix length '"@ + len_text + "': "@ + reason,
                ),
            ),
            Ok(len) => match addr::ip_addr(s.subrange(0, slash)) {
                Some(IpAddr::V6(n)) if ipv6 => Ok((IpAddr::V6(n), len as u8)),
                Some(IpAddr::V4(n)) if !ipv6 => Ok((IpAddr::V4(n), len as u8)),
                _ => if ipv6 {
                    Err(
                        error::invalid(
                            "Invalid IPv6 route rule network '"@ + s
                                + "': invalid IPv6 address syntax"@,
                        ),
                    )
                } else {
                    Err(
                        error::invalid(
                            "Invalid IPv4 route rule network '"@ + s
                                + "': invalid IPv4 address syntax"@,
                        ),
                    )
                },
            },
        }
    }
}

/// The network of a rule, if it has one.
pub open spec fn option_network(s: Option<Seq<char>>, ipv6: bool) -> Result<
    Option<(IpAddr, u8)>,
    NipartErrorView,
> {
    match s {
        None => Ok(None),
        Some(s) => match rule_network(s, ipv6) {
            Ok(network) => Ok(Some(network)),
            Err(e) => Err(e),
        },
    }
}

/// An attribute, or nothing when it is undefined.
pub open spec fn attr(attribute: RuleAttributeView, defined: bool) -> Seq<RuleAttributeView> {
    if defined {
        seq![attribute]
    } else {
        Seq::empty()
    }
}

/// The prefix length of a network, or zero.
pub open spec fn len_of(network: Option<(IpAddr, u8)>) -> u8 {
    match network {
        Some((_, len)) => len,
        None => 0,
    }
}

/// The address of a network, or the zero one.
pub open spec fn addr_of(network: Option<(IpAddr, u8)>) -> IpAddr {
    match network {
        Some((ip, _)) => ip,
        None => IpAddr::V4(0),
    }
}

/// The attributes of a rule for the kernel.
pub open spec fn attributes_of(
    rule: RouteRuleEntryView,
    source: Option<(IpAddr, u8)>,
    destination: Option<(IpAddr, u8)>,
) -> Seq<RuleAttributeView> {
    attr(
        RuleAttributeView::Table(rule.table_id->0),
        rule.table_id is Some && rule.table_id->0 > u8::MAX,
    ) + attr(RuleAttributeView::Source(addr_of(source)), source is Some) + attr(
        RuleAttributeView::Destination(addr_of(destination)),
        destination is Some,
    ) + attr(
        RuleAttributeView::Priority(rule.priority->0 as u32),
        rule.priority is Some,
    ) + attr(RuleAttributeView::FwMark(rule.fwmark->0), rule.fwmark is Some) + attr(
        RuleAttributeView::FwMask(rule.fwmask->0),
        rule.fwmask is Some,
    ) + attr(RuleAttributeView::Iifname(rule.iif->0), rule.iif is Some) + attr(
        RuleAttributeView::SuppressPrefixLen(rule.suppress_prefix_length->0),
        rule.suppress_prefix_length is Some,
    )
}

/// The table in the head of a rule for the kernel: one with a bigger number
/// stands in an attribute.
pub open spec fn head_table(rule: RouteRuleEntryView) -> u8 {
    match rule.table_id {
        Some(table_id) => if table_id <= u8::MAX {
            table_id as u8
        } else {
            0
        },
        None => if rule.action is None {
            RT_TABLE_MAIN
        } else {
            0
        },
    }
}

/// The rule for the kernel, or the reason why there is none.
pub open spec fn kernel_message(rule: RouteRuleEntryView) -> Result<
    RuleMessageView,
    NipartErrorView,
> {
    match option_network(rule.ip_from, rule.ipv6()) {
        Err(e) => Err(e),
        Ok(source) => match option_network(rule.ip_to, rule.ipv6()) {
            Err(e) => Err(e),
            Ok(destination) => if rule.priority is Some && !(0 <= rule.priority->0 <= u32::MAX) {
                Err(
                    error::invalid(
                        "Invalid route rule priority "@ + text::int_text(rule.priority->0 as int)
                            + ", expecting a non-negative integer"@,
                    ),
                )
            } else {
                Ok(
                    RuleMessageView {
                        family: if rule.ipv6() {
                            AddressFamily::Ipv6
                        } else {
                            AddressFamily::Ipv4
                        },
                        action: rule.action,
                        table: head_table(rule),
                        src_len: len_of(source),
                        dst_len: len_of(destination),
                        attributes: attributes_of(rule, source, destination),
                    },
                )
            },
        },
    }
}

/// The value of a number of at most 255 with the digits from `start` on.
fn parse_prefix_digits(s: &Vec<char>, start: usize) -> (res: Result<u8, &'static str>)
    requires
        start <= s.len(),
    ensures
        match prefix_digits(s@, start as int, 0) {
            Ok(value) => res is Ok && res->Ok_0 == value,
            Err(reason) => res is Err && res->Err_0@ == reason,
        },
{
    let mut value: u32 = 0;
    let mut i: usize = start;
    while i < s.len()
        invariant
            start <= i <= s.len(),
            value <= 255,
            prefix_digits(s@, start as int, 0) == prefix_digits(s@, i as int, value as nat),
        decreases s.len() - i,
    {
        match to_hex_digit(s[i]) {
            Some(digit) => {
                if digit >= 10 {
                    return Err("invalid digit found in string");
                }
                if 10 * value + digit > 255 {
                    return Err("number too large to fit in target type");
                }
                value = 10 * value + digit;
            },
            None => {
                return Err("invalid digit found in string");
            },
        }
        i = i + 1;
    }
    Ok(value as u8)
}

/// The prefix length that a text writes.
fn parse_prefix_length(s: &Vec<char>) -> (res: Result<u8, &'static str>)
    ensures
        match prefix_length(s@) {
            Ok(value) => res is Ok && res->Ok_0 == value,
            Err(reason) => res is Err && res->Err_0@ == reason,
        },
{
    if s.len() == 0 {
        return Err("cannot parse integer from empty string");
    }
    if s[0] == '+' && s.len() > 1 {
        return parse_prefix_digits(s, 1);
    }
    parse_prefix_digits(s, 0)
}

/// The address and prefix length of the network of a rule.
pub fn parse_ip_network(ip_net: &str, expect_ipv6: bool) -> (res: Result<(IpAddr, u8), NipartError>)
    ensures
        match rule_network(ip_net@, expect_ipv6) {
            Ok(network) => res is Ok && res->Ok_0 == network,
            Err(e) => res is Err && res->Err_0@ == e,
        },
{
    let s = to_chars(ip_net);
    let slash = match find_last_char(&s, '/') {
        Some(slash) => slash,
        None => {
            return Err(
                NipartError::new(
                    ErrorKind::InvalidArgument,
                    String::from_str("Invalid route rule network '").concat(ip_net).concat("'"),
                ),
            );
        },
    };
    let len_chars = slice_chars(&s, slash + 1, s.len());
    let len_text = from_chars(&len_chars);
    let prefix_len = match parse_prefix_length(&len_chars) {
        Ok(prefix_len) => prefix_len,
        Err(reason) => {
            return Err(
                NipartError::new(
                    ErrorKind::InvalidArgument,
                    String::from_str("Invalid route rule prefix length '").concat(
                        len_text.as_str(),
                    ).concat("': ").concat(reason),
                ),
            );
        },
    };
    let ip_text = from_chars(&slice_chars(&s, 0, slash));
    match parse_ip_addr(ip_text.as_str()) {
        Some(IpAddr::V6(n)) if expect_ipv6 => Ok((IpAddr::V6(n), prefix_len)),
        Some(IpAddr::V4(n)) if !expect_ipv6 => Ok((IpAddr::V4(n), prefix_len)),
        _ => if expect_ipv6 {
            Err(
                NipartError::new(
                    ErrorKind::InvalidArgument,
                    String::from_str("Invalid IPv6 route rule network '").concat(ip_net).concat(
                        "': invalid IPv6 address syntax",
                    ),
                ),
            )
        } else {
            Err(
                NipartError::new(
                    ErrorKind::InvalidArgument,
                    String::from_str("Invalid IPv4 route rule network '").concat(ip_net).concat(
                        "': invalid IPv4 address syntax",
                    ),
                ),
            )
        },
    }
}

/// The network of a rule, if it has one.
fn parse_option_network(s: &Option<String>, ipv6: bool) -> (res: Result<
    Option<(IpAddr, u8)>,
    NipartError,
>)
    ensures
        match option_network(s.deep_view(), ipv6) {
            Ok(network) => res is Ok && res->Ok_0 == network,
            Err(e) => res is Err && res->Err_0@ == e,
        },
{
    match s {
        None => Ok(None),
        Some(s) => match parse_ip_network(s.as_str(), ipv6) {
            Ok(network) => Ok(Some(network)),
            Err(e) => Err(e),
        },
    }
}

/// Adds an attribute when it is defined.
fn push_attr(attributes: &mut Vec<RuleAttribute>, attribute: Option<RuleAttribute>)
    ensures
        attribute is Some ==> final(attributes).deep_view() == old(attributes).deep_view() + attr(
            attribute->0@,
            true,
        ),
        attribute is None ==> final(attributes).deep_view() == old(attributes).deep_view(),
{
    if let Some(attribute) = attribute {
        let ghost before = attributes.deep_view();
        let ghost added = attribute@;
        push(attributes, attribute);
        assert(attributes.deep_view() =~= before + attr(added, true));
    }
}

/// The attributes of a rule for the kernel.
fn list_attributes(
    rule: &RouteRuleEntry,
    source: &Option<(IpAddr, u8)>,
    destination: &Option<(IpAddr, u8)>,
) -> (res: Vec<RuleAttribute>)
    requires
        rule.priority is Some ==> 0 <= rule.priority->0 <= u32::MAX,
    ensures
        res.deep_view() == attributes_of(rule@, *source, *destination),
{
    let mut res: Vec<RuleAttribute> = empty_list();
    if let Some(table_id) = rule.table_id {
        if table_id > 255 {
            push_attr(&mut res, Some(RuleAttribute::Table(table_id)));
        }
    }
    if let Some((ip, _)) = source {
        push_attr(&mut res, Some(RuleAttribute::Source(*ip)));
    }
    if let Some((ip, _)) = destination {
        push_attr(&mut res, Some(RuleAttribute::Destination(*ip)));
    }
    if let Some(priority) = rule.priority {
        push_attr(&mut res, Some(RuleAttribute::Priority(priority as u32)));
    }
    if let Some(fwmark) = rule.fwmark {
        push_attr(&mut res, Some(RuleAttribute::FwMark(fwmark)));
    }
    if let Some(fwmask) = rule.fwmask {
        push_attr(&mut res, Some(RuleAttribute::FwMask(fwmask)));
    }
    if let Some(iif) = &rule.iif {
        push_attr(&mut res, Some(RuleAttribute::Iifname(iif.dup())));
    }
    if let Some(len) = rule.suppress_prefix_length {
        push_attr(&mut res, Some(RuleAttribute::SuppressPrefixLen(len)));
    }
    assert(res.deep_view() =~= attributes_of(rule@, *source, *destination));
    res
}

/// The rule for the kernel.
pub fn nipart_rule_to_netlink_rule(rule: &RouteRuleEntry) -> (res: Result<RuleMessage, NipartError>)
    ensures
        error::same_result(res, kernel_message(rule@)),
{
    let is_ipv6 = rule.is_ipv6();
    let source = match parse_option_network(&rule.ip_from, is_ipv6) {
        Ok(source) => source,
        Err(e) => {
            return Err(e);
        },
    };
    let destination = match parse_option_network(&rule.ip_to, is_ipv6) {
        Ok(destination) => destination,
        Err(e) => {
            return Err(e);
        },
    };
    if let Some(priority) = rule.priority {
        if priority < 0 || priority > 0xffff_ffff {
            return Err(
                NipartError::new(
                    ErrorKind::InvalidArgument,
                    String::from_str("Invalid route rule priority ").concat(
                        signed_decimal(priority).as_str(),
                    ).concat(", expecting a non-negative integer"),
                ),
            );
        }
    }
    let table: u8 = match rule.table_id {
        Some(table_id) => if table_id <= 255 {
            table_id as u8
        } else {
            0
        },
        None => if rule.action.is_none() {
            RT_TABLE_MAIN
        } else {
            0
        },
    };
    Ok(
        RuleMessage {
            family: if is_ipv6 {
                AddressFamily::Ipv6
            } else {
                AddressFamily::Ipv4
            },
            action: rule.action,
            table,
            src_len: match &source {
                Some((_, len)) => *len,
                None => 0,
            },
            dst_len: match &destination {
                Some((_, len)) => *len,
                None => 0,
            },
            attributes: list_attributes(rule, &source, &destination),
        },
    )
}

/// Taking the rules of one kind out of a list takes each of them.
proof fn lemma_rules_of_kind(
    rules: Seq<RouteRuleEntryView>,
    absent: bool,
    i: int,
    acc: Seq<RouteRuleEntryView>,
    rule: RouteRuleEntryView,
)
    requires
        0 <= i <= rules.len(),
    ensures
        ({
            let res = rules_of_kind_from(rules, absent, i, acc);
            &&& acc.len() <= res.len()
            &&& forall|j: int| 0 <= j < acc.len() ==> res[j] == acc[j]
            &&& forall|j: int|
                acc.len() <= j < res.len() ==> (#[trigger] res[j]).absent() == absent
            &&& forall|j: int|
                i <= j < rules.len() && (#[trigger] rules[j]).absent() == absent ==> res.contains(
                    rules[j],
                )
            &&& res.contains(rule) ==> acc.contains(rule) || rules.contains(rule)
        }),
    decreases rules.len() - i,
{
    if i < rules.len() {
        if rules[i].absent() == absent {
            let next = acc.push(rules[i]);
            lemma_rules_of_kind(rules, absent, i + 1, next, rule);
            let res = rules_of_kind_from(rules, absent, i, acc);
            assert forall|j: int| 0 <= j < acc.len() implies res[j] == acc[j] by {
                assert(res[j] == next[j]);
            }
            assert(res[acc.len() as int] == next[acc.len() as int]);
            assert(res.contains(rules[i]));
            if next.contains(rule) && !acc.contains(rule) {
                let j = next.index_of(rule);
                if j < acc.len() {
                    assert(acc[j] == rule);
                }
            }
        } else {
            lemma_rules_of_kind(rules, absent, i + 1, acc, rule);
        }
    }
}

/// Rules are removed before any is added, so that a rule can be replaced, and
/// no change is left out or made up.
pub proof fn law_removals_first(
    rules: Seq<RouteRuleEntryView>,
    i: int,
    j: int,
    rule: RouteRuleEntryView,
)
    ensures
        ({
            let res = rules_in_order(rules);
            &&& 0 <= i < j < res.len() && res[j].absent() ==> res[i].absent()
            &&& res.contains(rule) == rules.contains(rule)
        }),
{
    let none = Seq::<RouteRuleEntryView>::empty();
    let removals = rules_of_kind_from(rules, true, 0, none);
    let res = rules_in_order(rules);
    lemma_rules_of_kind(rules, true, 0, none, rule);
    lemma_rules_of_kind(rules, false, 0, removals, rule);
    if 0 <= i < j < res.len() && res[j].absent() {
        assert(j < removals.len());
        assert(res[i] == removals[i]);
        assert(removals[i].absent());
    }
    if rules.contains(rule) {
        let k = rules.index_of(rule);
        assert(rules[k] == rule);
        if rule.absent() {
            assert(removals.contains(rules[k]));
            let l = removals.index_of(rule);
            assert(res[l] == rule);
        } else {
            assert(res.contains(rules[k]));
        }
    }
}

/// Whether no rule is to be removed.
pub open spec fn all_present(rules: Seq<RouteRuleEntryView>) -> bool {
    forall|i: int| 0 <= i < rules.len() ==> !(#[trigger] rules[i]).absent()
}

/// No rule that is shown is to be removed.
proof fn lemma_shown_present(rules: Seq<KernelRuleView>, i: int, acc: Seq<RouteRuleEntryView>)
    requires
        0 <= i,
        all_present(acc),
    ensures
        all_present(shown_rules_from(rules, i, acc)),
    decreases rules.len() - i,
{
    if i < rules.len() {
        match shown_rule(rules[i]) {
            Some(rule) => {
                assert(all_present(acc.push(rule)));
                lemma_shown_present(rules, i + 1, acc.push(rule));
            },
            None => {
                lemma_shown_present(rules, i + 1, acc);
            },
        }
    }
}

/// Rules of protocols that belong to other programs are not shown, and none of
/// those that are shown is to be removed. They are shown in order, each once.
pub proof fn law_shown_rules(rules: Seq<KernelRuleView>, rule: KernelRuleView)
    ensures
        rule.protocol is Some && rule.protocol->0 is Other ==> shown_rule(rule) is None,
        all_present(shown_rules_from(rules, 0, Seq::empty())),
        order::in_order::<RouteRuleEntry>(shown_rules(rules).rules()),
        order::distinct::<RouteRuleEntry>(shown_rules(rules).rules()),
{
    lemma_shown_present(rules, 0, Seq::empty());
    let shown = shown_rules_from(rules, 0, Seq::empty());
    order::law_sorted::<RouteRuleEntry>(shown);
    order::law_dedup_distinct::<RouteRuleEntry>(order::sorted::<RouteRuleEntry>(shown));
}

/// A list of attributes with another one behind it holds what either holds.
proof fn lemma_both(
    a: Seq<RuleAttributeView>,
    b: Seq<RuleAttributeView>,
    attribute: RuleAttributeView,
)
    ensures
        (a + b).contains(attribute) <==> a.contains(attribute) || b.contains(attribute),
{
    let both = a + b;
    if a.contains(attribute) {
        assert(both[a.index_of(attribute)] == attribute);
    }
    if b.contains(attribute) {
        assert(both[a.len() + b.index_of(attribute)] == attribute);
    }
    if both.contains(attribute) {
        let i = both.index_of(attribute);
        if i < a.len() {
            assert(a[i] == attribute);
        } else {
            assert(b[i - a.len()] == attribute);
        }
    }
}

/// An attribute that is defined is there, and nothing else.
proof fn lemma_attr(own: RuleAttributeView, defined: bool, attribute: RuleAttributeView)
    ensures
        attr(own, defined).contains(attribute) <==> defined && own == attribute,
{
    if defined {
        assert(attr(own, defined)[0] == own);
    }
}

/// A rule for the kernel has an attribute for every property that the rule
/// defines, and no other: for a table whose number does not fit its head, for
/// the networks, the priority, the mark and its mask, the interface and the
/// length of the suppressed prefixes.
pub proof fn law_kernel_message(rule: RouteRuleEntryView, attribute: RuleAttributeView)
    requires
        kernel_message(rule) is Ok,
    ensures
        ({
            let message = kernel_message(rule)->Ok_0;
            let source = option_network(rule.ip_from, rule.ipv6())->Ok_0;
            let destination = option_network(rule.ip_to, rule.ipv6())->Ok_0;
            &&& message.action == rule.action
            &&& message.family is Ipv6 <==> rule.ipv6()
            &&& rule.table_id is Some && rule.table_id->0 <= 255 ==> message.table
                == rule.table_id->0
            &&& source matches Some((_, len)) ==> message.src_len == len
            &&& destination matches Some((_, len)) ==> message.dst_len == len
            &&& message.attributes.contains(attribute) <==> match attribute {
                RuleAttributeView::Table(table) => rule.table_id == Some(table) && table > 255,
                RuleAttributeView::Source(ip) => source is Some && addr_of(source) == ip,
                RuleAttributeView::Destination(ip) => destination is Some && addr_of(destination)
                    == ip,
                RuleAttributeView::Priority(priority) => rule.priority is Some
                    && rule.priority->0 == priority,
                RuleAttributeView::FwMark(mark) => rule.fwmark == Some(mark),
                RuleAttributeView::FwMask(mask) => rule.fwmask == Some(mask),
                RuleAttributeView::Iifname(name) => rule.iif == Some(name),
                RuleAttributeView::SuppressPrefixLen(len) => rule.suppress_prefix_length == Some(
                    len,
                ),
            }
        }),
{
    let source = option_network(rule.ip_from, rule.ipv6())->Ok_0;
    let destination = option_network(rule.ip_to, rule.ipv6())->Ok_0;
    let a1 = RuleAttributeView::Table(rule.table_id->0);
    let d1 = rule.table_id is Some && rule.table_id->0 > u8::MAX;
    let a2 = RuleAttributeView::Source(addr_of(source));
    let d2 = source is Some;
    let a3 = RuleAttributeView::Destination(addr_of(destination));
    let d3 = destination is Some;
    let a4 = RuleAttributeView::Priority(rule.priority->0 as u32);
    let d4 = rule.priority is Some;
    let a5 = RuleAttributeView::FwMark(rule.fwmark->0);
    let d5 = rule.fwmark is Some;
    let a6 = RuleAttributeView::FwMask(rule.fwmask->0);
    let d6 = rule.fwmask is Some;
    let a7 = RuleAttributeView::Iifname(rule.iif->0);
    let d7 = rule.iif is Some;
    let a8 = RuleAttributeView::SuppressPrefixLen(rule.suppress_prefix_length->0);
    let d8 = rule.suppress_prefix_length is Some;
    let s2 = attr(a1, d1) + attr(a2, d2);
    let s3 = s2 + attr(a3, d3);
    let s4 = s3 + attr(a4, d4);
    let s5 = s4 + attr(a5, d5);
    let s6 = s5 + attr(a6, d6);
    let s7 = s6 + attr(a7, d7);
    lemma_both(attr(a1, d1), attr(a2, d2), attribute);
    lemma_both(s2, attr(a3, d3), attribute);
    lemma_both(s3, attr(a4, d4), attribute);
    lemma_both(s4, attr(a5, d5), attribute);
    lemma_both(s5, attr(a6, d6), attribute);
    lemma_both(s6, attr(a7, d7), attribute);
    lemma_both(s7, attr(a8, d8), attribute);
    lemma_attr(a1, d1, attribute);
    lemma_attr(a2, d2, attribute);
    lemma_attr(a3, d3, attribute);
    lemma_attr(a4, d4, attribute);
    lemma_attr(a5, d5, attribute);
    lemma_attr(a6, d6, attribute);
    lemma_attr(a7, d7, attribute);
    lemma_attr(a8, d8, attribute);
}

} // verus!
