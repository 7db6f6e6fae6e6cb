//! Routing rules.

use vstd::prelude::*;
use vstd::string::*;

use crate::addr::{canonical_ip_network, is_ipv6_addr, sanitize_ip_network};
use crate::error::{ErrorKind, NipartError, NipartErrorView};
use crate::order::{Keyed, insert_item, sort};
use crate::text::{
    is_text_before, join, option_decimal, option_hexadecimal, option_signed_decimal, option_text,
    push_prop, push_text_prop, quote_option, show_option, text_eq,
};
use crate::value::Value;
use crate::{addr, addr_laws, error, order, text, value};

verus! {

pub const ROUTE_RULE_DEFAULT_PRIORITY: i64 = 30000;

pub const ROUTE_RULE_DEFAULT_ROUTE_TABLE_ID: u32 = 254;

/// Whether a route rule is to be removed.
#[derive(Clone, Copy, Debug, PartialEq, Eq, Hash, Structural)]
#[non_exhaustive]
pub enum RouteRuleState {
    /// Used for deleting a route rule.
    Absent,
}

impl DeepView for RouteRuleState {
    type V = RouteRuleState;

    open spec fn deep_view(&self) -> RouteRuleState {
        *self
    }
}

impl Value for RouteRuleState {
    fn dup(&self) -> (res: Self) {
        *self
    }

    fn same(&self, other: &Self) -> (res: bool) {
        *self == *other
    }
}

/// The address family of a route rule.
#[derive(Clone, Copy, Debug, PartialEq, Eq, Hash, Structural)]
#[non_exhaustive]
pub enum AddressFamily {
    Ipv4,
    Ipv6,
}

impl DeepView for AddressFamily {
    type V = AddressFamily;

    open spec fn deep_view(&self) -> AddressFamily {
        *self
    }
}

impl Value for AddressFamily {
    fn dup(&self) -> (res: Self) {
        *self
    }

    fn same(&self, other: &Self) -> (res: bool) {
        *self == *other
    }
}

/// What a rule does with the packets that it matches.
#[derive(Clone, Copy, Debug, PartialEq, Eq, Hash, Structural)]
#[non_exhaustive]
pub enum RouteRuleAction {
    Blackhole,
    Unreachable,
    Prohibit,
}

impl DeepView for RouteRuleAction {
    type V = RouteRuleAction;

    open spec fn deep_view(&self) -> RouteRuleAction {
        *self
    }
}

impl Value for RouteRuleAction {
    fn dup(&self) -> (res: Self) {
        *self
    }

    fn same(&self, other: &Self) -> (res: bool) {
        *self == *other
    }
}

/// A routing rule.
#[derive(Clone, Debug)]
pub struct RouteRuleEntry {
    /// The address family of the route rule.
    pub family: Option<AddressFamily>,
    /// Whether this is a normal or an absent route rule.
    pub state: Option<RouteRuleState>,
    /// Source prefix to match.
    pub ip_from: Option<String>,
    /// Destination prefix to match.
    pub ip_to: Option<String>,
    /// Priority of this route rule. A bigger number means lower priority.
    pub priority: Option<i64>,
    /// The routing table to look up when the rule matches.
    pub table_id: Option<u32>,
    /// Firewall mark to match.
    pub fwmark: Option<u32>,
    /// Firewall mark mask to match.
    pub fwmask: Option<u32>,
    /// Action performed on matching packets.
    pub action: Option<RouteRuleAction>,
    /// Incoming interface.
    pub iif: Option<String>,
    /// Prefix length to suppress.
    pub suppress_prefix_length: Option<u32>,
}

/// What a [RouteRuleEntry] stands for.
#[verifier::ext_equal]
pub struct RouteRuleEntryView {
    pub family: Option<AddressFamily>,
    pub state: Option<RouteRuleState>,
    pub ip_from: Option<Seq<char>>,
    pub ip_to: Option<Seq<char>>,
    pub priority: Option<i64>,
    pub table_id: Option<u32>,
    pub fwmark: Option<u32>,
    pub fwmask: Option<u32>,
    pub action: Option<RouteRuleAction>,
    pub iif: Option<Seq<char>>,
    pub suppress_prefix_length: Option<u32>,
}

impl View for RouteRuleEntry {
    type V = RouteRuleEntryView;

    open spec fn view(&self) -> RouteRuleEntryView {
        RouteRuleEntryView {
            family: self.family.deep_view(),
            state: self.state.deep_view(),
            ip_from: self.ip_from.deep_view(),
            ip_to: self.ip_to.deep_view(),
            priority: self.priority.deep_view(),
            table_id: self.table_id.deep_view(),
            fwmark: self.fwmark.deep_view(),
            fwmask: self.fwmask.deep_view(),
            action: self.action.deep_view(),
            iif: self.iif.deep_view(),
            suppress_prefix_length: self.suppress_prefix_length.deep_view(),
        }
    }
}

impl DeepView for RouteRuleEntry {
    type V = RouteRuleEntryView;

    open spec fn deep_view(&self) -> RouteRuleEntryView {
        self@
    }
}

impl Value for RouteRuleEntry {
    fn dup(&self) -> (res: Self) {
        RouteRuleEntry {
            family: self.family.dup(),
            state: self.state.dup(),
            ip_from: self.ip_from.dup(),
            ip_to: self.ip_to.dup(),
            priority: self.priority.dup(),
            table_id: self.table_id.dup(),
            fwmark: self.fwmark.dup(),
            fwmask: self.fwmask.dup(),
            action: self.action.dup(),
            iif: self.iif.dup(),
            suppress_prefix_length: self.suppress_prefix_length.dup(),
        }
    }

    fn same(&self, other: &Self) -> (res: bool) {
        self.family.same(&other.family) && self.state.same(&other.state) && self.ip_from.same(&other.ip_from) && self.ip_to.same(&other.ip_to) && self.priority.same(&other.priority) && self.table_id.same(&other.table_id) && self.fwmark.same(&other.fwmark) && self.fwmask.same(&other.fwmask) && self.action.same(&other.action) && self.iif.same(&other.iif) && self.suppress_prefix_length.same(&other.suppress_prefix_length)
    }
}

/// Routing rules.
///
/// When applying, an undefined `config` keeps the existing rules. Desired rules
/// are added to the existing ones; a rule marked as [RouteRuleState::Absent]
/// removes every existing rule that it matches, and any property that it leaves
/// undefined matches everything.
#[derive(Clone, Debug, PartialEq, Eq)]
pub struct RouteRules {
    pub config: Option<Vec<RouteRuleEntry>>,
}

/// What a [RouteRules] stands for.
#[verifier::ext_equal]
pub struct RouteRulesView {
    pub config: Option<Seq<RouteRuleEntryView>>,
}

impl View for RouteRules {
    type V = RouteRulesView;

    open spec fn view(&self) -> RouteRulesView {
        RouteRulesView {
            config: self.config.deep_view(),
        }
    }
}

impl DeepView for RouteRules {
    type V = RouteRulesView;

    open spec fn deep_view(&self) -> RouteRulesView {
        self@
    }
}

impl Value for RouteRules {
    fn dup(&self) -> (res: Self) {
        RouteRules {
            config: self.config.dup(),
        }
    }

    fn same(&self, other: &Self) -> (res: bool) {
        self.config.same(&other.config)
    }
}

impl Default for RouteRuleState {
    fn default() -> (res: Self)
        ensures
            res == RouteRuleState::Absent,
    {
        RouteRuleState::Absent
    }
}

impl Default for AddressFamily {
    fn default() -> (res: Self)
        ensures
            res == AddressFamily::Ipv4,
    {
        AddressFamily::Ipv4
    }
}

impl AddressFamily {
    /// The name of the family.
    pub open spec fn name(self) -> Seq<char> {
        match self {
            AddressFamily::Ipv4 => "ipv4"@,
            AddressFamily::Ipv6 => "ipv6"@,
        }
    }

    /// The name of the family.
    pub fn as_str(&self) -> (res: &'static str)
        ensures
            res@ == self.name(),
    {
        match self {
            AddressFamily::Ipv4 => "ipv4",
            AddressFamily::Ipv6 => "ipv6",
        }
    }

    /// The name of the variant.
    pub open spec fn variant(self) -> Seq<char> {
        match self {
            AddressFamily::Ipv4 => "Ipv4"@,
            AddressFamily::Ipv6 => "Ipv6"@,
        }
    }

    /// The name of the variant.
    fn variant_name(&self) -> (res: &'static str)
        ensures
            res@ == self.variant(),
    {
        match self {
            AddressFamily::Ipv4 => "Ipv4",
            AddressFamily::Ipv6 => "Ipv6",
        }
    }
}

impl RouteRuleAction {
    /// The name of the action.
    pub open spec fn name(self) -> Seq<char> {
        match self {
            RouteRuleAction::Blackhole => "blackhole"@,
            RouteRuleAction::Unreachable => "unreachable"@,
            RouteRuleAction::Prohibit => "prohibit"@,
        }
    }

    /// The number that the kernel gives the action.
    pub open spec fn code(self) -> u8 {
        match self {
            RouteRuleAction::Blackhole => 6,
            RouteRuleAction::Unreachable => 7,
            RouteRuleAction::Prohibit => 8,
        }
    }

    /// The number that the kernel gives the action.
    pub fn to_code(&self) -> (res: u8)
        ensures
            res == self.code(),
    {
        match self {
            RouteRuleAction::Blackhole => 6,
            RouteRuleAction::Unreachable => 7,
            RouteRuleAction::Prohibit => 8,
        }
    }

    /// The name of the action.
    pub fn as_str(&self) -> (res: &'static str)
        ensures
            res@ == self.name(),
    {
        match self {
            RouteRuleAction::Blackhole => "blackhole",
            RouteRuleAction::Unreachable => "unreachable",
            RouteRuleAction::Prohibit => "prohibit",
        }
    }

    /// The name of the variant.
    pub open spec fn variant(self) -> Seq<char> {
        match self {
            RouteRuleAction::Blackhole => "Blackhole"@,
            RouteRuleAction::Unreachable => "Unreachable"@,
            RouteRuleAction::Prohibit => "Prohibit"@,
        }
    }

    /// The name of the variant.
    fn variant_name(&self) -> (res: &'static str)
        ensures
            res@ == self.variant(),
    {
        match self {
            RouteRuleAction::Blackhole => "Blackhole",
            RouteRuleAction::Unreachable => "Unreachable",
            RouteRuleAction::Prohibit => "Prohibit",
        }
    }
}

impl From<RouteRuleAction> for u8 {
    fn from(v: RouteRuleAction) -> (res: u8) {
        v.to_code()
    }
}

impl vstd::std_specs::convert::FromSpecImpl<RouteRuleAction> for u8 {
    open spec fn obeys_from_spec() -> bool {
        true
    }

    open spec fn from_spec(v: RouteRuleAction) -> u8 {
        v.code()
    }
}

/// What route rules are ordered and told apart by.
pub struct RuleKey {
    pub present: bool,
    pub ipv4: bool,
    pub table_id: u32,
    pub ip_from: Seq<char>,
    pub ip_to: Seq<char>,
    pub priority: i64,
    pub fwmark: u32,
    pub fwmask: u32,
    pub action: u8,
    pub suppress_prefix_length: u32,
    pub iif: Seq<char>,
}

impl RuleKey {
    /// Whether this key stands before `other`: the first field in which they
    /// differ decides.
    pub open spec fn before(self, other: RuleKey) -> bool {
        if self.present != other.present {
            other.present
        } else if self.ipv4 != other.ipv4 {
            other.ipv4
        } else if self.table_id != other.table_id {
            self.table_id < other.table_id
        } else if self.ip_from != other.ip_from {
            text::text_before(self.ip_from, other.ip_from)
        } else if self.ip_to != other.ip_to {
            text::text_before(self.ip_to, other.ip_to)
        } else if self.priority != other.priority {
            self.priority < other.priority
        } else if self.fwmark != other.fwmark {
            self.fwmark < other.fwmark
        } else if self.fwmask != other.fwmask {
            self.fwmask < other.fwmask
        } else if self.action != other.action {
            self.action < other.action
        } else if self.suppress_prefix_length != other.suppress_prefix_length {
            self.suppress_prefix_length < other.suppress_prefix_length
        } else {
            text::text_before(self.iif, other.iif)
        }
    }
}

/// Whether the prefix of a desired rule matches the one of another rule: an
/// undefined prefix matches everything, an empty one only a rule without a
/// prefix, and any other one the rule with the same canonical prefix.
pub open spec fn prefix_matches(desired: Option<Seq<char>>, other: Option<Seq<char>>) -> bool {
    match desired {
        None => true,
        Some(prefix) => if prefix.len() > 0 {
            addr::canonical_network(prefix) is Some && other == addr::canonical_network(prefix)
        } else {
            other is None || other->0.len() == 0
        },
    }
}

/// The family of the network `s`.
pub open spec fn family_of(s: Seq<char>) -> AddressFamily {
    if addr::ipv6_like(s) {
        AddressFamily::Ipv6
    } else {
        AddressFamily::Ipv4
    }
}

impl RouteRuleEntryView {
    /// A rule with nothing defined.
    pub open spec fn undefined() -> RouteRuleEntryView {
        RouteRuleEntryView {
            family: None,
            state: None,
            ip_from: None,
            ip_to: None,
            priority: None,
            table_id: None,
            fwmark: None,
            fwmask: None,
            action: None,
            iif: None,
            suppress_prefix_length: None,
        }
    }

    /// Whether the rule is to be removed.
    pub open spec fn absent(self) -> bool {
        self.state is Some
    }

    /// Whether the rule is one of IPv6.
    pub open spec fn ipv6(self) -> bool {
        ||| self.family == Some(AddressFamily::Ipv6)
        ||| self.ip_from is Some && addr::ipv6_like(self.ip_from->0)
        ||| self.ip_to is Some && addr::ipv6_like(self.ip_to->0)
    }

    /// What the rule is ordered and told apart by.
    pub open spec fn key(self) -> RuleKey {
        RuleKey {
            present: !self.absent(),
            ipv4: match (self.ip_from, self.ip_to, self.family) {
                (Some(ip_from), _, _) => !addr::ipv6_like(ip_from),
                (None, Some(ip_to), _) => !addr::ipv6_like(ip_to),
                (None, None, Some(family)) => family == AddressFamily::Ipv4,
                (None, None, None) => true,
            },
            table_id: self.table_id.unwrap_or(RouteRuleEntry::USE_DEFAULT_ROUTE_TABLE),
            ip_from: self.ip_from.unwrap_or(Seq::empty()),
            ip_to: self.ip_to.unwrap_or(Seq::empty()),
            priority: self.priority.unwrap_or(RouteRuleEntry::USE_DEFAULT_PRIORITY),
            fwmark: self.fwmark.unwrap_or(0),
            fwmask: self.fwmask.unwrap_or(0),
            action: match self.action {
                Some(action) => action.code(),
                None => 0,
            },
            suppress_prefix_length: self.suppress_prefix_length.unwrap_or(0),
            iif: self.iif.unwrap_or(Seq::empty()),
        }
    }

    /// Whether this desired rule matches `other`. Whatever it leaves undefined
    /// matches everything.
    pub open spec fn matches_rule(self, other: RouteRuleEntryView) -> bool {
        &&& prefix_matches(self.ip_from, other.ip_from)
        &&& prefix_matches(self.ip_to, other.ip_to)
        &&& self.family is None || other.family is None || self.family == other.family
        &&& {
            ||| self.priority is None
            ||| self.priority == Some(RouteRuleEntry::USE_DEFAULT_PRIORITY)
            ||| self.priority == other.priority
            ||| self.priority == Some(0i64) && other.priority is None
        }
        &&& {
            ||| self.table_id is None
            ||| self.table_id == Some(RouteRuleEntry::USE_DEFAULT_ROUTE_TABLE)
            ||| self.table_id == other.table_id
        }
        &&& self.fwmark is None || self.fwmark->0 == other.fwmark.unwrap_or(0)
        &&& self.fwmask is None || self.fwmask->0 == other.fwmask.unwrap_or(0)
        &&& self.iif is None || self.iif == other.iif
        &&& self.action is None || self.action == other.action
        &&& self.suppress_prefix_length is None || self.suppress_prefix_length
            == other.suppress_prefix_length
    }

    /// The properties of the rule as text.
    pub open spec fn props(self) -> Seq<Seq<char>> {
        text::prop("state: "@, if self.absent() { Some("absent"@) } else { None }) + text::prop(
            "family: "@,
            match self.family {
                Some(family) => Some(family.name()),
                None => None,
            },
        ) + text::prop("ip-from: "@, self.ip_from) + text::prop("ip-to: "@, self.ip_to)
            + text::prop("priority: "@, text::option_int(self.priority)) + text::prop(
            "route-table: "@,
            text::option_number(self.table_id, 10),
        ) + text::prop("fwmask: 0x"@, text::option_number(self.fwmask, 16)) + text::prop(
            "fwmark: 0x"@,
            text::option_number(self.fwmark, 16),
        ) + text::prop("iif: "@, self.iif) + text::prop(
            "action: "@,
            match self.action {
                Some(action) => Some(action.name()),
                None => None,
            },
        ) + text::prop(
            "suppress-prefix-length: "@,
            text::option_number(self.suppress_prefix_length, 10),
        )
    }

    /// The rule as text with all of its properties.
    pub open spec fn detail(self) -> Seq<char> {
        "RouteRuleEntry { family: "@ + text::option_shown(
            match self.family {
                Some(family) => Some(family.variant()),
                None => None,
            },
        ) + ", state: "@ + text::option_shown(
            if self.absent() {
                Some("Absent"@)
            } else {
                None
            },
        ) + ", ip_from: "@ + text::option_shown(text::option_quoted(self.ip_from)) + ", ip_to: "@
            + text::option_shown(text::option_quoted(self.ip_to)) + ", priority: "@
            + text::option_shown(text::option_int(self.priority)) + ", table_id: "@
            + text::option_shown(text::option_number(self.table_id, 10)) + ", fwmark: "@
            + text::option_shown(text::option_number(self.fwmark, 10)) + ", fwmask: "@
            + text::option_shown(text::option_number(self.fwmask, 10)) + ", action: "@
            + text::option_shown(
            match self.action {
                Some(action) => Some(action.variant()),
                None => None,
            },
        ) + ", iif: "@ + text::option_shown(text::option_quoted(self.iif))
            + ", suppress_prefix_length: "@ + text::option_shown(
            text::option_number(self.suppress_prefix_length, 10),
        ) + " }"@
    }

    /// The rule as text.
    pub open spec fn text(self) -> Seq<char> {
        text::joined(self.props(), " "@)
    }

    /// Whether the rule may be applied: it says which family it is of, its
    /// prefixes are of the family that it names, and it has no mask without a
    /// mark.
    pub open spec fn validated(self) -> Result<(), NipartErrorView> {
        if self.ip_from is None && self.ip_to is None && self.family is None {
            Err(
                error::invalid(
                    "Neither ip-from, ip-to nor family is defined '"@ + self.text() + "'"@,
                ),
            )
        } else if self.family is Some && self.ip_from is Some && family_of(self.ip_from->0)
            != self.family->0 {
            Err(
                error::invalid(
                    "The ip-from format mismatches with the family set '"@ + self.text() + "'"@,
                ),
            )
        } else if self.family is Some && self.ip_to is Some && family_of(self.ip_to->0)
            != self.family->0 {
            Err(
                error::invalid(
                    "The ip-to format mismatches with the family set '"@ + self.text() + "'"@,
                ),
            )
        } else if self.fwmark is None && self.fwmask is Some {
            Err(
                error::invalid(
                    "fwmask is present but fwmark is not defined or is zero "@ + self.detail(),
                ),
            )
        } else {
            Ok(())
        }
    }

    /// The rule with its `ip_from` in canonical form and the family that it
    /// implies, when none is defined. An empty prefix becomes an undefined one.
    pub open spec fn with_canonical_from(self) -> Result<RouteRuleEntryView, NipartErrorView> {
        match self.ip_from {
            None => Ok(self),
            Some(ip_from) => if ip_from.len() == 0 {
                Ok(RouteRuleEntryView { ip_from: None, ..self })
            } else {
                match addr::sanitized_network(ip_from) {
                    Ok(network) => Ok(
                        RouteRuleEntryView {
                            ip_from: Some(network),
                            family: Some(self.family.unwrap_or(family_of(network))),
                            ..self
                        },
                    ),
                    Err(e) => Err(e),
                }
            },
        }
    }

    /// The same for its `ip_to`.
    pub open spec fn with_canonical_to(self) -> Result<RouteRuleEntryView, NipartErrorView> {
        match self.ip_to {
            None => Ok(self),
            Some(ip_to) => if ip_to.len() == 0 {
                Ok(RouteRuleEntryView { ip_to: None, ..self })
            } else {
                match addr::sanitized_network(ip_to) {
                    Ok(network) => Ok(
                        RouteRuleEntryView {
                            ip_to: Some(network),
                            family: Some(self.family.unwrap_or(family_of(network))),
                            ..self
                        },
                    ),
                    Err(e) => Err(e),
                }
            },
        }
    }

    /// What sanitizing makes of the rule, and how it ends. A rule without an
    /// action and without a route table looks up the main table.
    pub open spec fn sanitize_steps(self) -> (RouteRuleEntryView, Result<(), NipartErrorView>) {
        match self.with_canonical_from() {
            Err(e) => (self, Err(e)),
            Ok(first) => match first.with_canonical_to() {
                Err(e) => (first, Err(e)),
                Ok(second) => match second.validated() {
                    Err(e) => (second, Err(e)),
                    Ok(_) => (
                        RouteRuleEntryView {
                            table_id: if second.action is None && second.table_id is None {
                                Some(ROUTE_RULE_DEFAULT_ROUTE_TABLE_ID)
                            } else {
                                second.table_id
                            },
                            ..second
                        },
                        Ok(()),
                    ),
                },
            },
        }
    }

    /// The sanitized rule.
    pub open spec fn sanitized(self) -> Result<RouteRuleEntryView, NipartErrorView> {
        match self.sanitize_steps() {
            (rule, Ok(_)) => Ok(rule),
            (_, Err(e)) => Err(e),
        }
    }
}

impl Keyed for RouteRuleEntry {
    open spec fn before(a: RouteRuleEntryView, b: RouteRuleEntryView) -> bool {
        a.key().before(b.key())
    }

    open spec fn same_key(a: RouteRuleEntryView, b: RouteRuleEntryView) -> bool {
        a.key() == b.key()
    }

    proof fn law_total(a: RouteRuleEntryView, b: RouteRuleEntryView) {
        let (x, y) = (a.key(), b.key());
        text::lemma_text_before_total(x.ip_from, y.ip_from, 0);
        text::lemma_text_before_total(x.ip_to, y.ip_to, 0);
        text::lemma_text_before_total(x.iif, y.iif, 0);
    }

    proof fn law_transitive(a: RouteRuleEntryView, b: RouteRuleEntryView, c: RouteRuleEntryView) {
        let (x, y, z) = (a.key(), b.key(), c.key());
        if text::text_before(x.ip_from, y.ip_from) && text::text_before(y.ip_from, z.ip_from) {
            text::lemma_text_before_transitive(x.ip_from, y.ip_from, z.ip_from, 0);
        }
        if text::text_before(x.ip_to, y.ip_to) && text::text_before(y.ip_to, z.ip_to) {
            text::lemma_text_before_transitive(x.ip_to, y.ip_to, z.ip_to, 0);
        }
        if text::text_before(x.iif, y.iif) && text::text_before(y.iif, z.iif) {
            text::lemma_text_before_transitive(x.iif, y.iif, z.iif, 0);
        }
        text::lemma_text_before_total(x.ip_from, y.ip_from, 0);
        text::lemma_text_before_total(x.ip_from, z.ip_from, 0);
        text::lemma_text_before_total(x.ip_to, y.ip_to, 0);
        text::lemma_text_before_total(x.ip_to, z.ip_to, 0);
    }

    proof fn law_same_key(a: RouteRuleEntryView, b: RouteRuleEntryView, c: RouteRuleEntryView) {
    }

    fn is_before(&self, other: &Self) -> (res: bool) {
        proof {
            text::lemma_text_before_total(self@.key().iif, other@.key().iif, 0);
        }
        if self.is_absent() != other.is_absent() {
            return self.is_absent();
        }
        if self.key_is_ipv4() != other.key_is_ipv4() {
            return other.key_is_ipv4();
        }
        if self.key_table_id() != other.key_table_id() {
            return self.key_table_id() < other.key_table_id();
        }
        let (a, b) = (option_text(&self.ip_from), option_text(&other.ip_from));
        if !text_eq(a, b) {
            return is_text_before(a, b);
        }
        let (a, b) = (option_text(&self.ip_to), option_text(&other.ip_to));
        if !text_eq(a, b) {
            return is_text_before(a, b);
        }
        if self.key_priority() != other.key_priority() {
            return self.key_priority() < other.key_priority();
        }
        if self.fwmark.unwrap_or(0) != other.fwmark.unwrap_or(0) {
            return self.fwmark.unwrap_or(0) < other.fwmark.unwrap_or(0);
        }
        if self.fwmask.unwrap_or(0) != other.fwmask.unwrap_or(0) {
            return self.fwmask.unwrap_or(0) < other.fwmask.unwrap_or(0);
        }
        if self.key_action() != other.key_action() {
            return self.key_action() < other.key_action();
        }
        if self.suppress_prefix_length.unwrap_or(0) != other.suppress_prefix_length.unwrap_or(0) {
            return self.suppress_prefix_length.unwrap_or(0) < other.suppress_prefix_length.unwrap_or(
                0,
            );
        }
        is_text_before(option_text(&self.iif), option_text(&other.iif))
    }

    fn has_same_key(&self, other: &Self) -> (res: bool) {
        self.is_absent() == other.is_absent() && self.key_is_ipv4() == other.key_is_ipv4()
            && self.key_table_id() == other.key_table_id() && text_eq(
            option_text(&self.ip_from),
            option_text(&other.ip_from),
        ) && text_eq(option_text(&self.ip_to), option_text(&other.ip_to)) && self.key_priority()
            == other.key_priority() && self.fwmark.unwrap_or(0) == other.fwmark.unwrap_or(0)
            && self.fwmask.unwrap_or(0) == other.fwmask.unwrap_or(0) && self.key_action()
            == other.key_action() && self.suppress_prefix_length.unwrap_or(0)
            == other.suppress_prefix_length.unwrap_or(0) && text_eq(
            option_text(&self.iif),
            option_text(&other.iif),
        )
    }
}

impl PartialEq for RouteRuleEntry {
    fn eq(&self, other: &Self) -> (res: bool) {
        self.has_same_key(other)
    }
}

impl vstd::std_specs::cmp::PartialEqSpecImpl for RouteRuleEntry {
    open spec fn obeys_eq_spec() -> bool {
        true
    }

    open spec fn eq_spec(&self, other: &Self) -> bool {
        self@.key() == other@.key()
    }
}

impl Eq for RouteRuleEntry {

}

impl Default for RouteRuleEntry {
    fn default() -> (res: Self)
        ensures
            res@ == RouteRuleEntryView::undefined(),
    {
        RouteRuleEntry {
            family: None,
            state: None,
            ip_from: None,
            ip_to: None,
            priority: None,
            table_id: None,
            fwmark: None,
            fwmask: None,
            action: None,
            iif: None,
            suppress_prefix_length: None,
        }
    }
}

impl RouteRuleEntry {
    /// Let the network backend choose the default priority.
    pub const USE_DEFAULT_PRIORITY: i64 = -1;

    /// Use the main route table 254.
    pub const USE_DEFAULT_ROUTE_TABLE: u32 = 0;

    /// Default route table main(254).
    pub const DEFAULT_ROUTE_TABLE_ID: u32 = ROUTE_RULE_DEFAULT_ROUTE_TABLE_ID;

    pub fn new() -> (res: Self)
        ensures
            res@ == RouteRuleEntryView::undefined(),
    {
        Self::default()
    }

    pub fn is_absent(&self) -> (res: bool)
        ensures
            res == self@.absent(),
    {
        matches!(self.state, Some(RouteRuleState::Absent))
    }

    /// Whether the rule is one of IPv6.
    pub fn is_ipv6(&self) -> (res: bool)
        ensures
            res == self@.ipv6(),
    {
        if let Some(AddressFamily::Ipv6) = self.family {
            return true;
        }
        if let Some(ip_from) = &self.ip_from {
            if is_ipv6_addr(ip_from.as_str()) {
                return true;
            }
        }
        if let Some(ip_to) = &self.ip_to {
            return is_ipv6_addr(ip_to.as_str());
        }
        false
    }

    /// Whether the rule is ordered among those of IPv4.
    fn key_is_ipv4(&self) -> (res: bool)
        ensures
            res == self@.key().ipv4,
    {
        if let Some(ip_from) = &self.ip_from {
            !is_ipv6_addr(ip_from.as_str())
        } else if let Some(ip_to) = &self.ip_to {
            !is_ipv6_addr(ip_to.as_str())
        } else if let Some(family) = &self.family {
            *family == AddressFamily::Ipv4
        } else {
            true
        }
    }

    fn key_table_id(&self) -> (res: u32)
        ensures
            res == self@.key().table_id,
    {
        self.table_id.unwrap_or(Self::USE_DEFAULT_ROUTE_TABLE)
    }

    fn key_priority(&self) -> (res: i64)
        ensures
            res == self@.key().priority,
    {
        self.priority.unwrap_or(Self::USE_DEFAULT_PRIORITY)
    }

    fn key_action(&self) -> (res: u8)
        ensures
            res == self@.key().action,
    {
        match self.action {
            Some(action) => action.to_code(),
            None => 0,
        }
    }

    /// The rule as text.
    pub fn to_text(&self) -> (res: String)
        ensures
            res@ == self@.text(),
    {
        let mut props: Vec<String> = Vec::new();
        let state: Option<&str> = if self.is_absent() {
            Some("absent")
        } else {
            None
        };
        push_prop(&mut props, "state: ", &state);
        let family: Option<&str> = match &self.family {
            Some(family) => Some(family.as_str()),
            None => None,
        };
        push_prop(&mut props, "family: ", &family);
        push_text_prop(&mut props, "ip-from: ", &self.ip_from);
        push_text_prop(&mut props, "ip-to: ", &self.ip_to);
        push_text_prop(&mut props, "priority: ", &option_signed_decimal(self.priority));
        push_text_prop(&mut props, "route-table: ", &option_decimal(self.table_id));
        push_text_prop(&mut props, "fwmask: 0x", &option_hexadecimal(self.fwmask));
        push_text_prop(&mut props, "fwmark: 0x", &option_hexadecimal(self.fwmark));
        push_text_prop(&mut props, "iif: ", &self.iif);
        let action: Option<&str> = match &self.action {
            Some(action) => Some(action.as_str()),
            None => None,
        };
        push_prop(&mut props, "action: ", &action);
        push_text_prop(
            &mut props,
            "suppress-prefix-length: ",
            &option_decimal(self.suppress_prefix_length),
        );
        assert(props.deep_view() =~= self@.props());
        join(&props, " ")
    }

    /// The rule as text with all of its properties.
    fn to_detail(&self) -> (res: String)
        ensures
            res@ == self@.detail(),
    {
        let family: Option<String> = match &self.family {
            Some(family) => Some(String::from_str(family.variant_name())),
            None => None,
        };
        let state: Option<String> = if self.is_absent() {
            Some(String::from_str("Absent"))
        } else {
            None
        };
        let action: Option<String> = match &self.action {
            Some(action) => Some(String::from_str(action.variant_name())),
            None => None,
        };
        String::from_str("RouteRuleEntry { family: ").concat(
            show_option(&family).as_str(),
        ).concat(", state: ").concat(show_option(&state).as_str()).concat(", ip_from: ").concat(
            show_option(&quote_option(&self.ip_from)).as_str(),
        ).concat(", ip_to: ").concat(show_option(&quote_option(&self.ip_to)).as_str()).concat(
            ", priority: ",
        ).concat(show_option(&option_signed_decimal(self.priority)).as_str()).concat(
            ", table_id: ",
        ).concat(show_option(&option_decimal(self.table_id)).as_str()).concat(", fwmark: ").concat(
            show_option(&option_decimal(self.fwmark)).as_str(),
        ).concat(", fwmask: ").concat(show_option(&option_decimal(self.fwmask)).as_str()).concat(
            ", action: ",
        ).concat(show_option(&action).as_str()).concat(", iif: ").concat(
            show_option(&quote_option(&self.iif)).as_str(),
        ).concat(", suppress_prefix_length: ").concat(
            show_option(&option_decimal(self.suppress_prefix_length)).as_str(),
        ).concat(" }")
    }

    /// Whether the rule may be applied.
    pub fn validate(&self) -> (res: Result<(), NipartError>)
        ensures
            error::same_result(res, self@.validated()),
    {
        if self.ip_from.is_none() && self.ip_to.is_none() && self.family.is_none() {
            return Err(
                NipartError::new(
                    ErrorKind::InvalidArgument,
                    String::from_str("Neither ip-from, ip-to nor family is defined '").concat(
                        self.to_text().as_str(),
                    ).concat("'"),
                ),
            );
        }
        if let Some(family) = self.family {
            if let Some(ip_from) = &self.ip_from {
                if is_ipv6_addr(ip_from.as_str()) != (family == AddressFamily::Ipv6) {
                    return Err(
                        NipartError::new(
                            ErrorKind::InvalidArgument,
                            String::from_str(
                                "The ip-from format mismatches with the family set '",
                            ).concat(self.to_text().as_str()).concat("'"),
                        ),
                    );
                }
            }
            if let Some(ip_to) = &self.ip_to {
                if is_ipv6_addr(ip_to.as_str()) != (family == AddressFamily::Ipv6) {
                    return Err(
                        NipartError::new(
                            ErrorKind::InvalidArgument,
                            String::from_str(
                                "The ip-to format mismatches with the family set '",
                            ).concat(self.to_text().as_str()).concat("'"),
                        ),
                    );
                }
            }
        }
        self.validate_fwmark_and_fwmask()
    }

    fn validate_fwmark_and_fwmask(&self) -> (res: Result<(), NipartError>)
        ensures
            match res {
                Ok(_) => self.fwmark is Some || self.fwmask is None,
                Err(e) => self.fwmark is None && self.fwmask is Some && e@ == error::invalid(
                    "fwmask is present but fwmark is not defined or is zero "@ + self@.detail(),
                ),
            },
    {
        if self.fwmark.is_none() && self.fwmask.is_some() {
            return Err(
                NipartError::new(
                    ErrorKind::InvalidArgument,
                    String::from_str(
                        "fwmask is present but fwmark is not defined or is zero ",
                    ).concat(self.to_detail().as_str()),
                ),
            );
        }
        Ok(())
    }

    /// Whether the desired route rule (self) matches with another.
    pub fn is_match(&self, other: &Self) -> (res: bool)
        ensures
            res == self@.matches_rule(other@),
    {
        if !prefix_is_match(&self.ip_from, &other.ip_from) {
            return false;
        }
        if !prefix_is_match(&self.ip_to, &other.ip_to) {
            return false;
        }
        if self.family.is_some() && other.family.is_some() && !self.family.same(&other.family) {
            return false;
        }
        if let Some(priority) = self.priority {
            if priority != Self::USE_DEFAULT_PRIORITY && !self.priority.same(&other.priority) && !(
            priority == 0 && other.priority.is_none()) {
                return false;
            }
        }
        if let Some(table_id) = self.table_id {
            if table_id != Self::USE_DEFAULT_ROUTE_TABLE && !self.table_id.same(&other.table_id) {
                return false;
            }
        }
        if let Some(fwmark) = self.fwmark {
            if fwmark != other.fwmark.unwrap_or(0) {
                return false;
            }
        }
        if let Some(fwmask) = self.fwmask {
            if fwmask != other.fwmask.unwrap_or(0) {
                return false;
            }
        }
        if self.iif.is_some() && !self.iif.same(&other.iif) {
            return false;
        }
        if self.action.is_some() && !self.action.same(&other.action) {
            return false;
        }
        if self.suppress_prefix_length.is_some() && !self.suppress_prefix_length.same(
            &other.suppress_prefix_length,
        ) {
            return false;
        }
        true
    }

    /// Puts the prefixes in canonical form, fills in the family and the route
    /// table, and checks the result.
    pub fn sanitize(&mut self) -> (res: Result<(), NipartError>)
        ensures
            final(self)@ == old(self)@.sanitize_steps().0,
            error::same_result(res, old(self)@.sanitize_steps().1),
    {
        let ghost start = self@;
        if let Some(ip_from) = self.ip_from.dup() {
            if ip_from.as_str().is_empty() {
                self.ip_from = None;
            } else {
                let network = match sanitize_ip_network(ip_from.as_str()) {
                    Ok(network) => network,
                    Err(e) => {
                        return Err(e);
                    },
                };
                if self.family.is_none() {
                    self.family = Some(
                        if is_ipv6_addr(network.as_str()) {
                            AddressFamily::Ipv6
                        } else {
                            AddressFamily::Ipv4
                        },
                    );
                }
                self.ip_from = Some(network);
            }
        }
        assert(start.with_canonical_from() == Ok::<_, NipartErrorView>(self@));
        let ghost first = self@;
        if let Some(ip_to) = self.ip_to.dup() {
            if ip_to.as_str().is_empty() {
                self.ip_to = None;
            } else {
                let network = match sanitize_ip_network(ip_to.as_str()) {
                    Ok(network) => network,
                    Err(e) => {
                        return Err(e);
                    },
                };
                if self.family.is_none() {
                    self.family = Some(
                        if is_ipv6_addr(network.as_str()) {
                            AddressFamily::Ipv6
                        } else {
                            AddressFamily::Ipv4
                        },
                    );
                }
                self.ip_to = Some(network);
            }
        }
        assert(first.with_canonical_to() == Ok::<_, NipartErrorView>(self@));
        match self.validate() {
            Ok(_) => {},
            Err(e) => {
                return Err(e);
            },
        }
        if self.action.is_none() && self.table_id.is_none() {
            self.table_id = Some(ROUTE_RULE_DEFAULT_ROUTE_TABLE_ID);
        }
        Ok(())
    }
}

/// Whether the prefix of a desired rule matches the one of another rule.
fn prefix_is_match(desired: &Option<String>, other: &Option<String>) -> (res: bool)
    ensures
        res == prefix_matches(desired.deep_view(), other.deep_view()),
{
    match desired {
        None => true,
        Some(prefix) => if !prefix.as_str().is_empty() {
            match canonical_ip_network(prefix.as_str()) {
                Some(network) => other.same(&Some(network)),
                None => false,
            }
        } else {
            match other {
                Some(other) => other.as_str().is_empty(),
                None => true,
            }
        },
    }
}

/// Whether one of `rules` is absent and matches `rule`.
pub open spec fn removed_by(rules: Seq<RouteRuleEntryView>, rule: RouteRuleEntryView) -> bool {
    exists|i: int|
        0 <= i < rules.len() && (#[trigger] rules[i]).absent() && rules[i].matches_rule(rule)
}

/// Whether `rule` matches one of `rules`.
pub open spec fn matches_any(rule: RouteRuleEntryView, rules: Seq<RouteRuleEntryView>) -> bool {
    exists|i: int| 0 <= i < rules.len() && rule.matches_rule(#[trigger] rules[i])
}

/// The set `acc` with the rules from `i` on that are not absent.
pub open spec fn add_present_from(
    rules: Seq<RouteRuleEntryView>,
    i: int,
    acc: Seq<RouteRuleEntryView>,
) -> Seq<RouteRuleEntryView>
    decreases rules.len() - i,
{
    if i < 0 || i >= rules.len() {
        acc
    } else if rules[i].absent() {
        add_present_from(rules, i + 1, acc)
    } else {
        add_present_from(rules, i + 1, order::with_item::<RouteRuleEntry>(acc, rules[i]))
    }
}

/// The set `acc` with the rules from `i` on that no absent one of `desired`
/// matches.
pub open spec fn add_kept_from(
    rules: Seq<RouteRuleEntryView>,
    desired: Seq<RouteRuleEntryView>,
    i: int,
    acc: Seq<RouteRuleEntryView>,
) -> Seq<RouteRuleEntryView>
    decreases rules.len() - i,
{
    if i < 0 || i >= rules.len() {
        acc
    } else if removed_by(desired, rules[i]) {
        add_kept_from(rules, desired, i + 1, acc)
    } else {
        add_kept_from(rules, desired, i + 1, order::with_item::<RouteRuleEntry>(acc, rules[i]))
    }
}

/// `acc` with the rules from `i` on that match none of `old`.
pub open spec fn unmatched_from(
    rules: Seq<RouteRuleEntryView>,
    old: Seq<RouteRuleEntryView>,
    i: int,
    acc: Seq<RouteRuleEntryView>,
) -> Seq<RouteRuleEntryView>
    decreases rules.len() - i,
{
    if i < 0 || i >= rules.len() {
        acc
    } else if matches_any(rules[i], old) {
        unmatched_from(rules, old, i + 1, acc)
    } else {
        unmatched_from(rules, old, i + 1, acc.push(rules[i]))
    }
}

/// The error of a prefix that is defined, not empty and no network.
pub open spec fn checked_prefix(prefix: Option<Seq<char>>) -> Result<(), NipartErrorView> {
    match prefix {
        Some(prefix) => if prefix.len() > 0 && addr::canonical_network(prefix) is None {
            Err(addr::bad_network(prefix))
        } else {
            Ok(())
        },
        None => Ok(()),
    }
}

/// Whether every rule from `i` on has valid prefixes and, unless it is absent,
/// may be applied: the first failure.
pub open spec fn checked_from(rules: Seq<RouteRuleEntryView>, i: int) -> Result<(), NipartErrorView>
    decreases rules.len() - i,
{
    if i < 0 || i >= rules.len() {
        Ok(())
    } else {
        match (checked_prefix(rules[i].ip_from), checked_prefix(rules[i].ip_to)) {
            (Err(e), _) => Err(e),
            (_, Err(e)) => Err(e),
            _ => match rules[i].validated() {
                Err(e) if !rules[i].absent() => Err(e),
                _ => checked_from(rules, i + 1),
            },
        }
    }
}

impl RouteRulesView {
    /// No rules defined.
    pub open spec fn undefined() -> RouteRulesView {
        RouteRulesView { config: None }
    }

    /// The defined rules.
    pub open spec fn rules(self) -> Seq<RouteRuleEntryView> {
        self.config.unwrap_or(Seq::empty())
    }

    /// Whether all rules are valid: the first failure.
    pub open spec fn validated(self) -> Result<(), NipartErrorView> {
        checked_from(self.rules(), 0)
    }

    /// The rules after the valid rules `new` are merged into them.
    pub open spec fn merged_with(self, new: RouteRulesView) -> RouteRulesView {
        match new.config {
            None => self,
            Some(rules) => RouteRulesView {
                config: Some(
                    order::sorted::<RouteRuleEntry>(
                        add_kept_from(
                            self.rules(),
                            rules,
                            0,
                            add_present_from(rules, 0, Seq::empty()),
                        ),
                    ),
                ),
            },
        }
    }

    /// What merging `new` into the rules returns.
    pub open spec fn merge_result(self, new: RouteRulesView) -> Result<
        RouteRulesView,
        NipartErrorView,
    > {
        match new.validated() {
            Ok(_) => Ok(self.merged_with(new)),
            Err(e) => Err(e),
        }
    }

    /// The rules that the rules `old` do not have.
    pub open spec fn diff_from(self, old: RouteRulesView) -> RouteRulesView {
        RouteRulesView {
            config: Some(
                match (self.config, old.config) {
                    (Some(rules), Some(old_rules)) => unmatched_from(
                        rules,
                        old_rules,
                        0,
                        Seq::empty(),
                    ),
                    (Some(rules), None) => rules,
                    (None, Some(old_rules)) => old_rules,
                    (None, None) => Seq::empty(),
                },
            ),
        }
    }
}

/// Whether one of the rules is absent and matches `rule`.
pub fn is_removed_by(rules: &Vec<RouteRuleEntry>, rule: &RouteRuleEntry) -> (res: bool)
    ensures
        res == removed_by(rules.deep_view(), rule@),
{
    let ghost views = rules.deep_view();
    let mut i: usize = 0;
    while i < rules.len()
        invariant
            i <= rules.len(),
            views == rules.deep_view(),
            forall|j: int|
                0 <= j < i ==> !((#[trigger] views[j]).absent() && views[j].matches_rule(rule@)),
        decreases rules.len() - i,
    {
        assert(views[i as int] == rules[i as int]@);
        if rules[i].is_absent() && rules[i].is_match(rule) {
            return true;
        }
        i = i + 1;
    }
    false
}

/// Whether `rule` matches one of the rules.
pub fn current_rule_matches(rules: &Vec<RouteRuleEntry>, rule: &RouteRuleEntry) -> (res: bool)
    ensures
        res == matches_any(rule@, rules.deep_view()),
{
    let ghost views = rules.deep_view();
    let mut i: usize = 0;
    while i < rules.len()
        invariant
            i <= rules.len(),
            views == rules.deep_view(),
            forall|j: int| 0 <= j < i ==> !rule@.matches_rule(#[trigger] views[j]),
        decreases rules.len() - i,
    {
        assert(views[i as int] == rules[i as int]@);
        if rule.is_match(&rules[i]) {
            return true;
        }
        i = i + 1;
    }
    false
}

/// Checks a prefix that is defined and not empty.
fn check_prefix(prefix: &Option<String>) -> (res: Result<(), NipartError>)
    ensures
        error::same_result(res, checked_prefix(prefix.deep_view())),
{
    if let Some(prefix) = prefix {
        if !prefix.as_str().is_empty() {
            if let Err(e) = sanitize_ip_network(prefix.as_str()) {
                return Err(e);
            }
        }
    }
    Ok(())
}

impl Default for RouteRules {
    fn default() -> (res: Self)
        ensures
            res@ == RouteRulesView::undefined(),
    {
        RouteRules { config: None }
    }
}

impl RouteRules {
    pub fn new() -> (res: Self)
        ensures
            res@ == RouteRulesView::undefined(),
    {
        Self::default()
    }

    /// Whether configured route rules is empty or undefined.
    pub fn is_empty(&self) -> (res: bool)
        ensures
            res == (self@.rules().len() == 0),
    {
        if let Some(rules) = &self.config {
            rules.is_empty()
        } else {
            true
        }
    }

    /// Whether all rules are valid.
    pub fn validate(&self) -> (res: Result<(), NipartError>)
        ensures
            error::same_result(res, self@.validated()),
    {
        if let Some(rules) = &self.config {
            let ghost views = rules.deep_view();
            let mut i: usize = 0;
            while i < rules.len()
                invariant
                    i <= rules.len(),
                    views == rules.deep_view(),
                    views == self@.rules(),
                    self@.validated() == checked_from(views, i as int),
                decreases rules.len() - i,
            {
                let rule = &rules[i];
                assert(views[i as int] == rule@);
                if let Err(e) = check_prefix(&rule.ip_from) {
                    return Err(e);
                }
                if let Err(e) = check_prefix(&rule.ip_to) {
                    return Err(e);
                }
                if !rule.is_absent() {
                    if let Err(e) = rule.validate() {
                        return Err(e);
                    }
                }
                i = i + 1;
            }
        }
        Ok(())
    }

    /// Merge route rules into `self`, preserving the partial editing
    /// semantics: non-absent rules are added and absent rules remove the
    /// matching existing rules.
    pub fn merge(&self, new_rules: &Self) -> (res: Result<Self, NipartError>)
        ensures
            error::same_result(res, self@.merge_result(new_rules@)),
    {
        if let Err(e) = new_rules.validate() {
            return Err(e);
        }
        let new = match &new_rules.config {
            Some(new) => new,
            None => {
                return Ok(self.dup());
            },
        };
        let ghost news = new.deep_view();
        let mut set: Vec<RouteRuleEntry> = Vec::new();
        assert(set.deep_view() =~= Seq::<RouteRuleEntryView>::empty());
        let mut i: usize = 0;
        while i < new.len()
            invariant
                i <= new.len(),
                news == new.deep_view(),
                add_present_from(news, 0, Seq::empty()) == add_present_from(
                    news,
                    i as int,
                    set.deep_view(),
                ),
            decreases new.len() - i,
        {
            assert(news[i as int] == new[i as int]@);
            if !new[i].is_absent() {
                insert_item(&mut set, new[i].dup());
            }
            i = i + 1;
        }
        let ghost present = set.deep_view();
        if let Some(old_rules) = &self.config {
            let ghost olds = old_rules.deep_view();
            let mut i: usize = 0;
            while i < old_rules.len()
                invariant
                    i <= old_rules.len(),
                    olds == old_rules.deep_view(),
                    news == new.deep_view(),
                    add_kept_from(olds, news, 0, present) == add_kept_from(
                        olds,
                        news,
                        i as int,
                        set.deep_view(),
                    ),
                decreases old_rules.len() - i,
            {
                assert(olds[i as int] == old_rules[i as int]@);
                if !is_removed_by(new, &old_rules[i]) {
                    insert_item(&mut set, old_rules[i].dup());
                }
                i = i + 1;
            }
        }
        Ok(RouteRules { config: Some(sort(&set)) })
    }

    /// The rules that `old` does not have.
    pub fn gen_diff(&self, old: &Self) -> (res: Self)
        ensures
            res@ == self@.diff_from(old@),
    {
        let diff = match (&self.config, &old.config) {
            (Some(rules), Some(old_rules)) => {
                let ghost views = rules.deep_view();
                let mut diff: Vec<RouteRuleEntry> = Vec::new();
                assert(diff.deep_view() =~= Seq::<RouteRuleEntryView>::empty());
                let mut i: usize = 0;
                while i < rules.len()
                    invariant
                        i <= rules.len(),
                        views == rules.deep_view(),
                        unmatched_from(views, old_rules.deep_view(), 0, Seq::empty())
                            == unmatched_from(
                            views,
                            old_rules.deep_view(),
                            i as int,
                            diff.deep_view(),
                        ),
                    decreases rules.len() - i,
                {
                    assert(views[i as int] == rules[i as int]@);
                    if !current_rule_matches(old_rules, &rules[i]) {
                        value::push(&mut diff, rules[i].dup());
                    }
                    i = i + 1;
                }
                diff
            },
            (Some(rules), None) => rules.dup(),
            (None, Some(old_rules)) => old_rules.dup(),
            (None, None) => {
                let diff: Vec<RouteRuleEntry> = Vec::new();
                assert(diff.deep_view() =~= Seq::<RouteRuleEntryView>::empty());
                diff
            },
        };
        RouteRules { config: Some(diff) }
    }
}

/// The highest of `max` and the priorities of the rules from `i` on, an
/// undefined one counting as zero.
pub open spec fn max_priority_from(rules: Seq<RouteRuleEntryView>, i: int, max: int) -> int
    decreases rules.len() - i,
{
    if i < 0 || i >= rules.len() {
        max
    } else {
        let priority = rules[i].priority.unwrap_or(0) as int;
        max_priority_from(rules, i + 1, if priority > max { priority } else { max })
    }
}

/// The priority after which automatic ones are handed out: the highest one in
/// use, but not less than the one before the default.
pub open spec fn auto_priority_base(rules: Seq<RouteRuleEntryView>) -> int {
    max_priority_from(rules, 0, ROUTE_RULE_DEFAULT_PRIORITY - 1)
}

/// Whether the rule is to get a priority.
pub open spec fn needs_priority(rule: RouteRuleEntryView) -> bool {
    !rule.absent() && (rule.priority is None || rule.priority == Some(
        RouteRuleEntry::USE_DEFAULT_PRIORITY,
    ))
}

/// The priority of the first of `rules` from `i` on that `rule` matches and
/// that has one.
pub open spec fn matched_priority_from(
    rule: RouteRuleEntryView,
    rules: Seq<RouteRuleEntryView>,
    i: int,
) -> Option<i64>
    decreases rules.len() - i,
{
    if i < 0 || i >= rules.len() {
        None
    } else if rules[i].priority is Some && rules[i].priority->0
        != RouteRuleEntry::USE_DEFAULT_PRIORITY && rule.matches_rule(rules[i]) {
        rules[i].priority
    } else {
        matched_priority_from(rule, rules, i + 1)
    }
}

/// Whether the rule gets a new priority: it needs one, and no existing rule that
/// it matches has one.
pub open spec fn is_numbered(rule: RouteRuleEntryView, existing: Seq<RouteRuleEntryView>) -> bool {
    needs_priority(rule) && matched_priority_from(rule, existing, 0) is None
}

/// Which rules get a new priority.
pub open spec fn numbered(existing: Seq<RouteRuleEntryView>) -> spec_fn(RouteRuleEntryView) -> bool {
    |rule: RouteRuleEntryView| is_numbered(rule, existing)
}

/// The number of rules from `i` on that get a new priority.
pub open spec fn numbered_from(
    rules: Seq<RouteRuleEntryView>,
    existing: Seq<RouteRuleEntryView>,
    i: int,
) -> nat {
    value::count_from(rules, numbered(existing), i)
}

/// The rules with a priority for each one from `i` on that needs it: the
/// priority of the existing rule that it matches, else the next one after
/// `max`.
pub open spec fn auto_priority_from(
    rules: Seq<RouteRuleEntryView>,
    existing: Seq<RouteRuleEntryView>,
    i: int,
    max: int,
) -> Seq<RouteRuleEntryView>
    decreases rules.len() - i,
{
    if i < 0 || i >= rules.len() {
        rules
    } else if !needs_priority(rules[i]) {
        auto_priority_from(rules, existing, i + 1, max)
    } else {
        match matched_priority_from(rules[i], existing, 0) {
            Some(priority) => auto_priority_from(
                rules.update(i, RouteRuleEntryView { priority: Some(priority), ..rules[i] }),
                existing,
                i + 1,
                max,
            ),
            None => auto_priority_from(
                rules.update(
                    i,
                    RouteRuleEntryView { priority: Some((max + 1) as i64), ..rules[i] },
                ),
                existing,
                i + 1,
                max + 1,
            ),
        }
    }
}

/// The rules with automatic priorities.
pub open spec fn with_auto_priority(
    rules: Seq<RouteRuleEntryView>,
    existing: Seq<RouteRuleEntryView>,
) -> Seq<RouteRuleEntryView> {
    auto_priority_from(rules, existing, 0, auto_priority_base(existing))
}

/// The priority of the first existing rule that `rule` matches and that has
/// one.
fn matched_priority(rule: &RouteRuleEntry, existing: &Vec<RouteRuleEntry>) -> (res: Option<i64>)
    ensures
        res == matched_priority_from(rule@, existing.deep_view(), 0),
{
    let ghost views = existing.deep_view();
    let mut i: usize = 0;
    while i < existing.len()
        invariant
            i <= existing.len(),
            views == existing.deep_view(),
            matched_priority_from(rule@, views, 0) == matched_priority_from(rule@, views, i as int),
        decreases existing.len() - i,
    {
        assert(views[i as int] == existing[i as int]@);
        if let Some(priority) = existing[i].priority {
            if priority != RouteRuleEntry::USE_DEFAULT_PRIORITY && rule.is_match(&existing[i]) {
                return Some(priority);
            }
        }
        i = i + 1;
    }
    None
}

/// The priority after which automatic ones are handed out.
pub(crate) fn highest_priority(rules: &Vec<RouteRuleEntry>) -> (res: i64)
    ensures
        res == auto_priority_base(rules.deep_view()),
{
    let ghost views = rules.deep_view();
    let mut max_priority: i64 = ROUTE_RULE_DEFAULT_PRIORITY - 1;
    let mut i: usize = 0;
    while i < rules.len()
        invariant
            i <= rules.len(),
            views == rules.deep_view(),
            auto_priority_base(views) == max_priority_from(views, i as int, max_priority as int),
        decreases rules.len() - i,
    {
        assert(views[i as int] == rules[i as int]@);
        let priority: i64 = rules[i].priority.unwrap_or(0);
        if priority > max_priority {
            max_priority = priority;
        }
        i = i + 1;
    }
    max_priority
}

/// Whether the rule is to get a priority.
pub(crate) fn lacks_priority(rule: &RouteRuleEntry) -> (res: bool)
    ensures
        res == needs_priority(rule@),
{
    let auto = match rule.priority {
        Some(priority) => priority == RouteRuleEntry::USE_DEFAULT_PRIORITY,
        None => true,
    };
    !rule.is_absent() && auto
}

/// Assign proper priority to rules without an explicit one.
pub fn set_auto_priority(for_apply: &mut Vec<RouteRuleEntry>, merged: &Vec<RouteRuleEntry>)
    requires
        auto_priority_base(merged.deep_view()) + numbered_from(
            old(for_apply).deep_view(),
            merged.deep_view(),
            0,
        ) <= i64::MAX,
    ensures
        final(for_apply).deep_view() == with_auto_priority(
            old(for_apply).deep_view(),
            merged.deep_view(),
        ),
{
    let ghost existing = merged.deep_view();
    let mut max_priority: i64 = highest_priority(merged);
    let ghost result = with_auto_priority(for_apply.deep_view(), existing);
    let mut i: usize = 0;
    while i < for_apply.len()
        invariant
            i <= for_apply.len(),
            for_apply.len() == old(for_apply).len(),
            existing == merged.deep_view(),
            max_priority + numbered_from(for_apply.deep_view(), existing, i as int) <= i64::MAX,
            result == auto_priority_from(
                for_apply.deep_view(),
                existing,
                i as int,
                max_priority as int,
            ),
        decreases for_apply.len() - i,
    {
        let ghost before = *for_apply;
        let ghost views = for_apply.deep_view();
        let rule = &for_apply[i];
        assert(views[i as int] == rule@);
        if lacks_priority(rule) {
            let mut new_rule = rule.dup();
            match matched_priority(rule, merged) {
                Some(priority) => {
                    new_rule.priority = Some(priority);
                },
                None => {
                    max_priority = max_priority + 1;
                    new_rule.priority = Some(max_priority);
                },
            }
            let ghost updated = new_rule;
            for_apply.set(i, new_rule);
            proof {
                value::lemma_deep_update(before, *for_apply, i as int, updated);
                value::lemma_count_same(views, for_apply.deep_view(), numbered(existing), i + 1);
            }
        }
        i = i + 1;
    }
}

/// Whether a prefix is undefined, empty or in canonical form.
pub open spec fn is_canonical_prefix(prefix: Option<Seq<char>>) -> bool {
    prefix is Some && prefix->0.len() > 0 ==> addr::canonical_network(prefix->0) == prefix
}

/// A rule that defines nothing matches every rule, and a rule whose prefixes
/// are in canonical form matches itself.
pub proof fn law_match(rule: RouteRuleEntryView)
    ensures
        RouteRuleEntryView::undefined().matches_rule(rule),
        is_canonical_prefix(rule.ip_from) && is_canonical_prefix(rule.ip_to) ==> rule.matches_rule(
            rule,
        ),
{
}

/// Automatic priorities change nothing but priorities: those of rules that are
/// not absent and have none. A priority is that of an existing rule which the
/// rule matches, or a new one above `max`.
proof fn lemma_auto_priority(
    rules: Seq<RouteRuleEntryView>,
    existing: Seq<RouteRuleEntryView>,
    i: int,
    max: int,
)
    requires
        0 <= i <= rules.len(),
        max >= ROUTE_RULE_DEFAULT_PRIORITY - 1,
        max + numbered_from(rules, existing, i) <= i64::MAX,
    ensures
        ({
            let res = auto_priority_from(rules, existing, i, max);
            &&& res.len() == rules.len()
            &&& forall|j: int| 0 <= j < i ==> res[j] == rules[j]
            &&& forall|j: int|
                i <= j < rules.len() ==> {
                    &&& (#[trigger] res[j]) == RouteRuleEntryView {
                        priority: res[j].priority,
                        ..rules[j]
                    }
                    &&& !needs_priority(rules[j]) ==> res[j] == rules[j]
                    &&& !needs_priority(res[j])
                    &&& needs_priority(rules[j]) ==> res[j].priority == matched_priority_from(
                        rules[j],
                        existing,
                        0,
                    ) || res[j].priority->0 > max
                }
        }),
    decreases rules.len() - i,
{
    if i < rules.len() {
        if !needs_priority(rules[i]) {
            lemma_auto_priority(rules, existing, i + 1, max);
        } else {
            match matched_priority_from(rules[i], existing, 0) {
                Some(priority) => {
                    let next = rules.update(
                        i,
                        RouteRuleEntryView { priority: Some(priority), ..rules[i] },
                    );
                    lemma_matched_priority(rules[i], existing, 0);
                    value::lemma_count_same(rules, next, numbered(existing), i + 1);
                    lemma_auto_priority(next, existing, i + 1, max);
                },
                None => {
                    let next = rules.update(
                        i,
                        RouteRuleEntryView { priority: Some((max + 1) as i64), ..rules[i] },
                    );
                    value::lemma_count_same(rules, next, numbered(existing), i + 1);
                    lemma_auto_priority(next, existing, i + 1, max + 1);
                },
            }
        }
    }
}

/// The priority of a matched rule is not the one that stands for none.
proof fn lemma_matched_priority(
    rule: RouteRuleEntryView,
    rules: Seq<RouteRuleEntryView>,
    i: int,
)
    requires
        0 <= i,
    ensures
        matched_priority_from(rule, rules, i) is Some ==> matched_priority_from(rule, rules, i)
            != Some(RouteRuleEntry::USE_DEFAULT_PRIORITY),
    decreases rules.len() - i,
{
    if i < rules.len() {
        lemma_matched_priority(rule, rules, i + 1);
    }
}

/// The highest priority is not below any one.
proof fn lemma_max_priority(rules: Seq<RouteRuleEntryView>, i: int, max: int)
    requires
        0 <= i <= rules.len(),
    ensures
        max_priority_from(rules, i, max) >= max,
        forall|j: int|
            i <= j < rules.len() ==> max_priority_from(rules, i, max) >= (
            #[trigger] rules[j]).priority.unwrap_or(0),
    decreases rules.len() - i,
{
    if i < rules.len() {
        let priority = rules[i].priority.unwrap_or(0) as int;
        lemma_max_priority(rules, i + 1, if priority > max { priority } else { max });
    }
}

/// After automatic priorities are set, every rule that is not absent has one.
/// A rule that had one keeps it, and one that matches no existing rule comes
/// after all existing rules. Nothing but priorities changes.
pub proof fn law_auto_priority(
    rules: Seq<RouteRuleEntryView>,
    existing: Seq<RouteRuleEntryView>,
    i: int,
    j: int,
)
    requires
        0 <= i < rules.len(),
        0 <= j < existing.len(),
        auto_priority_base(existing) + numbered_from(rules, existing, 0) <= i64::MAX,
    ensures
        ({
            let res = with_auto_priority(rules, existing);
            &&& res.len() == rules.len()
            &&& res[i] == RouteRuleEntryView { priority: res[i].priority, ..rules[i] }
            &&& !needs_priority(rules[i]) ==> res[i] == rules[i]
            &&& !needs_priority(res[i])
            &&& needs_priority(rules[i]) && matched_priority_from(rules[i], existing, 0) is None
                ==> res[i].priority->0 > existing[j].priority.unwrap_or(0)
        }),
{
    lemma_max_priority(existing, 0, ROUTE_RULE_DEFAULT_PRIORITY - 1);
    lemma_auto_priority(rules, existing, 0, auto_priority_base(existing));
    let res = with_auto_priority(rules, existing);
    assert(res[i] == RouteRuleEntryView { priority: res[i].priority, ..rules[i] });
}

/// The set of rules that are not absent holds each of them and no other.
proof fn lemma_present(
    rules: Seq<RouteRuleEntryView>,
    i: int,
    acc: Seq<RouteRuleEntryView>,
    rule: RouteRuleEntryView,
)
    requires
        0 <= i <= rules.len(),
        order::distinct::<RouteRuleEntry>(acc),
    ensures
        ({
            let all = add_present_from(rules, i, acc);
            &&& order::distinct::<RouteRuleEntry>(all)
            &&& order::has_key::<RouteRuleEntry>(acc, rule) ==> order::has_key::<RouteRuleEntry>(
                all,
                rule,
            )
            &&& forall|j: int|
                i <= j < rules.len() && !(#[trigger] rules[j]).absent() ==> order::has_key::<
                    RouteRuleEntry,
                >(all, rules[j])
            &&& all.contains(rule) ==> acc.contains(rule) || (rules.contains(rule)
                && !rule.absent())
        }),
    decreases rules.len() - i,
{
    if i < rules.len() {
        if rules[i].absent() {
            lemma_present(rules, i + 1, acc, rule);
        } else {
            let next = order::with_item::<RouteRuleEntry>(acc, rules[i]);
            order::law_with_item::<RouteRuleEntry>(acc, rules[i]);
            order::law_with_item_keeps::<RouteRuleEntry>(acc, rules[i], rule);
            lemma_present(rules, i + 1, next, rules[i]);
            lemma_present(rules, i + 1, next, rule);
        }
    }
}

/// The set of rules that no absent one matches holds each of them.
proof fn lemma_kept(
    rules: Seq<RouteRuleEntryView>,
    desired: Seq<RouteRuleEntryView>,
    i: int,
    acc: Seq<RouteRuleEntryView>,
    rule: RouteRuleEntryView,
)
    requires
        0 <= i <= rules.len(),
        order::distinct::<RouteRuleEntry>(acc),
    ensures
        ({
            let all = add_kept_from(rules, desired, i, acc);
            &&& order::distinct::<RouteRuleEntry>(all)
            &&& order::has_key::<RouteRuleEntry>(acc, rule) ==> order::has_key::<RouteRuleEntry>(
                all,
                rule,
            )
            &&& forall|j: int|
                i <= j < rules.len() && !removed_by(desired, #[trigger] rules[j])
                    ==> order::has_key::<RouteRuleEntry>(all, rules[j])
            &&& all.contains(rule) ==> acc.contains(rule) || (rules.contains(rule) && !removed_by(
                desired,
                rule,
            ))
        }),
    decreases rules.len() - i,
{
    if i < rules.len() {
        if removed_by(desired, rules[i]) {
            lemma_kept(rules, desired, i + 1, acc, rule);
        } else {
            let next = order::with_item::<RouteRuleEntry>(acc, rules[i]);
            order::law_with_item::<RouteRuleEntry>(acc, rules[i]);
            order::law_with_item_keeps::<RouteRuleEntry>(acc, rules[i], rule);
            lemma_kept(rules, desired, i + 1, next, rules[i]);
            lemma_kept(rules, desired, i + 1, next, rule);
        }
    }
}

/// Merging rules gives a list in order in which every rule is once: the new
/// rules that are not absent and the old ones that no absent new one matches.
pub proof fn law_merged(
    old_rules: RouteRulesView,
    new_rules: RouteRulesView,
    rule: RouteRuleEntryView,
)
    requires
        new_rules.config is Some,
    ensures
        ({
            let list = old_rules.merged_with(new_rules).rules();
            let news = new_rules.rules();
            let olds = old_rules.rules();
            &&& order::in_order::<RouteRuleEntry>(list)
            &&& order::distinct::<RouteRuleEntry>(list)
            &&& news.contains(rule) && !rule.absent() ==> order::has_key::<RouteRuleEntry>(
                list,
                rule,
            )
            &&& olds.contains(rule) && !removed_by(news, rule) ==> order::has_key::<
                RouteRuleEntry,
            >(list, rule)
            &&& list.contains(rule) ==> (news.contains(rule) && !rule.absent()) || (olds.contains(
                rule,
            ) && !removed_by(news, rule))
        }),
{
    let news = new_rules.rules();
    let olds = old_rules.rules();
    let present = add_present_from(news, 0, Seq::empty());
    let all = add_kept_from(olds, news, 0, present);
    lemma_present(news, 0, Seq::empty(), rule);
    lemma_kept(olds, news, 0, present, rule);
    order::law_sorted::<RouteRuleEntry>(all);
    order::law_sorted_items::<RouteRuleEntry>(all, rule);
    if news.contains(rule) && !rule.absent() {
        let j = news.index_of(rule);
        assert(!news[j].absent());
    }
    if olds.contains(rule) && !removed_by(news, rule) {
        let j = olds.index_of(rule);
        assert(!removed_by(news, olds[j]));
    }
}

/// Sanitizing a rule twice is the same as once, and a sanitized rule matches
/// itself.
pub proof fn law_sanitized(rule: RouteRuleEntryView)
    ensures
        rule.sanitized() is Ok ==> {
            let clean = rule.sanitized()->Ok_0;
            &&& clean.sanitized() == rule.sanitized()
            &&& clean.matches_rule(clean)
        },
{
    if rule.sanitized() is Ok {
        if let Some(ip_from) = rule.ip_from {
            if ip_from.len() > 0 {
                addr_laws::law_canonical_network(ip_from);
                addr_laws::lemma_canonical_len(ip_from);
            }
        }
        if let Some(ip_to) = rule.ip_to {
            if ip_to.len() > 0 {
                addr_laws::law_canonical_network(ip_to);
                addr_laws::lemma_canonical_len(ip_to);
            }
        }
        law_match(rule.sanitized()->Ok_0);
    }
}

/// The rules that match none of the old ones are those that were there before
/// and the rest of the list that do not match.
proof fn lemma_unmatched(
    rules: Seq<RouteRuleEntryView>,
    old: Seq<RouteRuleEntryView>,
    i: int,
    acc: Seq<RouteRuleEntryView>,
    rule: RouteRuleEntryView,
)
    requires
        0 <= i <= rules.len(),
    ensures
        unmatched_from(rules, old, i, acc).contains(rule) <==> acc.contains(rule) || (
        rules.subrange(i, rules.len() as int).contains(rule) && !matches_any(rule, old)),
    decreases rules.len() - i,
{
    let rest = rules.subrange(i, rules.len() as int);
    if i < rules.len() {
        let later = rules.subrange(i + 1, rules.len() as int);
        assert(rest =~= seq![rules[i]] + later);
        assert(rest.contains(rule) <==> rules[i] == rule || later.contains(rule)) by {
            if later.contains(rule) {
                assert(rest[later.index_of(rule) + 1] == rule);
            }
            if rules[i] == rule {
                assert(rest[0] == rule);
            }
            if rest.contains(rule) && rules[i] != rule {
                assert(later[rest.index_of(rule) - 1] == rule);
            }
        }
        let next = acc.push(rules[i]);
        assert(next.contains(rule) <==> acc.contains(rule) || rules[i] == rule) by {
            if acc.contains(rule) {
                assert(next[acc.index_of(rule)] == rule);
            }
            assert(next[acc.len() as int] == rules[i]);
            if next.contains(rule) && rules[i] != rule {
                assert(acc[next.index_of(rule)] == rule);
            }
        }
        if matches_any(rules[i], old) {
            lemma_unmatched(rules, old, i + 1, acc, rule);
        } else {
            lemma_unmatched(rules, old, i + 1, next, rule);
        }
    }
}

/// The difference between two lists of rules holds the rules of the new one
/// that match no old rule, and no other. Rules whose prefixes are in canonical
/// form do not differ from themselves.
pub proof fn law_difference(
    new_rules: RouteRulesView,
    old_rules: RouteRulesView,
    rule: RouteRuleEntryView,
)
    requires
        new_rules.config is Some,
        old_rules.config is Some,
    ensures
        new_rules.diff_from(old_rules).rules().contains(rule) <==> new_rules.rules().contains(
            rule,
        ) && !matches_any(rule, old_rules.rules()),
        is_canonical_prefix(rule.ip_from) && is_canonical_prefix(rule.ip_to)
            ==> !new_rules.diff_from(new_rules).rules().contains(rule),
{
    let news = new_rules.rules();
    assert(news.subrange(0, news.len() as int) =~= news);
    lemma_unmatched(news, old_rules.rules(), 0, Seq::empty(), rule);
    lemma_unmatched(news, news, 0, Seq::empty(), rule);
    if is_canonical_prefix(rule.ip_from) && is_canonical_prefix(rule.ip_to) && news.contains(
        rule,
    ) {
        law_match(rule);
        assert(rule.matches_rule(news[news.index_of(rule)]));
    }
}

/// A rule matches another one exactly when no property that it defines differs
/// there. Prefixes are compared in canonical form, an undefined family fits any,
/// and an undefined mark or mask is zero, as is an undefined priority.
pub proof fn law_match_exact(rule: RouteRuleEntryView, other: RouteRuleEntryView)
    ensures
        rule.matches_rule(other) ==> {
            &&& rule.iif is Some ==> other.iif == rule.iif
            &&& rule.action is Some ==> other.action == rule.action
            &&& rule.suppress_prefix_length is Some ==> other.suppress_prefix_length
                == rule.suppress_prefix_length
            &&& rule.fwmark is Some && rule.fwmark->0 > 0 ==> other.fwmark == rule.fwmark
            &&& rule.fwmask is Some && rule.fwmask->0 > 0 ==> other.fwmask == rule.fwmask
            &&& rule.table_id is Some && rule.table_id->0 > 0 ==> other.table_id == rule.table_id
            &&& rule.priority is Some && rule.priority->0 > 0 ==> other.priority == rule.priority
            &&& rule.family is Some && other.family is Some ==> other.family == rule.family
            &&& rule.ip_from is Some && rule.ip_from->0.len() > 0 ==> other.ip_from is Some
            &&& rule.ip_to is Some && rule.ip_to->0.len() > 0 ==> other.ip_to is Some
        },
        prefix_matches(rule.ip_from, other.ip_from) && prefix_matches(rule.ip_to, other.ip_to) && {
            &&& rule.iif is Some ==> other.iif == rule.iif
            &&& rule.action is Some ==> other.action == rule.action
            &&& rule.suppress_prefix_length is Some ==> other.suppress_prefix_length
                == rule.suppress_prefix_length
            &&& rule.fwmark is Some ==> other.fwmark == rule.fwmark
            &&& rule.fwmask is Some ==> other.fwmask == rule.fwmask
            &&& rule.table_id is Some ==> other.table_id == rule.table_id
            &&& rule.priority is Some ==> other.priority == rule.priority
            &&& rule.family is Some ==> other.family == rule.family
        } ==> rule.matches_rule(other),
{
}

} // verus!
