//! Desired, current and saved route rules, merged.

use vstd::prelude::*;
use vstd::string::*;

use crate::error::{ErrorKind, NipartError, NipartErrorView};
use crate::order::{insert_item, remove_runs, sort};
use crate::route_rule::{
    RouteRuleEntry, RouteRuleEntryView, RouteRuleState, RouteRules, RouteRulesView,
    current_rule_matches, highest_priority, is_removed_by, lacks_priority, set_auto_priority,
};
use crate::value::{Value, contains, empty_list, push};
use crate::{error, order, route_rule, value};

verus! {

/// The route rules that an apply changes and those that it saves.
#[derive(Clone, Debug, PartialEq, Eq)]
pub struct MergedRouteRules {
    pub desired: RouteRules,
    pub current: RouteRules,
    /// Desired new route rules, and current route rules marked as absent.
    pub changed_rules: Vec<RouteRuleEntry>,
    /// The route rules to persist.
    pub for_save: RouteRules,
}

/// What a [MergedRouteRules] stands for.
#[verifier::ext_equal]
pub struct MergedRouteRulesView {
    pub desired: RouteRulesView,
    pub current: RouteRulesView,
    pub changed_rules: Seq<RouteRuleEntryView>,
    pub for_save: RouteRulesView,
}

impl View for MergedRouteRules {
    type V = MergedRouteRulesView;

    open spec fn view(&self) -> MergedRouteRulesView {
        MergedRouteRulesView {
            desired: self.desired.deep_view(),
            current: self.current.deep_view(),
            changed_rules: self.changed_rules.deep_view(),
            for_save: self.for_save.deep_view(),
        }
    }
}

impl DeepView for MergedRouteRules {
    type V = MergedRouteRulesView;

    open spec fn deep_view(&self) -> MergedRouteRulesView {
        self@
    }
}

impl Value for MergedRouteRules {
    fn dup(&self) -> (res: Self) {
        MergedRouteRules {
            desired: self.desired.dup(),
            current: self.current.dup(),
            changed_rules: self.changed_rules.dup(),
            for_save: self.for_save.dup(),
        }
    }

    fn same(&self, other: &Self) -> (res: bool) {
        self.desired.same(&other.desired) && self.current.same(&other.current) && self.changed_rules.same(&other.changed_rules) && self.for_save.same(&other.for_save)
    }
}

/// The rule, marked as absent.
pub open spec fn marked_absent(rule: RouteRuleEntryView) -> RouteRuleEntryView {
    RouteRuleEntryView { state: Some(RouteRuleState::Absent), ..rule }
}

/// `acc` with the sanitized rules from `i` on that are not absent.
pub open spec fn sanitized_present_from(
    rules: Seq<RouteRuleEntryView>,
    i: int,
    acc: Seq<RouteRuleEntryView>,
) -> Result<Seq<RouteRuleEntryView>, NipartErrorView>
    decreases rules.len() - i,
{
    if i < 0 || i >= rules.len() {
        Ok(acc)
    } else if rules[i].absent() {
        sanitized_present_from(rules, i + 1, acc)
    } else {
        match rules[i].sanitized() {
            Ok(rule) => sanitized_present_from(rules, i + 1, acc.push(rule)),
            Err(e) => Err(e),
        }
    }
}

/// The set `acc` with the current rules from `i` on that an absent desired one
/// matches, sanitized and marked as absent.
pub open spec fn removed_current_from(
    current: Seq<RouteRuleEntryView>,
    desired: Seq<RouteRuleEntryView>,
    i: int,
    acc: Seq<RouteRuleEntryView>,
) -> Result<Seq<RouteRuleEntryView>, NipartErrorView>
    decreases current.len() - i,
{
    if i < 0 || i >= current.len() {
        Ok(acc)
    } else if !route_rule::removed_by(desired, current[i]) {
        removed_current_from(current, desired, i + 1, acc)
    } else {
        match marked_absent(current[i]).sanitized() {
            Ok(rule) => removed_current_from(
                current,
                desired,
                i + 1,
                order::with_item::<RouteRuleEntry>(acc, rule),
            ),
            Err(e) => Err(e),
        }
    }
}

/// The set `acc` with the rules from `i` on that match no current one.
pub open spec fn added_from(
    rules: Seq<RouteRuleEntryView>,
    current: Seq<RouteRuleEntryView>,
    i: int,
    acc: Seq<RouteRuleEntryView>,
) -> Seq<RouteRuleEntryView>
    decreases rules.len() - i,
{
    if i < 0 || i >= rules.len() {
        acc
    } else if route_rule::matches_any(rules[i], current) {
        added_from(rules, current, i + 1, acc)
    } else {
        added_from(rules, current, i + 1, order::with_item::<RouteRuleEntry>(acc, rules[i]))
    }
}

/// The set `acc` with the saved rules from `i` on, sanitized, that are not
/// absent and that no absent desired one matches.
pub open spec fn kept_saved_from(
    saved: Seq<RouteRuleEntryView>,
    desired: Seq<RouteRuleEntryView>,
    i: int,
    acc: Seq<RouteRuleEntryView>,
) -> Result<Seq<RouteRuleEntryView>, NipartErrorView>
    decreases saved.len() - i,
{
    if i < 0 || i >= saved.len() {
        Ok(acc)
    } else if saved[i].absent() {
        kept_saved_from(saved, desired, i + 1, acc)
    } else {
        match saved[i].sanitized() {
            Ok(rule) => if route_rule::removed_by(desired, rule) {
                kept_saved_from(saved, desired, i + 1, acc)
            } else {
                kept_saved_from(
                    saved,
                    desired,
                    i + 1,
                    order::with_item::<RouteRuleEntry>(acc, rule),
                )
            },
            Err(e) => Err(e),
        }
    }
}

/// The rules, undefined when there are none.
pub open spec fn defined_rules(rules: Seq<RouteRuleEntryView>) -> RouteRulesView {
    RouteRulesView { config: if rules.len() == 0 { None } else { Some(rules) } }
}

/// The rules to persist: the sanitized desired ones and every saved one that
/// no absent desired one matches.
pub open spec fn rules_for_save(
    desired: RouteRulesView,
    saved: Option<RouteRulesView>,
    desired_rules: Seq<RouteRuleEntryView>,
) -> Result<RouteRulesView, NipartErrorView> {
    let saved_rules = match saved {
        Some(saved) => saved.rules(),
        None => Seq::empty(),
    };
    match kept_saved_from(
        saved_rules,
        desired.rules(),
        0,
        order::with_items_from::<RouteRuleEntry>(desired_rules, 0, Seq::empty()),
    ) {
        Ok(rules) => Ok(defined_rules(order::sorted::<RouteRuleEntry>(rules))),
        Err(e) => Err(e),
    }
}

/// The rules to change: every current one that an absent desired one matches,
/// marked as absent, and every desired one that matches no current one, in
/// order and with automatic priorities.
pub open spec fn rules_to_change(
    current: Seq<RouteRuleEntryView>,
    desired: Seq<RouteRuleEntryView>,
    desired_rules: Seq<RouteRuleEntryView>,
) -> Result<Seq<RouteRuleEntryView>, NipartErrorView> {
    match removed_current_from(current, desired, 0, Seq::empty()) {
        Ok(removed) => Ok(
            route_rule::with_auto_priority(
                order::sorted::<RouteRuleEntry>(added_from(desired_rules, current, 0, removed)),
                current,
            ),
        ),
        Err(e) => Err(e),
    }
}

/// Which sanitized rules need a priority and match no current one.
pub open spec fn added_without_priority(
    current: Seq<RouteRuleEntryView>,
) -> spec_fn(RouteRuleEntryView) -> bool {
    |rule: RouteRuleEntryView|
        route_rule::needs_priority(rule) && !route_rule::matches_any(rule, current)
}

/// Which desired rules need a priority and, sanitized, match no current one.
pub open spec fn new_without_priority(
    current: Seq<RouteRuleEntryView>,
) -> spec_fn(RouteRuleEntryView) -> bool {
    |rule: RouteRuleEntryView|
        route_rule::needs_priority(rule) && !(rule.sanitized() is Ok && route_rule::matches_any(
            rule.sanitized()->Ok_0,
            current,
        ))
}

/// Whether automatic priorities stay in range: the highest current one leaves
/// room for one more per desired rule that is new and needs a priority.
pub open spec fn priority_room(desired: RouteRulesView, current: RouteRulesView) -> bool {
    route_rule::auto_priority_base(current.rules()) + value::count_from(
        desired.rules(),
        new_without_priority(current.rules()),
        0,
    ) <= i64::MAX
}

/// Sanitizing changes neither priorities nor which rules are absent.
proof fn lemma_sanitized_count(
    rules: Seq<RouteRuleEntryView>,
    current: Seq<RouteRuleEntryView>,
    i: int,
    acc: Seq<RouteRuleEntryView>,
)
    requires
        0 <= i <= rules.len(),
        sanitized_present_from(rules, i, acc) is Ok,
    ensures
        value::count_from(
            sanitized_present_from(rules, i, acc)->Ok_0,
            added_without_priority(current),
            0,
        ) == value::count_from(acc, added_without_priority(current), 0) + value::count_from(
            rules,
            new_without_priority(current),
            i,
        ),
    decreases rules.len() - i,
{
    if i < rules.len() {
        if rules[i].absent() {
            lemma_sanitized_count(rules, current, i + 1, acc);
        } else {
            let rule = rules[i].sanitized()->Ok_0;
            value::lemma_count_insert(acc, added_without_priority(current), 0, rule);
            assert(route_rule::needs_priority(rule) == route_rule::needs_priority(rules[i]));
            lemma_sanitized_count(rules, current, i + 1, acc.push(rule));
        }
    }
}

/// Rules to remove get no priority.
proof fn lemma_removed_count(
    current: Seq<RouteRuleEntryView>,
    desired: Seq<RouteRuleEntryView>,
    i: int,
    acc: Seq<RouteRuleEntryView>,
)
    requires
        0 <= i <= current.len(),
        removed_current_from(current, desired, i, acc) is Ok,
    ensures
        route_rule::numbered_from(
            removed_current_from(current, desired, i, acc)->Ok_0,
            current,
            0,
        ) == route_rule::numbered_from(acc, current, 0),
    decreases current.len() - i,
{
    if i < current.len() {
        if !route_rule::removed_by(desired, current[i]) {
            lemma_removed_count(current, desired, i + 1, acc);
        } else {
            let rule = marked_absent(current[i]).sanitized()->Ok_0;
            assert(rule.absent());
            value::lemma_count_insert(acc, route_rule::numbered(current), 0, rule);
            lemma_removed_count(
                current,
                desired,
                i + 1,
                order::with_item::<RouteRuleEntry>(acc, rule),
            );
        }
    }
}

/// Only rules that match no current one are added.
proof fn lemma_added_count(
    rules: Seq<RouteRuleEntryView>,
    current: Seq<RouteRuleEntryView>,
    i: int,
    acc: Seq<RouteRuleEntryView>,
)
    requires
        0 <= i <= rules.len(),
    ensures
        route_rule::numbered_from(added_from(rules, current, i, acc), current, 0)
            <= route_rule::numbered_from(acc, current, 0) + value::count_from(
            rules,
            added_without_priority(current),
            i,
        ),
    decreases rules.len() - i,
{
    if i < rules.len() {
        if route_rule::matches_any(rules[i], current) {
            lemma_added_count(rules, current, i + 1, acc);
        } else {
            value::lemma_count_insert(acc, route_rule::numbered(current), 0, rules[i]);
            lemma_added_count(
                rules,
                current,
                i + 1,
                order::with_item::<RouteRuleEntry>(acc, rules[i]),
            );
        }
    }
}

/// What [MergedRouteRules::new] returns.
pub open spec fn merged_rules(
    desired: RouteRulesView,
    current: RouteRulesView,
    saved: Option<RouteRulesView>,
) -> Result<MergedRouteRulesView, NipartErrorView> {
    match (desired.validated(), current.validated()) {
        (Err(e), _) => Err(e),
        (_, Err(e)) => Err(e),
        _ => match sanitized_present_from(desired.rules(), 0, Seq::empty()) {
            Err(e) => Err(e),
            Ok(desired_rules) => match rules_to_change(
                current.rules(),
                desired.rules(),
                desired_rules,
            ) {
                Err(e) => Err(e),
                Ok(changed_rules) => match rules_for_save(desired, saved, desired_rules) {
                    Err(e) => Err(e),
                    Ok(for_save) => Ok(
                        MergedRouteRulesView { desired, current, changed_rules, for_save },
                    ),
                },
            },
        },
    }
}

/// `acc` with the rules from `i` on that `rule` matches.
pub open spec fn matching_from(
    rule: RouteRuleEntryView,
    rules: Seq<RouteRuleEntryView>,
    i: int,
    acc: Seq<RouteRuleEntryView>,
) -> Seq<RouteRuleEntryView>
    decreases rules.len() - i,
{
    if i < 0 || i >= rules.len() {
        acc
    } else if rule.matches_rule(rules[i]) {
        matching_from(rule, rules, i + 1, acc.push(rules[i]))
    } else {
        matching_from(rule, rules, i + 1, acc)
    }
}

/// `acc` with what undoes the changes from `i` on: the current rules that a
/// removed one matches, and every added rule marked as absent.
pub open spec fn undo_from(
    changed: Seq<RouteRuleEntryView>,
    current: Seq<RouteRuleEntryView>,
    i: int,
    acc: Seq<RouteRuleEntryView>,
) -> Seq<RouteRuleEntryView>
    decreases changed.len() - i,
{
    if i < 0 || i >= changed.len() {
        acc
    } else if changed[i].absent() {
        undo_from(changed, current, i + 1, matching_from(changed[i], current, 0, acc))
    } else {
        undo_from(changed, current, i + 1, acc.push(marked_absent(changed[i])))
    }
}

/// Whether every desired rule from `i` on that is not absent matches one of
/// the current rules: the first failure.
pub open spec fn desired_found_from(
    desired: Seq<RouteRuleEntryView>,
    current: Seq<RouteRuleEntryView>,
    i: int,
) -> Result<(), NipartErrorView>
    decreases desired.len() - i,
{
    if i < 0 || i >= desired.len() {
        Ok(())
    } else if desired[i].absent() {
        desired_found_from(desired, current, i + 1)
    } else {
        match desired[i].sanitized() {
            Err(e) => Err(e),
            Ok(rule) => if route_rule::matches_any(rule, current) {
                desired_found_from(desired, current, i + 1)
            } else {
                Err(
                    NipartErrorView {
                        kind: ErrorKind::VerificationError,
                        msg: "Desired route rule "@ + rule.text() + " not found after apply"@,
                    },
                )
            },
        }
    }
}

/// Whether no absent rule from `i` on matches one of the current rules: the
/// first failure.
pub open spec fn absent_gone_from(
    changed: Seq<RouteRuleEntryView>,
    current: Seq<RouteRuleEntryView>,
    i: int,
) -> Result<(), NipartErrorView>
    decreases changed.len() - i,
{
    if i < 0 || i >= changed.len() {
        Ok(())
    } else if changed[i].absent() && route_rule::matches_any(changed[i], current) {
        Err(
            NipartErrorView {
                kind: ErrorKind::VerificationError,
                msg: "Desired absent route rule "@ + changed[i].text()
                    + " still found after apply"@,
            },
        )
    } else {
        absent_gone_from(changed, current, i + 1)
    }
}

/// Whether the rule comes in from one of the interfaces.
pub open spec fn comes_from(rule: RouteRuleEntryView, ifaces: Seq<Seq<char>>) -> bool {
    rule.iif is Some && ifaces.contains(rule.iif->0)
}

/// `acc` with the rules from `i` on that come in from none of the interfaces.
pub open spec fn not_from_ifaces(
    rules: Seq<RouteRuleEntryView>,
    ifaces: Seq<Seq<char>>,
    i: int,
    acc: Seq<RouteRuleEntryView>,
) -> Seq<RouteRuleEntryView>
    decreases rules.len() - i,
{
    if i < 0 || i >= rules.len() {
        acc
    } else if comes_from(rules[i], ifaces) {
        not_from_ifaces(rules, ifaces, i + 1, acc)
    } else {
        not_from_ifaces(rules, ifaces, i + 1, acc.push(rules[i]))
    }
}

impl RouteRulesView {
    /// The rules that come in from none of the interfaces.
    pub open spec fn without_ifaces(self, ifaces: Seq<Seq<char>>) -> RouteRulesView {
        RouteRulesView {
            config: match self.config {
                Some(rules) => Some(not_from_ifaces(rules, ifaces, 0, Seq::empty())),
                None => None,
            },
        }
    }
}

impl MergedRouteRulesView {
    /// Nothing desired, nothing present, nothing saved.
    pub open spec fn undefined() -> MergedRouteRulesView {
        MergedRouteRulesView {
            desired: RouteRulesView::undefined(),
            current: RouteRulesView::undefined(),
            changed_rules: Seq::empty(),
            for_save: RouteRulesView::undefined(),
        }
    }

    /// The rules whose apply undoes the changes.
    pub open spec fn reverted(self) -> RouteRulesView {
        defined_rules(
            order::dedup::<RouteRuleEntry>(
                order::sorted::<RouteRuleEntry>(
                    undo_from(self.changed_rules, self.current.rules(), 0, Seq::empty()),
                ),
            ),
        )
    }

    /// Whether the current rules show what was applied.
    pub open spec fn verified(self, current: RouteRulesView) -> Result<(), NipartErrorView> {
        match desired_found_from(self.desired.rules(), current.rules(), 0) {
            Err(e) => Err(e),
            Ok(_) => absent_gone_from(self.changed_rules, current.rules(), 0),
        }
    }

    /// The merged rules without those that come in from the interfaces.
    pub open spec fn without_ifaces(self, ifaces: Seq<Seq<char>>) -> MergedRouteRulesView {
        MergedRouteRulesView {
            desired: self.desired.without_ifaces(ifaces),
            for_save: self.for_save.without_ifaces(ifaces),
            changed_rules: not_from_ifaces(self.changed_rules, ifaces, 0, Seq::empty()),
            ..self
        }
    }
}

/// Whether automatic priorities stay in range when the rules are merged.
pub fn has_priority_room(desired: &RouteRules, current: &RouteRules) -> (res: bool)
    ensures
        res == priority_room(desired@, current@),
{
    let none: Vec<RouteRuleEntry> = empty_list();
    let current_rules = match &current.config {
        Some(rules) => rules,
        None => &none,
    };
    let desired_rules = match &desired.config {
        Some(rules) => rules,
        None => &none,
    };
    let ghost cs = current_rules.deep_view();
    let ghost ds = desired_rules.deep_view();
    let ghost fresh = new_without_priority(cs);
    let mut count: usize = 0;
    let mut i: usize = 0;
    while i < desired_rules.len()
        invariant
            count <= i <= desired_rules.len(),
            ds == desired_rules.deep_view(),
            cs == current_rules.deep_view(),
            fresh == new_without_priority(cs),
            value::count_from(ds, fresh, 0) == count + value::count_from(ds, fresh, i as int),
        decreases desired_rules.len() - i,
    {
        assert(ds[i as int] == desired_rules[i as int]@);
        if lacks_priority(&desired_rules[i]) {
            let mut rule = desired_rules[i].dup();
            let known = match rule.sanitize() {
                Ok(_) => current_rule_matches(current_rules, &rule),
                Err(_) => false,
            };
            if !known {
                count = count + 1;
            }
        }
        i = i + 1;
    }
    highest_priority(current_rules) as i128 + count as i128 <= i64::MAX as i128
}

/// The sanitized desired rules that are not absent.
fn sanitize_desired(desired: &RouteRules) -> (res: Result<Vec<RouteRuleEntry>, NipartError>)
    ensures
        error::same_result(res, sanitized_present_from(desired@.rules(), 0, Seq::empty())),
{
    let mut res: Vec<RouteRuleEntry> = empty_list();
    if let Some(rules) = &desired.config {
        let ghost views = rules.deep_view();
        let mut i: usize = 0;
        while i < rules.len()
            invariant
                i <= rules.len(),
                views == rules.deep_view(),
                views == desired@.rules(),
                sanitized_present_from(views, 0, Seq::empty()) == sanitized_present_from(
                    views,
                    i as int,
                    res.deep_view(),
                ),
            decreases rules.len() - i,
        {
            assert(views[i as int] == rules[i as int]@);
            if !rules[i].is_absent() {
                let mut rule = rules[i].dup();
                if let Err(e) = rule.sanitize() {
                    return Err(e);
                }
                push(&mut res, rule);
            }
            i = i + 1;
        }
    }
    Ok(res)
}

/// The current rules that an absent desired one matches, marked as absent.
fn collect_removed(current: &RouteRules, desired: &RouteRules) -> (res: Result<
    Vec<RouteRuleEntry>,
    NipartError,
>)
    ensures
        error::same_result(
            res,
            removed_current_from(current@.rules(), desired@.rules(), 0, Seq::empty()),
        ),
{
    let none: Vec<RouteRuleEntry> = empty_list();
    let desired_rules = match &desired.config {
        Some(rules) => rules,
        None => &none,
    };
    let ghost desired_views = desired_rules.deep_view();
    let mut res: Vec<RouteRuleEntry> = empty_list();
    if let Some(rules) = &current.config {
        let ghost views = rules.deep_view();
        let mut i: usize = 0;
        while i < rules.len()
            invariant
                i <= rules.len(),
                views == rules.deep_view(),
                views == current@.rules(),
                desired_views == desired_rules.deep_view(),
                desired_views == desired@.rules(),
                removed_current_from(views, desired_views, 0, Seq::empty())
                    == removed_current_from(views, desired_views, i as int, res.deep_view()),
            decreases rules.len() - i,
        {
            assert(views[i as int] == rules[i as int]@);
            if is_removed_by(desired_rules, &rules[i]) {
                let mut rule = rules[i].dup();
                rule.state = Some(RouteRuleState::Absent);
                if let Err(e) = rule.sanitize() {
                    return Err(e);
                }
                insert_item(&mut res, rule);
            }
            i = i + 1;
        }
    }
    Ok(res)
}

/// Compute the route rules to persist: the desired non-absent rules plus
/// every previously saved route rule that survives this apply.
fn gen_route_rules_for_save(
    desired: &RouteRules,
    saved: &Option<RouteRules>,
    desired_rules: &Vec<RouteRuleEntry>,
) -> (res: Result<RouteRules, NipartError>)
    ensures
        error::same_result(
            res,
            rules_for_save(desired@, saved.deep_view(), desired_rules.deep_view()),
        ),
{
    let none: Vec<RouteRuleEntry> = empty_list();
    let all_desired = match &desired.config {
        Some(rules) => rules,
        None => &none,
    };
    let saved_rules = match saved {
        Some(saved) => match &saved.config {
            Some(rules) => rules,
            None => &none,
        },
        None => &none,
    };
    let ghost ds = all_desired.deep_view();
    let ghost ss = saved_rules.deep_view();
    let ghost rs = desired_rules.deep_view();
    let mut set: Vec<RouteRuleEntry> = empty_list();
    let mut i: usize = 0;
    while i < desired_rules.len()
        invariant
            i <= desired_rules.len(),
            rs == desired_rules.deep_view(),
            order::with_items_from::<RouteRuleEntry>(rs, 0, Seq::empty())
                == order::with_items_from::<RouteRuleEntry>(rs, i as int, set.deep_view()),
        decreases desired_rules.len() - i,
    {
        assert(rs[i as int] == desired_rules[i as int]@);
        insert_item(&mut set, desired_rules[i].dup());
        i = i + 1;
    }
    let ghost start = set.deep_view();
    let mut i: usize = 0;
    while i < saved_rules.len()
        invariant
            i <= saved_rules.len(),
            ds == all_desired.deep_view(),
            ds == desired@.rules(),
            ss == saved_rules.deep_view(),
            saved.deep_view() matches Some(s) ==> ss == s.rules(),
            saved.deep_view() is None ==> ss.len() == 0,
            rs == desired_rules.deep_view(),
            start == order::with_items_from::<RouteRuleEntry>(rs, 0, Seq::empty()),
            kept_saved_from(ss, ds, 0, start) == kept_saved_from(
                ss,
                ds,
                i as int,
                set.deep_view(),
            ),
        decreases saved_rules.len() - i,
    {
        assert(ss[i as int] == saved_rules[i as int]@);
        if !saved_rules[i].is_absent() {
            let mut rule = saved_rules[i].dup();
            if let Err(e) = rule.sanitize() {
                return Err(e);
            }
            if !is_removed_by(all_desired, &rule) {
                insert_item(&mut set, rule);
            }
        }
        i = i + 1;
    }
    let rules = sort(&set);
    Ok(RouteRules { config: if rules.is_empty() { None } else { Some(rules) } })
}

/// The rules that come in from none of the interfaces.
pub fn retain_rules(rules: &Vec<RouteRuleEntry>, ifaces: &Vec<String>) -> (res: Vec<RouteRuleEntry>)
    ensures
        res.deep_view() == not_from_ifaces(
            rules.deep_view(),
            ifaces.deep_view(),
            0,
            Seq::empty(),
        ),
{
    let ghost views = rules.deep_view();
    let ghost names = ifaces.deep_view();
    let mut res: Vec<RouteRuleEntry> = empty_list();
    let mut i: usize = 0;
    while i < rules.len()
        invariant
            i <= rules.len(),
            views == rules.deep_view(),
            names == ifaces.deep_view(),
            not_from_ifaces(views, names, 0, Seq::empty()) == not_from_ifaces(
                views,
                names,
                i as int,
                res.deep_view(),
            ),
        decreases rules.len() - i,
    {
        assert(views[i as int] == rules[i as int]@);
        let ignored = match &rules[i].iif {
            Some(iif) => contains(ifaces, iif),
            None => false,
        };
        if !ignored {
            push(&mut res, rules[i].dup());
        }
        i = i + 1;
    }
    res
}

impl Default for MergedRouteRules {
    fn default() -> (res: Self)
        ensures
            res@ == MergedRouteRulesView::undefined(),
    {
        MergedRouteRules {
            desired: RouteRules::new(),
            current: RouteRules::new(),
            changed_rules: empty_list(),
            for_save: RouteRules::new(),
        }
    }
}

impl MergedRouteRules {
    /// Merges the desired rules with the current and the saved ones.
    pub fn new(desired: RouteRules, current: RouteRules, saved: Option<RouteRules>) -> (res: Result<
        Self,
        NipartError,
    >)
        requires
            priority_room(desired@, current@),
        ensures
            error::same_result(res, merged_rules(desired@, current@, saved.deep_view())),
    {
        if let Err(e) = desired.validate() {
            return Err(e);
        }
        if let Err(e) = current.validate() {
            return Err(e);
        }
        let desired_rules = match sanitize_desired(&desired) {
            Ok(rules) => rules,
            Err(e) => {
                return Err(e);
            },
        };
        let mut changed = match collect_removed(&current, &desired) {
            Ok(rules) => rules,
            Err(e) => {
                return Err(e);
            },
        };
        let none: Vec<RouteRuleEntry> = empty_list();
        let current_rules = match &current.config {
            Some(rules) => rules,
            None => &none,
        };
        let ghost cs = current_rules.deep_view();
        let ghost rs = desired_rules.deep_view();
        let ghost removed = changed.deep_view();
        let mut i: usize = 0;
        while i < desired_rules.len()
            invariant
                i <= desired_rules.len(),
                rs == desired_rules.deep_view(),
                cs == current_rules.deep_view(),
                added_from(rs, cs, 0, removed) == added_from(
                    rs,
                    cs,
                    i as int,
                    changed.deep_view(),
                ),
            decreases desired_rules.len() - i,
        {
            assert(rs[i as int] == desired_rules[i as int]@);
            if !current_rule_matches(current_rules, &desired_rules[i]) {
                insert_item(&mut changed, desired_rules[i].dup());
            }
            i = i + 1;
        }
        let mut changed_rules = sort(&changed);
        proof {
            let none = Seq::<RouteRuleEntryView>::empty();
            lemma_sanitized_count(desired@.rules(), cs, 0, none);
            lemma_removed_count(cs, desired@.rules(), 0, none);
            lemma_added_count(rs, cs, 0, removed);
            order::lemma_sorted_count::<RouteRuleEntry>(
                changed.deep_view(),
                route_rule::numbered(cs),
                0,
                none,
            );
        }
        set_auto_priority(&mut changed_rules, current_rules);
        let for_save = match gen_route_rules_for_save(&desired, &saved, &desired_rules) {
            Ok(rules) => rules,
            Err(e) => {
                return Err(e);
            },
        };
        Ok(MergedRouteRules { desired, current, changed_rules, for_save })
    }

    /// Whether any rule is changed.
    pub fn is_changed(&self) -> (res: bool)
        ensures
            res == (self@.changed_rules.len() > 0),
    {
        !self.changed_rules.is_empty()
    }

    /// The rules to apply.
    pub fn gen_state_for_apply(&self) -> (res: RouteRules)
        ensures
            res@ == defined_rules(self@.changed_rules),
    {
        RouteRules {
            config: if self.changed_rules.is_empty() {
                None
            } else {
                Some(self.changed_rules.dup())
            },
        }
    }

    /// The rules to persist.
    pub fn gen_state_for_save(&self) -> (res: RouteRules)
        ensures
            res@ == self@.for_save,
    {
        RouteRules { config: self.for_save.config.dup() }
    }

    /// The rules that differ from the current ones.
    pub fn gen_diff(&self) -> (res: RouteRules)
        ensures
            res@ == defined_rules(self@.changed_rules),
    {
        self.gen_state_for_apply()
    }

    /// The rules whose apply undoes the changes.
    pub fn generate_revert(&self) -> (res: Result<RouteRules, NipartError>)
        ensures
            error::same_result(res, Ok(self@.reverted())),
    {
        let none: Vec<RouteRuleEntry> = empty_list();
        let current_rules = match &self.current.config {
            Some(rules) => rules,
            None => &none,
        };
        let ghost cs = current_rules.deep_view();
        let ghost changed = self.changed_rules.deep_view();
        let mut undo: Vec<RouteRuleEntry> = empty_list();
        let mut i: usize = 0;
        while i < self.changed_rules.len()
            invariant
                i <= self.changed_rules.len(),
                cs == current_rules.deep_view(),
                changed == self.changed_rules.deep_view(),
                undo_from(changed, cs, 0, Seq::empty()) == undo_from(
                    changed,
                    cs,
                    i as int,
                    undo.deep_view(),
                ),
            decreases self.changed_rules.len() - i,
        {
            let rule = &self.changed_rules[i];
            assert(changed[i as int] == rule@);
            if rule.is_absent() {
                let ghost start = undo.deep_view();
                let mut j: usize = 0;
                while j < current_rules.len()
                    invariant
                        j <= current_rules.len(),
                        cs == current_rules.deep_view(),
                        matching_from(rule@, cs, 0, start) == matching_from(
                            rule@,
                            cs,
                            j as int,
                            undo.deep_view(),
                        ),
                    decreases current_rules.len() - j,
                {
                    assert(cs[j as int] == current_rules[j as int]@);
                    if rule.is_match(&current_rules[j]) {
                        push(&mut undo, current_rules[j].dup());
                    }
                    j = j + 1;
                }
            } else {
                let mut absent = rule.dup();
                absent.state = Some(RouteRuleState::Absent);
                push(&mut undo, absent);
            }
            i = i + 1;
        }
        let rules = remove_runs(&sort(&undo));
        Ok(RouteRules { config: if rules.is_empty() { None } else { Some(rules) } })
    }

    /// Whether the current rules show what was applied.
    pub fn verify(&self, current: &RouteRules) -> (res: Result<(), NipartError>)
        ensures
            error::same_result(res, self@.verified(current@)),
    {
        let none: Vec<RouteRuleEntry> = empty_list();
        let current_rules = match &current.config {
            Some(rules) => rules,
            None => &none,
        };
        let ghost cs = current_rules.deep_view();
        let desired_rules = match &self.desired.config {
            Some(rules) => rules,
            None => &none,
        };
        let ghost ds = desired_rules.deep_view();
        let mut i: usize = 0;
        while i < desired_rules.len()
            invariant
                i <= desired_rules.len(),
                ds == desired_rules.deep_view(),
                ds == self@.desired.rules(),
                cs == current_rules.deep_view(),
                cs == current@.rules(),
                desired_found_from(ds, cs, 0) == desired_found_from(ds, cs, i as int),
            decreases desired_rules.len() - i,
        {
            assert(ds[i as int] == desired_rules[i as int]@);
            if !desired_rules[i].is_absent() {
                let mut rule = desired_rules[i].dup();
                if let Err(e) = rule.sanitize() {
                    return Err(e);
                }
                if !current_rule_matches(current_rules, &rule) {
                    return Err(
                        NipartError::new(
                            ErrorKind::VerificationError,
                            String::from_str("Desired route rule ").concat(
                                rule.to_text().as_str(),
                            ).concat(" not found after apply"),
                        ),
                    );
                }
            }
            i = i + 1;
        }
        let ghost changed = self.changed_rules.deep_view();
        let mut i: usize = 0;
        while i < self.changed_rules.len()
            invariant
                i <= self.changed_rules.len(),
                ds == self@.desired.rules(),
                changed == self.changed_rules.deep_view(),
                cs == current_rules.deep_view(),
                cs == current@.rules(),
                desired_found_from(ds, cs, 0) is Ok,
                absent_gone_from(changed, cs, 0) == absent_gone_from(changed, cs, i as int),
            decreases self.changed_rules.len() - i,
        {
            let rule = &self.changed_rules[i];
            assert(changed[i as int] == rule@);
            if rule.is_absent() && current_rule_matches(current_rules, rule) {
                return Err(
                    NipartError::new(
                        ErrorKind::VerificationError,
                        String::from_str("Desired absent route rule ").concat(
                            rule.to_text().as_str(),
                        ).concat(" still found after apply"),
                    ),
                );
            }
            i = i + 1;
        }
        Ok(())
    }

    /// Drops the rules that come in from the interfaces.
    pub fn remove_rules_to_ignored_ifaces(&mut self, ignored_ifaces: &Vec<String>)
        ensures
            final(self)@ == old(self)@.without_ifaces(ignored_ifaces.deep_view()),
    {
        if let Some(rules) = self.desired.config.dup() {
            self.desired.config = Some(retain_rules(&rules, ignored_ifaces));
        }
        if let Some(rules) = self.for_save.config.dup() {
            self.for_save.config = Some(retain_rules(&rules, ignored_ifaces));
        }
        self.changed_rules = retain_rules(&self.changed_rules, ignored_ifaces);
    }
}

/// What is kept of the saved rules: each that is not absent and that no absent
/// desired one matches, besides what is in the set already.
#[verifier::spinoff_prover]
proof fn lemma_kept_saved(
    saved: Seq<RouteRuleEntryView>,
    desired: Seq<RouteRuleEntryView>,
    i: int,
    acc: Seq<RouteRuleEntryView>,
    rule: RouteRuleEntryView,
)
    requires
        0 <= i <= saved.len(),
        order::distinct::<RouteRuleEntry>(acc),
        kept_saved_from(saved, desired, i, acc) is Ok,
    ensures
        ({
            let all = kept_saved_from(saved, desired, i, acc)->Ok_0;
            &&& order::distinct::<RouteRuleEntry>(all)
            &&& order::has_key::<RouteRuleEntry>(acc, rule) ==> order::has_key::<RouteRuleEntry>(
                all,
                rule,
            )
            &&& forall|j: int|
                i <= j < saved.len() && !(#[trigger] saved[j]).absent()
                    ==> saved[j].sanitized() is Ok && (!route_rule::removed_by(
                    desired,
                    saved[j].sanitized()->Ok_0,
                ) ==> order::has_key::<RouteRuleEntry>(all, saved[j].sanitized()->Ok_0))
            &&& all.contains(rule) ==> acc.contains(rule) || !route_rule::removed_by(desired, rule)
        }),
    decreases saved.len() - i,
{
    if i < saved.len() {
        if saved[i].absent() {
            lemma_kept_saved(saved, desired, i + 1, acc, rule);
        } else {
            let kept = saved[i].sanitized()->Ok_0;
            if route_rule::removed_by(desired, kept) {
                lemma_kept_saved(saved, desired, i + 1, acc, rule);
            } else {
                let next = order::with_item::<RouteRuleEntry>(acc, kept);
                order::law_with_item::<RouteRuleEntry>(acc, kept);
                order::law_with_item_keeps::<RouteRuleEntry>(acc, kept, rule);
                lemma_kept_saved(saved, desired, i + 1, next, kept);
                lemma_kept_saved(saved, desired, i + 1, next, rule);
            }
        }
    }
}

/// What is saved of rules is in order and holds every rule once: all desired
/// rules and every saved rule that no absent desired one matches. A saved rule
/// that an absent desired one matches is forgotten.
pub proof fn law_rules_to_save(
    desired: RouteRulesView,
    saved: Option<RouteRulesView>,
    desired_rules: Seq<RouteRuleEntryView>,
    rule: RouteRuleEntryView,
)
    requires
        rules_for_save(desired, saved, desired_rules) is Ok,
    ensures
        ({
            let list = rules_for_save(desired, saved, desired_rules)->Ok_0.rules();
            &&& order::in_order::<RouteRuleEntry>(list)
            &&& order::distinct::<RouteRuleEntry>(list)
            &&& desired_rules.contains(rule) ==> order::has_key::<RouteRuleEntry>(list, rule)
            &&& saved is Some && saved->0.rules().contains(rule) && !rule.absent() ==> {
                &&& rule.sanitized() is Ok
                &&& !route_rule::removed_by(desired.rules(), rule.sanitized()->Ok_0)
                    ==> order::has_key::<RouteRuleEntry>(list, rule.sanitized()->Ok_0)
            }
            &&& list.contains(rule) && !desired_rules.contains(rule) ==> !route_rule::removed_by(
                desired.rules(),
                rule,
            )
        }),
{
    let olds = match saved {
        Some(saved) => saved.rules(),
        None => Seq::empty(),
    };
    let start = order::with_items_from::<RouteRuleEntry>(desired_rules, 0, Seq::empty());
    let kept = if rule.sanitized() is Ok {
        rule.sanitized()->Ok_0
    } else {
        rule
    };
    order::law_with_items::<RouteRuleEntry>(desired_rules, 0, Seq::empty(), rule);
    lemma_kept_saved(olds, desired.rules(), 0, start, rule);
    let all = kept_saved_from(olds, desired.rules(), 0, start)->Ok_0;
    order::law_sorted::<RouteRuleEntry>(all);
    order::law_sorted_items::<RouteRuleEntry>(all, rule);
    order::law_sorted_items::<RouteRuleEntry>(all, kept);
    let list = order::sorted::<RouteRuleEntry>(all);
    assert(rules_for_save(desired, saved, desired_rules)->Ok_0.rules() =~= list);
    if desired_rules.contains(rule) {
        let j = desired_rules.index_of(rule);
        assert(order::has_key::<RouteRuleEntry>(start, desired_rules[j]));
    }
    if saved is Some && olds.contains(rule) && !rule.absent() {
        let j = olds.index_of(rule);
        assert(!olds[j].absent());
    }
}

/// Every current rule that an absent desired one matches is among the changed
/// ones.
#[verifier::spinoff_prover]
proof fn lemma_removed_current(
    current: Seq<RouteRuleEntryView>,
    desired: Seq<RouteRuleEntryView>,
    i: int,
    acc: Seq<RouteRuleEntryView>,
    rule: RouteRuleEntryView,
)
    requires
        0 <= i <= current.len(),
        order::distinct::<RouteRuleEntry>(acc),
        removed_current_from(current, desired, i, acc) is Ok,
    ensures
        ({
            let all = removed_current_from(current, desired, i, acc)->Ok_0;
            &&& order::distinct::<RouteRuleEntry>(all)
            &&& order::has_key::<RouteRuleEntry>(acc, rule) ==> order::has_key::<RouteRuleEntry>(
                all,
                rule,
            )
            &&& forall|j: int|
                i <= j < current.len() && route_rule::removed_by(desired, #[trigger] current[j])
                    ==> marked_absent(current[j]).sanitized() is Ok && order::has_key::<
                    RouteRuleEntry,
                >(all, marked_absent(current[j]).sanitized()->Ok_0)
        }),
    decreases current.len() - i,
{
    if i < current.len() {
        if !route_rule::removed_by(desired, current[i]) {
            lemma_removed_current(current, desired, i + 1, acc, rule);
        } else {
            let gone = marked_absent(current[i]).sanitized()->Ok_0;
            let next = order::with_item::<RouteRuleEntry>(acc, gone);
            order::law_with_item::<RouteRuleEntry>(acc, gone);
            order::law_with_item_keeps::<RouteRuleEntry>(acc, gone, rule);
            lemma_removed_current(current, desired, i + 1, next, gone);
            lemma_removed_current(current, desired, i + 1, next, rule);
        }
    }
}

/// Every rule that matches no current one is among the changed ones.
proof fn lemma_added(
    rules: Seq<RouteRuleEntryView>,
    current: Seq<RouteRuleEntryView>,
    i: int,
    acc: Seq<RouteRuleEntryView>,
    rule: RouteRuleEntryView,
)
    requires
        0 <= i <= rules.len(),
        order::distinct::<RouteRuleEntry>(acc),
    ensures
        ({
            let all = added_from(rules, current, i, acc);
            &&& order::distinct::<RouteRuleEntry>(all)
            &&& order::has_key::<RouteRuleEntry>(acc, rule) ==> order::has_key::<RouteRuleEntry>(
                all,
                rule,
            )
            &&& forall|j: int|
                i <= j < rules.len() && !route_rule::matches_any(#[trigger] rules[j], current)
                    ==> order::has_key::<RouteRuleEntry>(all, rules[j])
        }),
    decreases rules.len() - i,
{
    if i < rules.len() {
        if route_rule::matches_any(rules[i], current) {
            lemma_added(rules, current, i + 1, acc, rule);
        } else {
            let next = order::with_item::<RouteRuleEntry>(acc, rules[i]);
            order::law_with_item::<RouteRuleEntry>(acc, rules[i]);
            order::law_with_item_keeps::<RouteRuleEntry>(acc, rules[i], rule);
            lemma_added(rules, current, i + 1, next, rules[i]);
            lemma_added(rules, current, i + 1, next, rule);
        }
    }
}

/// The rules to change are in order and no rule is changed twice, before they
/// get their automatic priorities. Every desired rule that matches no current
/// one is added, and every current rule that an absent desired one matches is
/// removed.
pub proof fn law_changed_rules(
    current: Seq<RouteRuleEntryView>,
    desired: Seq<RouteRuleEntryView>,
    desired_rules: Seq<RouteRuleEntryView>,
    rule: RouteRuleEntryView,
)
    requires
        rules_to_change(current, desired, desired_rules) is Ok,
    ensures
        exists|changed: Seq<RouteRuleEntryView>|
            {
                &&& rules_to_change(current, desired, desired_rules)->Ok_0
                    == #[trigger] route_rule::with_auto_priority(changed, current)
                &&& order::in_order::<RouteRuleEntry>(changed)
                &&& order::distinct::<RouteRuleEntry>(changed)
                &&& desired_rules.contains(rule) && !route_rule::matches_any(rule, current)
                    ==> order::has_key::<RouteRuleEntry>(changed, rule)
                &&& current.contains(rule) && route_rule::removed_by(desired, rule)
                    ==> marked_absent(rule).sanitized() is Ok && order::has_key::<RouteRuleEntry>(
                    changed,
                    marked_absent(rule).sanitized()->Ok_0,
                )
            },
{
    let gone = if marked_absent(rule).sanitized() is Ok {
        marked_absent(rule).sanitized()->Ok_0
    } else {
        rule
    };
    lemma_removed_current(current, desired, 0, Seq::empty(), rule);
    let removed = removed_current_from(current, desired, 0, Seq::empty())->Ok_0;
    lemma_added(desired_rules, current, 0, removed, rule);
    lemma_added(desired_rules, current, 0, removed, gone);
    let all = added_from(desired_rules, current, 0, removed);
    order::law_sorted::<RouteRuleEntry>(all);
    order::law_sorted_items::<RouteRuleEntry>(all, rule);
    order::law_sorted_items::<RouteRuleEntry>(all, gone);
    if desired_rules.contains(rule) {
        let j = desired_rules.index_of(rule);
        assert(desired_rules[j] == rule);
    }
    if current.contains(rule) && route_rule::removed_by(desired, rule) {
        let j = current.index_of(rule);
        assert(route_rule::removed_by(desired, current[j]));
    }
    let changed = order::sorted::<RouteRuleEntry>(all);
    assert(rules_to_change(current, desired, desired_rules)->Ok_0
        == route_rule::with_auto_priority(changed, current));
}

/// What undoes a change holds what is there already, and every rule that a
/// change matches or adds.
proof fn lemma_matching(
    rule: RouteRuleEntryView,
    rules: Seq<RouteRuleEntryView>,
    i: int,
    acc: Seq<RouteRuleEntryView>,
    other: RouteRuleEntryView,
)
    requires
        0 <= i <= rules.len(),
    ensures
        acc.contains(other) ==> matching_from(rule, rules, i, acc).contains(other),
        forall|j: int|
            i <= j < rules.len() && rule.matches_rule(#[trigger] rules[j]) ==> matching_from(
                rule,
                rules,
                i,
                acc,
            ).contains(rules[j]),
    decreases rules.len() - i,
{
    if i < rules.len() {
        if rule.matches_rule(rules[i]) {
            let next = acc.push(rules[i]);
            if acc.contains(other) {
                let k = acc.index_of(other);
                assert(next[k] == other);
            }
            assert(next[acc.len() as int] == rules[i]);
            lemma_matching(rule, rules, i + 1, next, rules[i]);
            lemma_matching(rule, rules, i + 1, next, other);
        } else {
            lemma_matching(rule, rules, i + 1, acc, other);
        }
    }
}

/// What undoes the changes from `k` on: every added rule is removed, and every
/// current rule that was removed comes back.
proof fn lemma_undo(
    changed: Seq<RouteRuleEntryView>,
    current: Seq<RouteRuleEntryView>,
    i: int,
    acc: Seq<RouteRuleEntryView>,
    k: int,
    rule: RouteRuleEntryView,
)
    requires
        0 <= i <= k < changed.len(),
    ensures
        ({
            let undo = undo_from(changed, current, i, acc);
            &&& !changed[k].absent() ==> undo.contains(marked_absent(changed[k]))
            &&& changed[k].absent() && current.contains(rule) && changed[k].matches_rule(rule)
                ==> undo.contains(rule)
        }),
    decreases k - i,
{
    let next = if changed[i].absent() {
        matching_from(changed[i], current, 0, acc)
    } else {
        acc.push(marked_absent(changed[i]))
    };
    if i < k {
        lemma_undo(changed, current, i + 1, next, k, rule);
    } else if changed[k].absent() {
        if current.contains(rule) && changed[k].matches_rule(rule) {
            let j = current.index_of(rule);
            lemma_matching(changed[k], current, 0, acc, rule);
            assert(next.contains(current[j]));
            lemma_undo_keeps(changed, current, i + 1, next, rule);
        }
    } else {
        assert(next[acc.len() as int] == marked_absent(changed[k]));
        lemma_undo_keeps(changed, current, i + 1, next, marked_absent(changed[k]));
    }
}

/// Undoing further changes loses nothing that undoes the ones before.
proof fn lemma_undo_keeps(
    changed: Seq<RouteRuleEntryView>,
    current: Seq<RouteRuleEntryView>,
    i: int,
    acc: Seq<RouteRuleEntryView>,
    rule: RouteRuleEntryView,
)
    requires
        0 <= i <= changed.len(),
        acc.contains(rule),
    ensures
        undo_from(changed, current, i, acc).contains(rule),
    decreases changed.len() - i,
{
    if i < changed.len() {
        if changed[i].absent() {
            lemma_matching(changed[i], current, 0, acc, rule);
            lemma_undo_keeps(
                changed,
                current,
                i + 1,
                matching_from(changed[i], current, 0, acc),
                rule,
            );
        } else {
            let next = acc.push(marked_absent(changed[i]));
            let k = acc.index_of(rule);
            assert(next[k] == rule);
            lemma_undo_keeps(changed, current, i + 1, next, rule);
        }
    }
}

/// The revert of a change of rules removes every rule that was added, and
/// brings back every current rule that was removed, in order and each once.
pub proof fn law_reverted(merged: MergedRouteRulesView, i: int, rule: RouteRuleEntryView)
    requires
        0 <= i < merged.changed_rules.len(),
    ensures
        ({
            let change = merged.changed_rules[i];
            let undo = merged.reverted().rules();
            &&& order::in_order::<RouteRuleEntry>(undo)
            &&& order::distinct::<RouteRuleEntry>(undo)
            &&& !change.absent() ==> order::has_key::<RouteRuleEntry>(undo, marked_absent(change))
            &&& change.absent() && merged.current.rules().contains(rule) && change.matches_rule(
                rule,
            ) ==> order::has_key::<RouteRuleEntry>(undo, rule)
        }),
{
    let change = merged.changed_rules[i];
    let current = merged.current.rules();
    let undo = undo_from(merged.changed_rules, current, 0, Seq::empty());
    let sorted = order::sorted::<RouteRuleEntry>(undo);
    let all = order::dedup::<RouteRuleEntry>(sorted);
    order::law_sorted::<RouteRuleEntry>(undo);
    order::law_dedup_distinct::<RouteRuleEntry>(sorted);
    assert(merged.reverted().rules() =~= all);
    lemma_undo(merged.changed_rules, current, 0, Seq::empty(), i, rule);
    let back = if change.absent() {
        rule
    } else {
        marked_absent(change)
    };
    if undo.contains(back) {
        order::law_sorted_items::<RouteRuleEntry>(undo, back);
        let j = sorted.index_of(back);
        <RouteRuleEntry as order::Keyed>::law_total(back, back);
        assert(<RouteRuleEntry as order::Keyed>::same_key(sorted[j], back));
        order::law_dedup::<RouteRuleEntry>(sorted, 0, Seq::empty(), back);
        assert(order::has_key::<RouteRuleEntry>(all, back));
    }
}

/// Rules that are as they should be are not changed, and there is nothing to
/// verify or to undo: where no rules are desired, none are changed.
pub proof fn law_no_rules_desired(
    current: RouteRulesView,
    saved: Option<RouteRulesView>,
    shown: RouteRulesView,
)
    ensures
        merged_rules(RouteRulesView::undefined(), current, saved) is Ok ==> {
            let merged = merged_rules(RouteRulesView::undefined(), current, saved)->Ok_0;
            &&& merged.changed_rules.len() == 0
            &&& merged.reverted().rules().len() == 0
            &&& merged.verified(shown) is Ok
        },
{
    let none = Seq::<RouteRuleEntryView>::empty();
    assert(RouteRulesView::undefined().rules() =~= none);
    if merged_rules(RouteRulesView::undefined(), current, saved) is Ok {
        let merged = merged_rules(RouteRulesView::undefined(), current, saved)->Ok_0;
        lemma_none_removed(current.rules(), 0);
        assert(order::sorted::<RouteRuleEntry>(none) =~= none);
        assert(merged.changed_rules =~= none);
        assert(undo_from(none, current.rules(), 0, none) =~= none);
        assert(order::dedup::<RouteRuleEntry>(none) =~= none);
    }
}

/// Where no rules are desired, no current one is removed.
proof fn lemma_none_removed(current: Seq<RouteRuleEntryView>, i: int)
    requires
        0 <= i,
    ensures
        removed_current_from(current, Seq::empty(), i, Seq::empty()) == Ok::<
            Seq<RouteRuleEntryView>,
            NipartErrorView,
        >(Seq::empty()),
    decreases current.len() - i,
{
    if i < current.len() {
        lemma_none_removed(current, i + 1);
    }
}

/// Whether the host has the desired rule.
pub open spec fn is_found(rule: RouteRuleEntryView, current: Seq<RouteRuleEntryView>) -> bool {
    rule.sanitized() is Ok && route_rule::matches_any(rule.sanitized()->Ok_0, current)
}

/// Desired rules are verified one by one.
#[verifier::spinoff_prover]
proof fn lemma_desired_found(
    desired: Seq<RouteRuleEntryView>,
    current: Seq<RouteRuleEntryView>,
    i: int,
)
    requires
        0 <= i <= desired.len(),
    ensures
        desired_found_from(desired, current, i) is Ok <==> forall|j: int|
            i <= j < desired.len() && !(#[trigger] desired[j]).absent() ==> is_found(
                desired[j],
                current,
            ),
    decreases desired.len() - i,
{
    if i < desired.len() {
        lemma_desired_found(desired, current, i + 1);
        if !desired[i].absent() && !is_found(desired[i], current) {
            assert(!(forall|j: int|
                i <= j < desired.len() && !(#[trigger] desired[j]).absent() ==> is_found(
                    desired[j],
                    current,
                )));
        }
    }
}

/// Removed rules are verified one by one.
proof fn lemma_absent_gone(
    changed: Seq<RouteRuleEntryView>,
    current: Seq<RouteRuleEntryView>,
    i: int,
)
    requires
        0 <= i <= changed.len(),
    ensures
        absent_gone_from(changed, current, i) is Ok <==> forall|j: int|
            i <= j < changed.len() && (#[trigger] changed[j]).absent()
                ==> !route_rule::matches_any(changed[j], current),
    decreases changed.len() - i,
{
    if i < changed.len() {
        lemma_absent_gone(changed, current, i + 1);
    }
}

/// The host shows what was applied exactly when it has every desired rule that
/// is not absent and none that was removed.
pub proof fn law_verified(merged: MergedRouteRulesView, current: RouteRulesView)
    ensures
        merged.verified(current) is Ok <==> {
            &&& forall|j: int|
                0 <= j < merged.desired.rules().len() && !(
                #[trigger] merged.desired.rules()[j]).absent() ==> is_found(
                    merged.desired.rules()[j],
                    current.rules(),
                )
            &&& forall|j: int|
                0 <= j < merged.changed_rules.len() && (
                #[trigger] merged.changed_rules[j]).absent() ==> !route_rule::matches_any(
                    merged.changed_rules[j],
                    current.rules(),
                )
        },
{
    lemma_desired_found(merged.desired.rules(), current.rules(), 0);
    lemma_absent_gone(merged.changed_rules, current.rules(), 0);
}

/// Only current rules that an absent desired one matches are removed.
proof fn lemma_removed_only(
    current: Seq<RouteRuleEntryView>,
    desired: Seq<RouteRuleEntryView>,
    i: int,
    acc: Seq<RouteRuleEntryView>,
    rule: RouteRuleEntryView,
)
    requires
        0 <= i <= current.len(),
        removed_current_from(current, desired, i, acc) is Ok,
        removed_current_from(current, desired, i, acc)->Ok_0.contains(rule),
    ensures
        acc.contains(rule) || exists|j: int|
            i <= j < current.len() && route_rule::removed_by(desired, #[trigger] current[j])
                && marked_absent(current[j]).sanitized() == Ok::<
                RouteRuleEntryView,
                NipartErrorView,
            >(rule),
    decreases current.len() - i,
{
    if i < current.len() {
        if !route_rule::removed_by(desired, current[i]) {
            lemma_removed_only(current, desired, i + 1, acc, rule);
        } else {
            let gone = marked_absent(current[i]).sanitized()->Ok_0;
            lemma_removed_only(
                current,
                desired,
                i + 1,
                order::with_item::<RouteRuleEntry>(acc, gone),
                rule,
            );
            order::law_with_item_keeps::<RouteRuleEntry>(acc, gone, rule);
        }
    }
}

/// Only rules that match no current one are added.
proof fn lemma_added_only(
    rules: Seq<RouteRuleEntryView>,
    current: Seq<RouteRuleEntryView>,
    i: int,
    acc: Seq<RouteRuleEntryView>,
    rule: RouteRuleEntryView,
)
    requires
        0 <= i <= rules.len(),
        added_from(rules, current, i, acc).contains(rule),
    ensures
        acc.contains(rule) || exists|j: int|
            i <= j < rules.len() && (#[trigger] rules[j]) == rule && !route_rule::matches_any(
                rule,
                current,
            ),
    decreases rules.len() - i,
{
    if i < rules.len() {
        if route_rule::matches_any(rules[i], current) {
            lemma_added_only(rules, current, i + 1, acc, rule);
        } else {
            lemma_added_only(
                rules,
                current,
                i + 1,
                order::with_item::<RouteRuleEntry>(acc, rules[i]),
                rule,
            );
            order::law_with_item_keeps::<RouteRuleEntry>(acc, rules[i], rule);
        }
    }
}

/// Whether one of the rules from `i` on is not absent and is `rule` when it is
/// sanitized.
spec fn is_sanitized_of(
    rules: Seq<RouteRuleEntryView>,
    i: int,
    rule: RouteRuleEntryView,
) -> bool {
    exists|j: int|
        i <= j < rules.len() && !(#[trigger] rules[j]).absent() && rules[j].sanitized() == Ok::<
            RouteRuleEntryView,
            NipartErrorView,
        >(rule)
}

/// The sanitized present rules are rules that are not absent, sanitized.
#[verifier::spinoff_prover]
proof fn lemma_sanitized_only(
    rules: Seq<RouteRuleEntryView>,
    i: int,
    acc: Seq<RouteRuleEntryView>,
    rule: RouteRuleEntryView,
)
    requires
        0 <= i <= rules.len(),
        sanitized_present_from(rules, i, acc) is Ok,
        sanitized_present_from(rules, i, acc)->Ok_0.contains(rule),
    ensures
        acc.contains(rule) || is_sanitized_of(rules, i, rule),
    decreases rules.len() - i,
{
    if i < rules.len() {
        if rules[i].absent() {
            lemma_sanitized_only(rules, i + 1, acc, rule);
        } else {
            let res = rules[i].sanitized();
            let own = res->Ok_0;
            let next = acc.push(own);
            lemma_sanitized_only(rules, i + 1, next, rule);
            if next.contains(rule) && own != rule {
                assert(acc[next.index_of(rule)] == rule);
            } else if own == rule {
                assert(res == Ok::<RouteRuleEntryView, NipartErrorView>(rule));
                assert(is_sanitized_of(rules, i, rule));
            }
        }
    }
}

/// Automatic priorities change nothing but priorities.
proof fn lemma_only_priority(
    rules: Seq<RouteRuleEntryView>,
    existing: Seq<RouteRuleEntryView>,
    i: int,
    max: int,
    k: int,
)
    requires
        0 <= i <= rules.len(),
        0 <= k < rules.len(),
    ensures
        ({
            let res = route_rule::auto_priority_from(rules, existing, i, max);
            &&& res.len() == rules.len()
            &&& res[k] == RouteRuleEntryView { priority: res[k].priority, ..rules[k] }
            &&& !route_rule::needs_priority(rules[k]) ==> res[k] == rules[k]
        }),
    decreases rules.len() - i,
{
    if i < rules.len() {
        if !route_rule::needs_priority(rules[i]) {
            lemma_only_priority(rules, existing, i + 1, max, k);
        } else {
            match route_rule::matched_priority_from(rules[i], existing, 0) {
                Some(priority) => {
                    let next = rules.update(
                        i,
                        RouteRuleEntryView { priority: Some(priority), ..rules[i] },
                    );
                    lemma_only_priority(next, existing, i + 1, max, k);
                },
                None => {
                    let next = rules.update(
                        i,
                        RouteRuleEntryView { priority: Some((max + 1) as i64), ..rules[i] },
                    );
                    lemma_only_priority(next, existing, i + 1, max + 1, k);
                },
            }
        }
    }
}

/// Whether the change removes a current rule that an absent desired one
/// matches.
pub open spec fn is_removal(
    change: RouteRuleEntryView,
    desired: RouteRulesView,
    current: RouteRulesView,
) -> bool {
    exists|j: int|
        0 <= j < current.rules().len() && route_rule::removed_by(
            desired.rules(),
            #[trigger] current.rules()[j],
        ) && RouteRuleEntryView {
            state: Some(RouteRuleState::Absent),
            ..current.rules()[j]
        }.sanitized() == Ok::<RouteRuleEntryView, NipartErrorView>(change)
}

/// Whether the change adds a desired rule that is not absent and that no
/// current one is matched by; it may have been given a priority.
pub open spec fn is_addition(
    change: RouteRuleEntryView,
    desired: RouteRulesView,
    current: RouteRulesView,
) -> bool {
    exists|j: int|
        0 <= j < desired.rules().len() && !(#[trigger] desired.rules()[j]).absent()
            && desired.rules()[j].sanitized() is Ok && {
            let rule = desired.rules()[j].sanitized()->Ok_0;
            &&& change == RouteRuleEntryView { priority: change.priority, ..rule }
            &&& forall|k: int|
                0 <= k < current.rules().len() ==> !rule.matches_rule(
                    #[trigger] current.rules()[k],
                )
        }
}

/// Sanitizing keeps the state.
#[verifier::spinoff_prover]
proof fn lemma_sanitized_state(rule: RouteRuleEntryView)
    ensures
        rule.sanitized() is Ok ==> rule.sanitized()->Ok_0.state == rule.state,
{
}

/// What is removed is a current rule that an absent desired one matches.
#[verifier::spinoff_prover]
proof fn lemma_removes(
    desired: RouteRulesView,
    current: RouteRulesView,
    rule: RouteRuleEntryView,
)
    requires
        removed_current_from(current.rules(), desired.rules(), 0, Seq::empty()) is Ok,
        removed_current_from(current.rules(), desired.rules(), 0, Seq::empty())->Ok_0.contains(
            rule,
        ),
    ensures
        is_removal(rule, desired, current),
        rule.absent(),
{
    let olds = current.rules();
    let wanted = desired.rules();
    lemma_removed_only(olds, wanted, 0, Seq::empty(), rule);
    let j = choose|j: int|
        0 <= j < olds.len() && route_rule::removed_by(wanted, #[trigger] olds[j])
            && marked_absent(olds[j]).sanitized() == Ok::<RouteRuleEntryView, NipartErrorView>(
            rule,
        );
    lemma_sanitized_state(marked_absent(olds[j]));
}

/// What is added is a desired rule that matches no current one.
#[verifier::spinoff_prover]
proof fn lemma_adds(
    desired: RouteRulesView,
    current: RouteRulesView,
    rule: RouteRuleEntryView,
    change: RouteRuleEntryView,
)
    requires
        sanitized_present_from(desired.rules(), 0, Seq::empty()) is Ok,
        sanitized_present_from(desired.rules(), 0, Seq::empty())->Ok_0.contains(rule),
        !route_rule::matches_any(rule, current.rules()),
        change == (RouteRuleEntryView { priority: change.priority, ..rule }),
    ensures
        is_addition(change, desired, current),
        !rule.absent(),
{
    let wanted = desired.rules();
    lemma_sanitized_only(wanted, 0, Seq::empty(), rule);
    let j = choose|j: int|
        0 <= j < wanted.len() && !(#[trigger] wanted[j]).absent() && wanted[j].sanitized() == Ok::<
            RouteRuleEntryView,
            NipartErrorView,
        >(rule);
    lemma_sanitized_state(wanted[j]);
    let res = wanted[j].sanitized();
    assert(res is Ok && res->Ok_0 == rule);
}

/// Nothing but what has to change does: a change of rules removes a current rule
/// that an absent desired one matches, or adds a desired rule that the host does
/// not have.
#[verifier::spinoff_prover]
pub proof fn law_rule_changes_only(
    desired: RouteRulesView,
    current: RouteRulesView,
    saved: Option<RouteRulesView>,
    i: int,
)
    requires
        merged_rules(desired, current, saved) is Ok,
        0 <= i < merged_rules(desired, current, saved)->Ok_0.changed_rules.len(),
    ensures
        ({
            let change = merged_rules(desired, current, saved)->Ok_0.changed_rules[i];
            &&& change.absent() ==> is_removal(change, desired, current)
            &&& !change.absent() ==> is_addition(change, desired, current)
        }),
{
    let none = Seq::<RouteRuleEntryView>::empty();
    let olds = current.rules();
    let wanted = desired.rules();
    let news = sanitized_present_from(wanted, 0, none)->Ok_0;
    let removed = removed_current_from(olds, wanted, 0, none)->Ok_0;
    let all = added_from(news, olds, 0, removed);
    let sorted = order::sorted::<RouteRuleEntry>(all);
    let changed = merged_rules(desired, current, saved)->Ok_0.changed_rules;
    lemma_only_priority(sorted, olds, 0, route_rule::auto_priority_base(olds), 0);
    lemma_only_priority(sorted, olds, 0, route_rule::auto_priority_base(olds), i);
    let rule = sorted[i];
    let change = changed[i];
    assert(change == RouteRuleEntryView { priority: change.priority, ..rule });
    order::law_sorted_items::<RouteRuleEntry>(all, rule);
    assert(all.contains(rule));
    lemma_added_only(news, olds, 0, removed, rule);
    if removed.contains(rule) {
        lemma_removes(desired, current, rule);
    } else {
        lemma_adds(desired, current, rule, change);
    }
}

/// What matches is among the rules.
proof fn lemma_matching_only(
    rule: RouteRuleEntryView,
    rules: Seq<RouteRuleEntryView>,
    i: int,
    acc: Seq<RouteRuleEntryView>,
    other: RouteRuleEntryView,
)
    requires
        0 <= i <= rules.len(),
        matching_from(rule, rules, i, acc).contains(other),
    ensures
        acc.contains(other) || (rules.contains(other) && rule.matches_rule(other)),
    decreases rules.len() - i,
{
    if i < rules.len() {
        if rule.matches_rule(rules[i]) {
            let next = acc.push(rules[i]);
            lemma_matching_only(rule, rules, i + 1, next, other);
            if next.contains(other) && rules[i] != other {
                assert(acc[next.index_of(other)] == other);
            }
        } else {
            lemma_matching_only(rule, rules, i + 1, acc, other);
        }
    }
}

/// What undoes changes undoes nothing else.
proof fn lemma_undo_only(
    changed: Seq<RouteRuleEntryView>,
    current: Seq<RouteRuleEntryView>,
    i: int,
    acc: Seq<RouteRuleEntryView>,
    rule: RouteRuleEntryView,
)
    requires
        0 <= i <= changed.len(),
        undo_from(changed, current, i, acc).contains(rule),
    ensures
        acc.contains(rule) || exists|j: int|
            i <= j < changed.len() && if (#[trigger] changed[j]).absent() {
                current.contains(rule) && changed[j].matches_rule(rule)
            } else {
                rule == marked_absent(changed[j])
            },
    decreases changed.len() - i,
{
    if i < changed.len() {
        if changed[i].absent() {
            let next = matching_from(changed[i], current, 0, acc);
            lemma_undo_only(changed, current, i + 1, next, rule);
            if next.contains(rule) {
                lemma_matching_only(changed[i], current, 0, acc, rule);
            }
        } else {
            let next = acc.push(marked_absent(changed[i]));
            lemma_undo_only(changed, current, i + 1, next, rule);
            if next.contains(rule) && rule != marked_absent(changed[i]) {
                assert(acc[next.index_of(rule)] == rule);
            }
        }
    }
}

/// The revert of a change of rules does nothing else: every rule of it is an
/// added one, now absent, or a current one that was removed.
pub proof fn law_reverted_only(merged: MergedRouteRulesView, rule: RouteRuleEntryView)
    requires
        merged.reverted().rules().contains(rule),
    ensures
        exists|j: int|
            0 <= j < merged.changed_rules.len() && if (
            #[trigger] merged.changed_rules[j]).absent() {
                merged.current.rules().contains(rule) && merged.changed_rules[j].matches_rule(rule)
            } else {
                rule == (RouteRuleEntryView {
                    state: Some(RouteRuleState::Absent),
                    ..merged.changed_rules[j]
                })
            },
{
    let none = Seq::<RouteRuleEntryView>::empty();
    let undo = undo_from(merged.changed_rules, merged.current.rules(), 0, none);
    let sorted = order::sorted::<RouteRuleEntry>(undo);
    order::law_dedup_items::<RouteRuleEntry>(sorted, 0, none, rule);
    order::law_sorted_items::<RouteRuleEntry>(undo, rule);
    lemma_undo_only(merged.changed_rules, merged.current.rules(), 0, none, rule);
}

} // verus!
