//! One interface: desired, current and saved, merged.

use vstd::prelude::*;
use vstd::string::*;

use crate::error;
use crate::error::{ErrorKind, NipartError, NipartErrorView};
use crate::iface;
use crate::iface::{
    AltNameEntry, AltNameEntryView, BaseInterface, BaseInterfaceView, Interface, InterfaceState,
    InterfaceType, InterfaceView, to_upper,
};
use crate::ip::{InterfaceIpv4View, InterfaceIpv6View};
use crate::order;
use crate::order::sort;
use crate::text;
use crate::value;
use crate::value::{Value, empty_list, is_change};

verus! {

/// What an apply does with one interface.
#[derive(Clone, Debug, PartialEq, Eq)]
pub struct MergedInterface {
    pub desired: Option<Interface>,
    pub current: Option<Interface>,
    /// The interface after the apply.
    pub merged: Interface,
    /// What is applied; undefined when nothing changes.
    pub for_apply: Option<Interface>,
    /// What the host has to show after the apply.
    pub for_verify: Option<Interface>,
    /// What is persisted.
    pub for_save: Option<Interface>,
    /// What undoes the apply.
    pub for_revert: Option<Interface>,
    /// The place in the order of bringing up; ports come after their controller.
    pub up_priority: Option<u32>,
    /// Whether the interface is deleted and created again.
    pub will_delete: bool,
    /// Whether the condition for bringing up the interface is met.
    pub ready: bool,
}

/// What a [MergedInterface] stands for.
#[verifier::ext_equal]
pub struct MergedInterfaceView {
    pub desired: Option<InterfaceView>,
    pub current: Option<InterfaceView>,
    pub merged: InterfaceView,
    pub for_apply: Option<InterfaceView>,
    pub for_verify: Option<InterfaceView>,
    pub for_save: Option<InterfaceView>,
    pub for_revert: Option<InterfaceView>,
    pub up_priority: Option<u32>,
    pub will_delete: bool,
    pub ready: bool,
}

impl View for MergedInterface {
    type V = MergedInterfaceView;

    open spec fn view(&self) -> MergedInterfaceView {
        MergedInterfaceView {
            desired: self.desired.deep_view(),
            current: self.current.deep_view(),
            merged: self.merged.deep_view(),
            for_apply: self.for_apply.deep_view(),
            for_verify: self.for_verify.deep_view(),
            for_save: self.for_save.deep_view(),
            for_revert: self.for_revert.deep_view(),
            up_priority: self.up_priority.deep_view(),
            will_delete: self.will_delete.deep_view(),
            ready: self.ready.deep_view(),
        }
    }
}

impl DeepView for MergedInterface {
    type V = MergedInterfaceView;

    open spec fn deep_view(&self) -> MergedInterfaceView {
        self@
    }
}

impl Value for MergedInterface {
    fn dup(&self) -> (res: Self) {
        MergedInterface {
            desired: self.desired.dup(),
            current: self.current.dup(),
            merged: self.merged.dup(),
            for_apply: self.for_apply.dup(),
            for_verify: self.for_verify.dup(),
            for_save: self.for_save.dup(),
            for_revert: self.for_revert.dup(),
            up_priority: self.up_priority.dup(),
            will_delete: self.will_delete.dup(),
            ready: self.ready.dup(),
        }
    }

    fn same(&self, other: &Self) -> (res: bool) {
        self.desired.same(&other.desired) && self.current.same(&other.current) && self.merged.same(&other.merged) && self.for_apply.same(&other.for_apply) && self.for_verify.same(&other.for_verify) && self.for_save.same(&other.for_save) && self.for_revert.same(&other.for_revert) && self.up_priority.same(&other.up_priority) && self.will_delete.same(&other.will_delete) && self.ready.same(&other.ready)
    }
}

/// The saved configuration of a desired interface before its IP configuration
/// is finished: the desired properties over the saved ones.
pub open spec fn save_draft(des: InterfaceView, saved: Option<InterfaceView>) -> InterfaceView {
    match saved {
        Some(saved) => des.over(saved, saved),
        None => des,
    }
}

/// What of a desired interface is to be applied before its IP configuration is
/// finished: all of it when it is new, the changes when it is not, or the whole
/// configuration by force.
pub open spec fn apply_draft(
    des: InterfaceView,
    current: Option<InterfaceView>,
    saved: Option<InterfaceView>,
    force: bool,
) -> InterfaceView {
    if force {
        save_draft(des, saved)
    } else {
        match current {
            Some(cur) => des.change_from(cur),
            None => des,
        }
    }
}

/// The common part of an interface, if there is one.
pub open spec fn base_of(iface: Option<InterfaceView>) -> Option<BaseInterfaceView> {
    match iface {
        Some(iface) => Some(iface.base),
        None => None,
    }
}

/// Whether anything of a desired interface is to be applied.
pub open spec fn needs_apply(
    des: InterfaceView,
    current: Option<InterfaceView>,
    force: bool,
) -> bool {
    !(des.base.state is Saved) && (force || current is None || des.differs(current->0))
}

/// The state to apply: hardware cannot be deleted, so it is brought down.
pub open spec fn state_to_apply(
    state: InterfaceState,
    current: Option<InterfaceView>,
) -> InterfaceState {
    if state is Absent && current is Some && !current->0.is_software() {
        InterfaceState::Down
    } else {
        state
    }
}

/// The name under which an interface is saved: its profile name where it is
/// matched by its MAC address.
pub open spec fn name_to_save(base: BaseInterfaceView) -> Seq<char> {
    if base.by_mac() && base.profile_name is Some {
        base.profile_name->0
    } else {
        base.name
    }
}

/// The name in the kernel that is saved: for an interface that is matched by
/// its MAC address, only one that it is renamed to or was saved with under
/// that address.
pub open spec fn kernel_name_to_save(
    base: BaseInterfaceView,
    current: Option<InterfaceView>,
    saved: Option<InterfaceView>,
) -> Seq<char> {
    if !base.by_mac() {
        base.kernel_iface_name
    } else if current is Some && base.kernel_iface_name != current->0.base.kernel_iface_name {
        base.kernel_iface_name
    } else {
        match saved {
            Some(saved) if saved.base.by_mac() => saved.base.kernel_iface_name,
            _ => Seq::empty(),
        }
    }
}

/// The state that is saved: a configuration that is only saved keeps the one
/// that it was saved with.
pub open spec fn state_to_save(
    state: InterfaceState,
    saved: Option<InterfaceView>,
) -> InterfaceState {
    if state is Saved {
        match saved {
            Some(saved) => saved.base.state,
            None => InterfaceState::Up,
        }
    } else {
        state
    }
}

/// A merged interface with nothing to do.
pub open spec fn untouched(
    current: Option<InterfaceView>,
    saved: Option<InterfaceView>,
) -> MergedInterfaceView {
    MergedInterfaceView {
        desired: None,
        current,
        merged: match current {
            Some(cur) => cur,
            None => InterfaceView::unknown(),
        },
        for_apply: None,
        for_verify: None,
        for_save: saved,
        for_revert: None,
        up_priority: None,
        will_delete: false,
        ready: true,
    }
}

/// What undoes the apply of a desired interface.
pub open spec fn undo_of(des: InterfaceView, current: Option<InterfaceView>) -> InterfaceView {
    match current {
        Some(cur) => cur,
        None => InterfaceView {
            base: BaseInterfaceView {
                state: InterfaceState::Absent,
                ..des.identity().base
            },
            ..des.identity()
        },
    }
}

/// What [MergedInterface::new] returns.
pub open spec fn merged_iface(
    desired: Option<InterfaceView>,
    current: Option<InterfaceView>,
    saved: Option<InterfaceView>,
    force: bool,
) -> Result<MergedInterfaceView, NipartErrorView> {
    match desired {
        None => Ok(untouched(current, saved)),
        Some(des) => {
            let draft = save_draft(des, saved);
            let apply = apply_draft(des, current, saved, force);
            let merged = match current {
                Some(cur) => des.over(cur, cur),
                None => des,
            };
            match iface::ips_to_save(des.base, draft.base, base_of(saved), base_of(current)) {
                Err(e) => Err(e),
                Ok(ips) => Ok(
                    MergedInterfaceView {
                        desired,
                        current,
                        merged: InterfaceView { base: merged.base.normalized(), ..merged },
                        for_apply: if needs_apply(des, current, force) {
                            Some(
                                InterfaceView {
                                    base: BaseInterfaceView {
                                        state: state_to_apply(apply.base.state, current),
                                        ..iface::applied_base(
                                            apply.base,
                                            apply.base.ipv4 is Some,
                                            apply.base.ipv6 is Some,
                                            ips,
                                        )
                                    },
                                    ..apply
                                },
                            )
                        } else {
                            None
                        },
                        for_verify: if des.base.state is Saved {
                            None
                        } else {
                            Some(
                                InterfaceView {
                                    base: iface::applied_base(
                                        des.base,
                                        apply.base.ipv4 is Some,
                                        apply.base.ipv6 is Some,
                                        ips,
                                    ),
                                    ..des
                                },
                            )
                        },
                        for_save: Some(
                            InterfaceView {
                                base: BaseInterfaceView {
                                    name: name_to_save(draft.base),
                                    kernel_iface_name: kernel_name_to_save(
                                        draft.base,
                                        current,
                                        saved,
                                    ),
                                    state: state_to_save(draft.base.state, saved),
                                    ..iface::saved_base(draft.base, ips)
                                },
                                ..draft
                            },
                        ),
                        for_revert: if needs_apply(des, current, force) {
                            Some(undo_of(des, current))
                        } else {
                            None
                        },
                        up_priority: None,
                        will_delete: false,
                        ready: true,
                    },
                ),
            }
        },
    }
}

/// An optional interface with every secret replaced.
pub open spec fn hidden(iface: Option<InterfaceView>) -> Option<InterfaceView> {
    match iface {
        Some(iface) => Some(iface.secrets_hidden()),
        None => None,
    }
}

impl MergedInterfaceView {
    /// Whether the place in the order of bringing up is settled: it is set, or
    /// the interface waits for no other one.
    pub open spec fn priority_settled(self) -> bool {
        ||| self.up_priority is Some
        ||| self.for_apply is None
        ||| !self.for_apply->0.base.has_controller() && self.for_apply->0.parent is None
    }

    /// Whether the kernel cannot change the interface in place: its type, its
    /// peer or the interface that it runs on changes.
    pub open spec fn recreated(self) -> bool {
        &&& self.current is Some
        &&& self.for_apply is Some
        &&& {
            ||| self.for_apply->0.base.iface_type != self.current->0.base.iface_type
            ||| value::changes(self.for_apply->0.veth, self.current->0.veth)
            ||| value::changes(self.for_apply->0.parent, self.current->0.parent)
        }
    }

    /// The interface, marked as one to apply.
    pub open spec fn marked_changed(self) -> MergedInterfaceView {
        if self.for_apply is Some {
            self
        } else {
            MergedInterfaceView {
                for_apply: Some(self.merged.identity()),
                for_revert: self.current,
                ..self
            }
        }
    }

    /// The interface with every secret replaced.
    pub open spec fn secrets_hidden(self) -> MergedInterfaceView {
        MergedInterfaceView {
            desired: hidden(self.desired),
            current: hidden(self.current),
            merged: self.merged.secrets_hidden(),
            for_apply: hidden(self.for_apply),
            for_verify: hidden(self.for_verify),
            for_save: hidden(self.for_save),
            for_revert: hidden(self.for_revert),
            ..self
        }
    }
}

/// Replaces every secret of an optional interface.
fn hide_option(iface: &mut Option<Interface>)
    ensures
        final(iface).deep_view() == hidden(old(iface).deep_view()),
{
    if let Some(shown) = iface.dup() {
        let mut shown = shown;
        shown.hide_secrets();
        *iface = Some(shown);
    }
}

impl MergedInterface {
    /// A merged interface with nothing to do.
    fn new_untouched(current: Option<Interface>, saved: Option<Interface>) -> (res: Self)
        ensures
            res@ == untouched(current.deep_view(), saved.deep_view()),
    {
        let merged = match &current {
            Some(cur) => cur.dup(),
            None => Interface::new_unknown(),
        };
        MergedInterface {
            desired: None,
            current,
            merged,
            for_apply: None,
            for_verify: None,
            for_save: saved,
            for_revert: None,
            up_priority: None,
            will_delete: false,
            ready: true,
        }
    }

    /// Merges what is desired of an interface with what it is and with what is
    /// saved of it. By force, the whole configuration is applied even where the
    /// host shows it already.
    pub fn new(
        desired: Option<Interface>,
        current: Option<Interface>,
        saved: Option<Interface>,
        force: bool,
    ) -> (res: Result<Self, NipartError>)
        ensures
            error::same_result(
                res,
                merged_iface(desired.deep_view(), current.deep_view(), saved.deep_view(), force),
            ),
    {
        let des = match desired {
            Some(des) => des,
            None => {
                return Ok(Self::new_untouched(current, saved));
            },
        };
        let draft = gen_save_draft(&des, &saved);
        let mut for_apply = gen_apply_draft(&des, &current, &saved, force);
        let mut merged = match &current {
            Some(cur) => des.merge_over(cur, cur),
            None => des.dup(),
        };
        let mut for_verify = des.dup();
        let mut for_save = draft.dup();
        let saved_base = match &saved {
            Some(saved) => Some(&saved.base),
            None => None,
        };
        let current_base = match &current {
            Some(cur) => Some(&cur.base),
            None => None,
        };
        assert(iface::option_base(saved_base) == base_of(saved.deep_view()));
        assert(iface::option_base(current_base) == base_of(current.deep_view()));
        if let Err(e) = des.base.sanitize(
            current_base,
            saved_base,
            &mut for_save.base,
            &mut for_apply.base,
            &mut for_verify.base,
            &mut merged.base,
        ) {
            return Err(e);
        }
        finish_save(&mut for_save, &draft.base, &current, &saved);
        let changed = is_apply_needed(&des, &current, force);
        if for_apply.is_absent() {
            if let Some(cur) = &current {
                if !cur.is_virtual() {
                    for_apply.base.state = InterfaceState::Down;
                }
            }
        }
        let only_saved = des.base.state.is_saved();
        let for_revert = if changed {
            Some(gen_undo(&des, &current))
        } else {
            None
        };
        Ok(
            MergedInterface {
                desired: Some(des),
                current,
                merged,
                for_apply: if changed {
                    Some(for_apply)
                } else {
                    None
                },
                for_verify: if only_saved {
                    None
                } else {
                    Some(for_verify)
                },
                for_save: Some(for_save),
                for_revert,
                up_priority: None,
                will_delete: false,
                ready: true,
            },
        )
    }

    pub fn name(&self) -> (res: &str)
        ensures
            res@ == self@.merged.base.name,
    {
        self.merged.name()
    }

    pub fn kernel_iface_name(&self) -> (res: &str)
        ensures
            res@ == self@.merged.base.kernel_iface_name,
    {
        self.merged.kernel_iface_name()
    }

    pub fn iface_type(&self) -> (res: InterfaceType)
        ensures
            res == self@.merged.base.iface_type,
    {
        self.merged.iface_type()
    }

    pub fn is_userspace(&self) -> (res: bool)
        ensures
            res == self@.merged.base.iface_type.userspace(),
    {
        self.merged.is_userspace()
    }

    pub fn is_absent(&self) -> (res: bool)
        ensures
            res == (self@.merged.base.state is Absent),
    {
        self.merged.is_absent()
    }

    /// Whether the interface is part of the desired state.
    pub fn is_desired(&self) -> (res: bool)
        ensures
            res == (self@.desired is Some),
    {
        self.desired.is_some()
    }

    /// Whether the condition for bringing up the interface is met.
    pub fn can_bring_up(&self) -> (res: bool)
        ensures
            res == self@.ready,
    {
        self.ready
    }

    /// Whether the place in the order of bringing up is settled.
    pub fn is_up_priority_valid(&self) -> (res: bool)
        ensures
            res == self@.priority_settled(),
    {
        if self.up_priority.is_some() {
            return true;
        }
        match &self.for_apply {
            Some(iface) => !iface.base.has_controller() && iface.parent.is_none(),
            None => true,
        }
    }

    /// Whether the kernel cannot change the interface in place.
    pub fn will_delete_before_apply(&self) -> (res: bool)
        ensures
            res == self@.recreated(),
    {
        match (&self.current, &self.for_apply) {
            (Some(cur), Some(iface)) => iface.base.iface_type != cur.base.iface_type || is_change(
                &iface.veth,
                &cur.veth,
            ) || is_change(&iface.parent, &cur.parent),
            _ => false,
        }
    }

    /// Marks the interface as one to apply.
    pub fn mark_as_changed(&mut self)
        ensures
            final(self)@ == old(self)@.marked_changed(),
    {
        if self.for_apply.is_none() {
            self.for_apply = Some(self.merged.clone_identity());
            self.for_revert = self.current.dup();
        }
    }

    /// Replaces every secret.
    pub fn hide_secrets(&mut self)
        ensures
            final(self)@ == old(self)@.secrets_hidden(),
    {
        hide_option(&mut self.desired);
        hide_option(&mut self.current);
        self.merged.hide_secrets();
        hide_option(&mut self.for_apply);
        hide_option(&mut self.for_verify);
        hide_option(&mut self.for_save);
        hide_option(&mut self.for_revert);
    }
}

/// The desired properties over the saved ones.
fn gen_save_draft(des: &Interface, saved: &Option<Interface>) -> (res: Interface)
    ensures
        res@ == save_draft(des@, saved.deep_view()),
{
    match saved {
        Some(saved) => des.merge_over(saved, saved),
        None => des.dup(),
    }
}

/// What of a desired interface is to be applied.
fn gen_apply_draft(
    des: &Interface,
    current: &Option<Interface>,
    saved: &Option<Interface>,
    force: bool,
) -> (res: Interface)
    ensures
        res@ == apply_draft(des@, current.deep_view(), saved.deep_view(), force),
{
    if force {
        gen_save_draft(des, saved)
    } else {
        match current {
            Some(cur) => des.gen_change(cur),
            None => des.dup(),
        }
    }
}

/// Whether anything of a desired interface is to be applied.
fn is_apply_needed(des: &Interface, current: &Option<Interface>, force: bool) -> (res: bool)
    ensures
        res == needs_apply(des@, current.deep_view(), force),
{
    if des.base.state.is_saved() {
        return false;
    }
    match current {
        Some(cur) => force || des.is_changed(cur),
        None => true,
    }
}

/// What undoes the apply of a desired interface.
fn gen_undo(des: &Interface, current: &Option<Interface>) -> (res: Interface)
    ensures
        res@ == undo_of(des@, current.deep_view()),
{
    match current {
        Some(cur) => cur.dup(),
        None => {
            let mut res = des.clone_identity();
            res.base.state = InterfaceState::Absent;
            res
        },
    }
}

/// Gives what is saved its names and its state.
fn finish_save(
    for_save: &mut Interface,
    draft: &BaseInterface,
    current: &Option<Interface>,
    saved: &Option<Interface>,
)
    ensures
        final(for_save)@ == (InterfaceView {
            base: BaseInterfaceView {
                name: name_to_save(draft@),
                kernel_iface_name: kernel_name_to_save(
                    draft@,
                    current.deep_view(),
                    saved.deep_view(),
                ),
                state: state_to_save(draft@.state, saved.deep_view()),
                ..old(for_save)@.base
            },
            ..old(for_save)@
        }),
{
    for_save.base.name = draft.name.dup();
    for_save.base.kernel_iface_name = draft.kernel_iface_name.dup();
    for_save.base.state = draft.state;
    if draft.is_by_mac() {
        if let Some(profile_name) = &draft.profile_name {
            for_save.base.name = profile_name.dup();
        }
        let renamed = match current {
            Some(cur) => !draft.kernel_iface_name.same(&cur.base.kernel_iface_name),
            None => false,
        };
        if !renamed {
            for_save.base.kernel_iface_name =
            match saved {
                Some(saved) if saved.base.is_by_mac() => saved.base.kernel_iface_name.dup(),
                _ => String::new(),
            };
        }
    }
    if draft.state.is_saved() {
        for_save.base.state =
        match saved {
            Some(saved) => saved.base.state,
            None => InterfaceState::Up,
        };
    }
}

/// Whether the current ports are the desired ones in any order.
pub open spec fn ports_shown(
    desired: Option<Seq<Seq<char>>>,
    current: Option<Seq<Seq<char>>>,
) -> bool {
    desired is Some ==> order::sorted::<String>(desired->0) == order::sorted::<String>(
        current.unwrap_or(Seq::empty()),
    )
}

/// Whether one of the alternative names is `name`.
pub open spec fn has_alt_name(names: Seq<AltNameEntryView>, name: Seq<char>) -> bool {
    exists|i: int| 0 <= i < names.len() && (#[trigger] names[i]).name == name
}

/// Whether the interface has the desired alternative names, and none of those
/// to be removed.
pub open spec fn alt_names_shown(
    desired: Option<Seq<AltNameEntryView>>,
    current: Option<Seq<AltNameEntryView>>,
) -> bool {
    desired is Some ==> forall|i: int|
        0 <= i < desired->0.len() ==> has_alt_name(
            current.unwrap_or(Seq::empty()),
            (#[trigger] desired->0[i]).name,
        ) == (desired->0[i].state is None)
}

/// Whether the current controller is the desired one; none where it is to be
/// detached.
pub open spec fn controller_shown(desired: BaseInterfaceView, current: BaseInterfaceView) -> bool {
    desired.controller is Some ==> if desired.has_controller() {
        current.controller == desired.controller
    } else {
        !current.has_controller()
    }
}

impl InterfaceView {
    /// The error of an interface that does not show a desired property.
    pub open spec fn mismatch(self, property: Seq<char>) -> NipartErrorView {
        NipartErrorView {
            kind: ErrorKind::VerificationError,
            msg: "Interface "@ + self.base.name + "/"@ + self.base.iface_type.kebab_name()
                + " does not show the desired "@ + property,
        }
    }

    /// Whether the current interface shows what is desired: the first property
    /// that it does not.
    pub open spec fn verified(self, cur: InterfaceView) -> Result<(), NipartErrorView> {
        if iface::mac_changes(self.base.mac_address, cur.base.mac_address) {
            Err(self.mismatch("mac-address"@))
        } else if value::changes(self.base.mtu, cur.base.mtu) {
            Err(self.mismatch("mtu"@))
        } else if !controller_shown(self.base, cur.base) {
            Err(self.mismatch("controller"@))
        } else if self.base.ipv4 is Some && !self.base.ipv4->0.shown_by(cur.base.ipv4) {
            Err(self.mismatch("ipv4"@))
        } else if self.base.ipv6 is Some && !self.base.ipv6->0.shown_by(cur.base.ipv6) {
            Err(self.mismatch("ipv6"@))
        } else if !alt_names_shown(self.base.alt_names, cur.base.alt_names) {
            Err(self.mismatch("alt-names"@))
        } else if value::changes(self.veth, cur.veth) {
            Err(self.mismatch("veth"@))
        } else if value::changes(self.parent, cur.parent) {
            Err(self.mismatch("base-iface"@))
        } else if value::changes(self.vrf_table_id, cur.vrf_table_id) {
            Err(self.mismatch("route-table-id"@))
        } else if !ports_shown(self.ports, cur.ports) {
            Err(self.mismatch("ports"@))
        } else {
            Ok(())
        }
    }
}

/// Whether the current ports are the desired ones in any order.
fn are_ports_shown(desired: &Option<Vec<String>>, current: &Option<Vec<String>>) -> (res: bool)
    ensures
        res == ports_shown(desired.deep_view(), current.deep_view()),
{
    let none: Vec<String> = empty_list();
    let cur = match current {
        Some(cur) => cur,
        None => &none,
    };
    match desired {
        Some(des) => sort(des).same(&sort(cur)),
        None => true,
    }
}

/// Whether one of the alternative names is `name`.
fn contains_alt_name(names: &Vec<AltNameEntry>, name: &String) -> (res: bool)
    ensures
        res == has_alt_name(names.deep_view(), name@),
{
    let ghost views = names.deep_view();
    let mut i: usize = 0;
    while i < names.len()
        invariant
            i <= names.len(),
            views == names.deep_view(),
            forall|j: int| 0 <= j < i ==> (#[trigger] views[j]).name != name@,
        decreases names.len() - i,
    {
        assert(views[i as int] == names[i as int]@);
        if names[i].name.same(name) {
            return true;
        }
        i = i + 1;
    }
    false
}

/// Whether the interface has the desired alternative names.
fn are_alt_names_shown(
    desired: &Option<Vec<AltNameEntry>>,
    current: &Option<Vec<AltNameEntry>>,
) -> (res: bool)
    ensures
        res == alt_names_shown(desired.deep_view(), current.deep_view()),
{
    let none: Vec<AltNameEntry> = empty_list();
    let cur = match current {
        Some(cur) => cur,
        None => &none,
    };
    let des = match desired {
        Some(des) => des,
        None => {
            return true;
        },
    };
    let ghost views = des.deep_view();
    let ghost shown = cur.deep_view();
    let mut i: usize = 0;
    while i < des.len()
        invariant
            i <= des.len(),
            views == des.deep_view(),
            shown == cur.deep_view(),
            desired.deep_view() == Some(views),
            current.deep_view().unwrap_or(Seq::empty()) == shown,
            forall|j: int|
                0 <= j < i ==> has_alt_name(shown, (#[trigger] views[j]).name) == (
                views[j].state is None),
        decreases des.len() - i,
    {
        assert(views[i as int] == des[i as int]@);
        if contains_alt_name(cur, &des[i].name) == des[i].is_absent() {
            assert(desired.deep_view()->0[i as int] == views[i as int]);
            return false;
        }
        i = i + 1;
    }
    true
}

impl Interface {
    /// The error of an interface that does not show a desired property.
    fn gen_mismatch(&self, property: &str) -> (res: NipartError)
        ensures
            res@ == self@.mismatch(property@),
    {
        NipartError::new(
            ErrorKind::VerificationError,
            String::from_str("Interface ").concat(self.base.name.as_str()).concat("/").concat(
                self.base.iface_type.as_str(),
            ).concat(" does not show the desired ").concat(property),
        )
    }

    /// Whether the current interface shows what is desired.
    pub fn verify(&self, cur: &Interface) -> (res: Result<(), NipartError>)
        ensures
            error::same_result(res, self@.verified(cur@)),
    {
        if is_change(&to_upper(&self.base.mac_address), &to_upper(&cur.base.mac_address)) {
            return Err(self.gen_mismatch("mac-address"));
        }
        if is_change(&self.base.mtu, &cur.base.mtu) {
            return Err(self.gen_mismatch("mtu"));
        }
        if self.base.controller.is_some() {
            let shown = if self.base.has_controller() {
                cur.base.controller.same(&self.base.controller)
            } else {
                !cur.base.has_controller()
            };
            if !shown {
                return Err(self.gen_mismatch("controller"));
            }
        }
        if let Some(ipv4) = &self.base.ipv4 {
            if !ipv4.is_shown_by(&cur.base.ipv4) {
                return Err(self.gen_mismatch("ipv4"));
            }
        }
        if let Some(ipv6) = &self.base.ipv6 {
            if !ipv6.is_shown_by(&cur.base.ipv6) {
                return Err(self.gen_mismatch("ipv6"));
            }
        }
        if !are_alt_names_shown(&self.base.alt_names, &cur.base.alt_names) {
            return Err(self.gen_mismatch("alt-names"));
        }
        if is_change(&self.veth, &cur.veth) {
            return Err(self.gen_mismatch("veth"));
        }
        if is_change(&self.parent, &cur.parent) {
            return Err(self.gen_mismatch("base-iface"));
        }
        if is_change(&self.vrf_table_id, &cur.vrf_table_id) {
            return Err(self.gen_mismatch("route-table-id"));
        }
        if !are_ports_shown(&self.ports, &cur.ports) {
            return Err(self.gen_mismatch("ports"));
        }
        Ok(())
    }
}

/// An interface that is only to be saved is neither applied nor verified, and
/// has nothing to undo.
pub proof fn law_only_saved(
    des: InterfaceView,
    current: Option<InterfaceView>,
    saved: Option<InterfaceView>,
    force: bool,
)
    requires
        des.base.state is Saved,
    ensures
        merged_iface(Some(des), current, saved, force) is Ok ==> {
            let merged = merged_iface(Some(des), current, saved, force)->Ok_0;
            &&& merged.for_apply is None
            &&& merged.for_verify is None
            &&& merged.for_revert is None
            &&& merged.for_save is Some
        },
{
}

/// An interface that is not desired stays as it is, and what is saved of it
/// stays saved.
pub proof fn law_not_desired(
    current: Option<InterfaceView>,
    saved: Option<InterfaceView>,
    force: bool,
)
    ensures
        merged_iface(None, current, saved, force) is Ok,
        ({
            let merged = merged_iface(None, current, saved, force)->Ok_0;
            &&& merged.for_apply is None
            &&& merged.for_verify is None
            &&& merged.for_revert is None
            &&& merged.for_save == saved
            &&& current is Some ==> merged.merged == current->0
        }),
{
}

/// Whatever is applied can be undone: to what was there, or to nothing.
pub proof fn law_undo(
    des: InterfaceView,
    current: Option<InterfaceView>,
    saved: Option<InterfaceView>,
    force: bool,
)
    ensures
        merged_iface(Some(des), current, saved, force) is Ok ==> {
            let merged = merged_iface(Some(des), current, saved, force)->Ok_0;
            &&& merged.for_apply is Some <==> merged.for_revert is Some
            &&& merged.for_revert is Some && current is Some ==> merged.for_revert == current
            &&& merged.for_revert is Some && current is None
                ==> merged.for_revert->0.base.state is Absent
        },
{
}

/// What is desired and shown already is not applied again, unless by force.
pub proof fn law_nothing_changes(
    des: InterfaceView,
    cur: InterfaceView,
    saved: Option<InterfaceView>,
    force: bool,
)
    requires
        !des.differs(cur),
        !(des.base.state is Saved),
    ensures
        merged_iface(Some(des), Some(cur), saved, force) is Ok ==> (merged_iface(
            Some(des),
            Some(cur),
            saved,
            force,
        )->Ok_0.for_apply is Some <==> force),
{
}

/// Force is about what is applied only: whether the merge succeeds, what
/// results and what is saved are the same. By force every desired interface is
/// applied, unless its configuration is to be saved only.
pub proof fn law_force(
    des: InterfaceView,
    current: Option<InterfaceView>,
    saved: Option<InterfaceView>,
)
    ensures
        ({
            let plain = merged_iface(Some(des), current, saved, false);
            let forced = merged_iface(Some(des), current, saved, true);
            &&& plain is Err ==> forced == plain
            &&& plain is Ok ==> {
                &&& forced is Ok
                &&& forced->Ok_0.merged == plain->Ok_0.merged
                &&& forced->Ok_0.for_save == plain->Ok_0.for_save
                &&& (forced->Ok_0.for_apply is Some <==> !(des.base.state is Saved))
                &&& plain->Ok_0.for_apply is Some ==> forced->Ok_0.for_apply is Some
            }
        }),
{
}

/// Hardware is never deleted: it is brought down instead.
pub proof fn law_hardware_stays(
    des: InterfaceView,
    cur: InterfaceView,
    saved: Option<InterfaceView>,
    force: bool,
)
    requires
        !cur.is_software(),
    ensures
        merged_iface(Some(des), Some(cur), saved, force) is Ok && merged_iface(
            Some(des),
            Some(cur),
            saved,
            force,
        )->Ok_0.for_apply is Some ==> !(merged_iface(
            Some(des),
            Some(cur),
            saved,
            force,
        )->Ok_0.for_apply->0.base.state is Absent),
{
}

/// Secrets of the desired and of the saved configuration are what is saved:
/// merging loses none.
pub proof fn law_secrets_saved(
    des: InterfaceView,
    current: Option<InterfaceView>,
    saved: Option<InterfaceView>,
    force: bool,
)
    ensures
        merged_iface(Some(des), current, saved, force) is Ok ==> {
            let for_save = merged_iface(Some(des), current, saved, force)->Ok_0.for_save->0;
            &&& des.wifi is Some ==> for_save.wifi == des.wifi
            &&& des.private_key is Some ==> for_save.private_key == des.private_key
            &&& des.wifi is None && saved is Some ==> for_save.wifi == saved->0.wifi
            &&& des.private_key is None && saved is Some ==> for_save.private_key
                == saved->0.private_key
        },
{
}

/// An interface that is matched by its MAC address is saved under the name of
/// its profile.
pub proof fn law_saved_under_profile(
    des: InterfaceView,
    current: Option<InterfaceView>,
    saved: Option<InterfaceView>,
    force: bool,
)
    requires
        des.base.by_mac(),
        des.base.profile_name is Some,
    ensures
        merged_iface(Some(des), current, saved, force) is Ok ==> merged_iface(
            Some(des),
            current,
            saved,
            force,
        )->Ok_0.for_save->0.base.name == des.base.profile_name->0,
{
}

/// Marking an interface as one to apply twice is the same as once, and gives it
/// something to undo where it has none.
pub proof fn law_marked_changed(iface: MergedInterfaceView)
    ensures
        iface.marked_changed().marked_changed() == iface.marked_changed(),
        iface.marked_changed().for_apply is Some,
        iface.for_apply is None ==> iface.marked_changed().for_revert == iface.current,
{
}

/// Replacing the secrets of a merged interface twice is the same as once.
pub proof fn law_secrets_hidden(iface: MergedInterfaceView)
    ensures
        iface.secrets_hidden().secrets_hidden() == iface.secrets_hidden(),
{
}

/// An interface that the host shows as it is desired passes verification, when
/// no alternative name is to be removed.
pub proof fn law_shown_is_verified(iface: InterfaceView)
    requires
        iface.base.alt_names is Some ==> forall|i: int|
            0 <= i < iface.base.alt_names->0.len() ==> (
            #[trigger] iface.base.alt_names->0[i]).state is None,
    ensures
        iface.verified(iface) is Ok,
{
}

/// Upper case twice is the same as once.
proof fn lemma_upper_twice(s: Option<Seq<char>>)
    ensures
        iface::upper(iface::upper(s)) == iface::upper(s),
{
    if let Some(s) = s {
        assert(text::ascii_upper(text::ascii_upper(s)) =~= text::ascii_upper(s));
    }
}

/// An apply that took effect is not applied again: what is desired does not
/// differ from the interface after the apply, when no address is desired next
/// to learned ones.
pub proof fn law_applied_once(
    des: InterfaceView,
    current: Option<InterfaceView>,
    saved: Option<InterfaceView>,
    later: Option<InterfaceView>,
)
    requires
        des.base.ipv4 is Some && des.base.ipv4->0.auto() ==> des.base.ipv4->0.addresses is None,
        des.base.ipv6 is Some && des.base.ipv6->0.auto() ==> des.base.ipv6->0.addresses is None,
        merged_iface(Some(des), current, saved, false) is Ok,
    ensures
        ({
            let shown = merged_iface(Some(des), current, saved, false)->Ok_0.merged;
            &&& !des.differs(shown)
            &&& merged_iface(Some(des), Some(shown), later, false) is Ok ==> merged_iface(
                Some(des),
                Some(shown),
                later,
                false,
            )->Ok_0.for_apply is None
        }),
{
    lemma_upper_twice(des.base.mac_address);
}

/// Whether an IPv4 configuration shows another: the stack is on or off as it is
/// defined to be, and where it is on and no address is learned, every defined
/// address is there.
pub open spec fn shows_ipv4(cur: Option<InterfaceIpv4View>, des: InterfaceIpv4View) -> bool {
    let on = cur is Some && cur->0.enabled != Some(false);
    let held = if cur is Some && cur->0.addresses is Some {
        cur->0.addresses->0
    } else {
        Seq::empty()
    };
    &&& des.enabled == Some(true) ==> on
    &&& des.enabled == Some(false) ==> !on
    &&& des.enabled != Some(false) && des.dhcp != Some(true) && des.addresses is Some
        ==> forall|i: int|
        0 <= i < des.addresses->0.len() ==> held.contains(#[trigger] des.addresses->0[i])
}

/// Whether an IPv6 configuration shows another: the stack is on or off as it is
/// defined to be, and where it is on and no address is learned, every defined
/// address is there.
pub open spec fn shows_ipv6(cur: Option<InterfaceIpv6View>, des: InterfaceIpv6View) -> bool {
    let on = cur is Some && cur->0.enabled != Some(false);
    let held = if cur is Some && cur->0.addresses is Some {
        cur->0.addresses->0
    } else {
        Seq::empty()
    };
    &&& des.enabled == Some(true) ==> on
    &&& des.enabled == Some(false) ==> !on
    &&& des.enabled != Some(false) && des.dhcp != Some(true) && des.autoconf != Some(true)
        && des.addresses is Some ==> forall|i: int|
        0 <= i < des.addresses->0.len() ==> held.contains(#[trigger] des.addresses->0[i])
}

/// Whether an interface shows every property that another one defines. An empty
/// controller stands for none, MAC addresses have no case, and ports no order.
pub open spec fn shows(cur: InterfaceView, des: InterfaceView) -> bool {
    &&& des.base.mac_address is Some ==> cur.base.mac_address is Some && text::ascii_upper(
        cur.base.mac_address->0,
    ) == text::ascii_upper(des.base.mac_address->0)
    &&& des.base.mtu is Some ==> cur.base.mtu == des.base.mtu
    &&& des.base.controller is Some && des.base.controller->0.len() > 0 ==> cur.base.controller
        == des.base.controller
    &&& des.base.controller is Some && des.base.controller->0.len() == 0
        ==> cur.base.controller is None || cur.base.controller->0.len() == 0
    &&& des.base.ipv4 is Some ==> shows_ipv4(cur.base.ipv4, des.base.ipv4->0)
    &&& des.base.ipv6 is Some ==> shows_ipv6(cur.base.ipv6, des.base.ipv6->0)
    &&& des.base.alt_names is Some ==> forall|i: int|
        0 <= i < des.base.alt_names->0.len() ==> {
            let held = cur.base.alt_names is Some && has_alt_name(
                cur.base.alt_names->0,
                (#[trigger] des.base.alt_names->0[i]).name,
            );
            held == (des.base.alt_names->0[i].state is None)
        }
    &&& des.veth is Some ==> cur.veth == des.veth
    &&& des.parent is Some ==> cur.parent == des.parent
    &&& des.vrf_table_id is Some ==> cur.vrf_table_id == des.vrf_table_id
    &&& des.ports is Some ==> order::sorted::<String>(des.ports->0) == order::sorted::<String>(
        cur.ports.unwrap_or(Seq::empty()),
    )
}

/// An interface passes verification exactly when it shows every property that
/// is desired of it.
pub proof fn law_verified(des: InterfaceView, cur: InterfaceView)
    ensures
        des.verified(cur) is Ok <==> shows(cur, des),
        des.verified(cur) is Ok && des.ports is Some ==> des.ports->0.to_multiset()
            == cur.ports.unwrap_or(Seq::empty()).to_multiset(),
        des.verified(cur) is Err ==> des.verified(cur)->Err_0.kind
            == ErrorKind::VerificationError,
{
    if let Some(des_ipv4) = des.base.ipv4 {
        assert(des_ipv4.shown_by(cur.base.ipv4) == shows_ipv4(cur.base.ipv4, des_ipv4));
    }
    if let Some(des_ipv6) = des.base.ipv6 {
        assert(des_ipv6.shown_by(cur.base.ipv6) == shows_ipv6(cur.base.ipv6, des_ipv6));
    }
    if let Some(names) = des.base.alt_names {
        let held = cur.base.alt_names.unwrap_or(Seq::empty());
        assert(forall|name: Seq<char>|
            #[trigger] has_alt_name(held, name) == (cur.base.alt_names is Some && has_alt_name(
                cur.base.alt_names->0,
                name,
            )));
    }
    if let Some(ports) = des.ports {
        order::law_sorted::<String>(ports);
        order::law_sorted::<String>(cur.ports.unwrap_or(Seq::empty()));
    }
}

/// What is verified of a desired interface is what is desired: nothing of one
/// that is only to be saved, and of any other one every property that it
/// defines, but for its IP configuration, which may be completed.
pub proof fn law_to_verify(
    des: InterfaceView,
    current: Option<InterfaceView>,
    saved: Option<InterfaceView>,
    force: bool,
)
    requires
        merged_iface(Some(des), current, saved, force) is Ok,
    ensures
        ({
            let merged = merged_iface(Some(des), current, saved, force)->Ok_0;
            let base = merged.for_verify->0.base;
            &&& merged.desired == Some(des)
            &&& merged.current == current
            &&& merged.for_verify is Some <==> !(des.base.state is Saved)
            &&& merged.for_verify is Some ==> {
                &&& base.name == des.base.name
                &&& des.base.kernel_iface_name.len() > 0 ==> base.kernel_iface_name
                    == des.base.kernel_iface_name
                &&& base.iface_type == des.base.iface_type
                &&& base.state == des.base.state
                &&& base.mtu == des.base.mtu
                &&& iface::upper(base.mac_address) == iface::upper(des.base.mac_address)
                &&& base.controller == des.base.controller
                &&& merged.for_verify->0.veth == des.veth
                &&& merged.for_verify->0.parent == des.parent
                &&& merged.for_verify->0.ports == des.ports
                &&& merged.for_verify->0.vrf_table_id == des.vrf_table_id
            }
        }),
{
    lemma_upper_twice(des.base.mac_address);
}

/// Whether a desired property is defined and not what is there.
pub open spec fn is_news_of<T>(desired: Option<T>, current: Option<T>) -> bool {
    desired is Some && desired != current
}

/// The current value of a property, undefined without a current interface.
pub open spec fn prop_of<T>(
    iface: Option<InterfaceView>,
    prop: spec_fn(InterfaceView) -> Option<T>,
) -> Option<T> {
    match iface {
        Some(iface) => prop(iface),
        None => None,
    }
}

/// What a merge does with a property of a desired interface that is not only to
/// be saved: one that the host does not have as desired is applied, and without
/// force no other one is. The interface after the apply has the desired
/// property, or the current one where none is desired. What is saved is the
/// desired property, or the saved one.
pub open spec fn carries<T>(
    merged: MergedInterfaceView,
    des: InterfaceView,
    current: Option<InterfaceView>,
    saved: Option<InterfaceView>,
    force: bool,
    prop: spec_fn(InterfaceView) -> Option<T>,
) -> bool {
    let wanted = prop(des);
    let shown = prop_of(current, prop);
    let kept = prop_of(saved, prop);
    &&& !(des.base.state is Saved) && is_news_of(wanted, shown) ==> merged.for_apply is Some
        && prop(merged.for_apply->0) == wanted
    &&& merged.for_apply is Some && !force && prop(merged.for_apply->0) is Some ==> prop(
        merged.for_apply->0,
    ) == wanted && (current is None || is_news_of(wanted, shown))
    &&& prop(merged.merged) == if wanted is Some {
        wanted
    } else {
        shown
    }
    &&& merged.for_save is Some
    &&& prop(merged.for_save->0) == if wanted is Some {
        wanted
    } else {
        kept
    }
}

/// A merge applies, results in and saves what is desired of every property.
pub proof fn law_properties(
    des: InterfaceView,
    current: Option<InterfaceView>,
    saved: Option<InterfaceView>,
    force: bool,
)
    requires
        merged_iface(Some(des), current, saved, force) is Ok,
    ensures
        ({
            let merged = merged_iface(Some(des), current, saved, force)->Ok_0;
            &&& carries(merged, des, current, saved, force, |i: InterfaceView| i.base.mtu)
            &&& carries(merged, des, current, saved, force, |i: InterfaceView| i.base.controller)
            &&& carries(merged, des, current, saved, force, |i: InterfaceView| i.base.alt_names)
            &&& carries(merged, des, current, saved, force, |i: InterfaceView| i.veth)
            &&& carries(merged, des, current, saved, force, |i: InterfaceView| i.wifi)
            &&& carries(merged, des, current, saved, force, |i: InterfaceView| i.parent)
            &&& carries(merged, des, current, saved, force, |i: InterfaceView| i.ports)
            &&& carries(merged, des, current, saved, force, |i: InterfaceView| i.vrf_table_id)
            &&& carries(merged, des, current, saved, force, |i: InterfaceView| i.private_key)
            &&& merged.merged.base.state == des.base.state
            &&& !(des.base.state is Saved) && (current is None || current->0.base.state
                != des.base.state) ==> merged.for_apply is Some
            &&& merged.for_apply is Some ==> merged.for_apply->0.base.name == des.base.name && (
            merged.for_apply->0.base.state == des.base.state || (des.base.state is Absent
                && current is Some && !current->0.is_software()
                && merged.for_apply->0.base.state is Down))
        }),
{
}

} // verus!
