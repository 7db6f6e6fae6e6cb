//! How the desired, current and saved interfaces are merged and verified.

use vstd::prelude::*;
use vstd::string::*;

use crate::error;
use crate::error::{ErrorKind, NipartError, NipartErrorView};
use crate::iface::{
    AltNameEntry, AltNameEntryView, BaseInterfaceView, Interface, InterfaceType, InterfaceView,
};
use crate::ifaces;
use crate::ifaces::{IfaceSearch, Interfaces, InterfacesView};
use crate::keymap;
use crate::merged_iface;
use crate::merged_iface::{MergedInterface, MergedInterfaceView};
use crate::merged_ifaces;
use crate::merged_ifaces::{MergedInterfaces, MergedInterfacesView, Part};
use crate::post_merge;
use crate::post_merge::ControllerPortsView;
use crate::up_priority::INTERFACES_SET_PRIORITY_MAX_RETRY;
use crate::value;
use crate::value::{Value, contains, empty_list, push};
use crate::wifi;
use crate::wifi::expand_wifi_cfg_to_connected_phy;

verus! {

/// Merged interfaces, and what has been merged into them.
#[derive(Clone, Debug, PartialEq, Eq)]
pub struct MergeProgress {
    pub ifaces: MergedInterfaces,
    /// The saved interfaces that desired ones are about.
    pub used_saved: Vec<(String, InterfaceType)>,
    /// The current interfaces that desired ones are about.
    pub used_current: Vec<(String, InterfaceType)>,
}

/// What a [MergeProgress] stands for.
#[verifier::ext_equal]
pub struct MergeProgressView {
    pub ifaces: MergedInterfacesView,
    pub used_saved: Seq<(Seq<char>, InterfaceType)>,
    pub used_current: Seq<(Seq<char>, InterfaceType)>,
}

impl View for MergeProgress {
    type V = MergeProgressView;

    open spec fn view(&self) -> MergeProgressView {
        MergeProgressView {
            ifaces: self.ifaces.deep_view(),
            used_saved: self.used_saved.deep_view(),
            used_current: self.used_current.deep_view(),
        }
    }
}

impl DeepView for MergeProgress {
    type V = MergeProgressView;

    open spec fn deep_view(&self) -> MergeProgressView {
        self@
    }
}

impl Value for MergeProgress {
    fn dup(&self) -> (res: Self) {
        MergeProgress {
            ifaces: self.ifaces.dup(),
            used_saved: self.used_saved.dup(),
            used_current: self.used_current.dup(),
        }
    }

    fn same(&self, other: &Self) -> (res: bool) {
        self.ifaces.same(&other.ifaces) && self.used_saved.same(&other.used_saved) && self.used_current.same(&other.used_current)
    }
}

/// The name and type of an interface.
pub open spec fn name_and_type(iface: InterfaceView) -> (Seq<char>, InterfaceType) {
    (iface.base.name, iface.base.iface_type)
}

/// The desired interface with how the saved one is matched, where that one is
/// matched by its MAC address and the desired one does not say.
pub open spec fn identified(des: InterfaceView, saved: Option<InterfaceView>) -> InterfaceView {
    match saved {
        Some(saved) if saved.base.by_mac() && des.base.identifier is None => InterfaceView {
            base: BaseInterfaceView {
                identifier: saved.base.identifier,
                mac_address: saved.base.mac_address,
                profile_name: value::or(des.base.profile_name, saved.base.profile_name),
                ..des.base
            },
            ..des
        },
        _ => des,
    }
}

/// The desired interface under its name in the kernel, where it is matched by
/// its MAC address. A name in the kernel that is desired renames the interface,
/// which keeps the old name as an alternative one unless alternative names are
/// defined.
pub open spec fn name_resolved(
    des: InterfaceView,
    current: Option<InterfaceView>,
    saved: Option<InterfaceView>,
) -> InterfaceView {
    match current {
        Some(cur) if des.base.by_mac() => {
            let renamed = des.base.kernel_iface_name.len() > 0 && des.base.kernel_iface_name
                != cur.base.kernel_iface_name;
            let name = if renamed {
                des.base.kernel_iface_name
            } else {
                cur.base.kernel_iface_name
            };
            InterfaceView {
                base: BaseInterfaceView {
                    profile_name: value::or(des.base.profile_name, Some(des.base.name)),
                    name,
                    kernel_iface_name: name,
                    alt_names: if renamed && des.base.alt_names is None && (saved is None
                        || saved->0.base.alt_names is None) {
                        Some(
                            seq![
                                AltNameEntryView { name: cur.base.kernel_iface_name, state: None },
                            ],
                        )
                    } else {
                        des.base.alt_names
                    },
                    ..des.base
                },
                ..des
            }
        },
        _ => des,
    }
}

/// The saved interface for a desired one: the one that was found, else the one
/// of the same name in the kernel, where the desired one is matched by its MAC
/// address.
pub open spec fn saved_or_same_name(
    found: Option<InterfaceView>,
    des: InterfaceView,
    current: Option<InterfaceView>,
    saved: Option<InterfacesView>,
) -> Option<InterfaceView> {
    if found is None && des.base.by_mac() && current is Some && saved is Some {
        keymap::lookup(saved->0.kernel_ifaces, des.base.kernel_iface_name)
    } else {
        found
    }
}

/// `names` with the name and type of the interface, if there is one.
pub open spec fn with_used(
    names: Seq<(Seq<char>, InterfaceType)>,
    iface: Option<InterfaceView>,
) -> Seq<(Seq<char>, InterfaceType)> {
    match iface {
        Some(iface) => names.push(name_and_type(iface)),
        None => names,
    }
}

/// The saved interface for a desired one, if anything is saved.
pub open spec fn saved_for(saved: Option<InterfacesView>, des: InterfaceView) -> Option<
    InterfaceView,
> {
    match saved {
        Some(saved) => saved.saved_for(des.base),
        None => None,
    }
}

impl MergeProgressView {
    /// Nothing has been merged.
    pub open spec fn start(current: InterfacesView) -> MergeProgressView {
        MergeProgressView {
            ifaces: MergedInterfacesView { current, ..MergedInterfacesView::none() },
            used_saved: Seq::empty(),
            used_current: Seq::empty(),
        }
    }

    /// With a desired interface, which is left out when it is to be ignored.
    pub open spec fn with_desired(
        self,
        des: InterfaceView,
        current: InterfacesView,
        saved: Option<InterfacesView>,
        force: bool,
    ) -> Result<MergeProgressView, NipartErrorView> {
        if des.base.state is Ignore {
            Ok(self)
        } else {
            let found = saved_for(saved, des);
            let identified = identified(des, found);
            match current.current_for(identified.base) {
                Err(e) => Err(e),
                Ok(cur) => {
                    let resolved = name_resolved(identified, cur, found);
                    let saved_iface = saved_or_same_name(found, resolved, cur, saved);
                    match merged_iface::merged_iface(Some(resolved), cur, saved_iface, force) {
                        Err(e) => Err(e),
                        Ok(merged) => Ok(
                            MergeProgressView {
                                ifaces: self.ifaces.pushed(merged),
                                used_saved: with_used(self.used_saved, saved_iface),
                                used_current: with_used(self.used_current, cur),
                            },
                        ),
                    }
                },
            }
        }
    }

    /// With the desired interfaces from `i` on.
    pub open spec fn with_desired_from(
        self,
        list: Seq<InterfaceView>,
        current: InterfacesView,
        saved: Option<InterfacesView>,
        force: bool,
        i: int,
    ) -> Result<MergeProgressView, NipartErrorView>
        decreases list.len() - i,
    {
        if i < 0 || i >= list.len() {
            Ok(self)
        } else {
            match self.with_desired(list[i], current, saved, force) {
                Err(e) => Err(e),
                Ok(next) => next.with_desired_from(list, current, saved, force, i + 1),
            }
        }
    }

    /// With the current interfaces from `i` on that no desired one is about.
    pub open spec fn with_current_from(self, list: Seq<InterfaceView>, i: int) -> MergeProgressView
        decreases list.len() - i,
    {
        if i < 0 || i >= list.len() {
            self
        } else if self.used_current.contains(name_and_type(list[i])) {
            self.with_current_from(list, i + 1)
        } else {
            MergeProgressView {
                ifaces: self.ifaces.pushed(merged_iface::untouched(Some(list[i]), None)),
                ..self
            }.with_current_from(list, i + 1)
        }
    }

    /// With the saved interfaces from `i` on that no desired one is about.
    pub open spec fn with_saved_from(self, list: Seq<InterfaceView>, i: int) -> MergeProgressView
        decreases list.len() - i,
    {
        if i < 0 || i >= list.len() {
            self
        } else if self.used_saved.contains(name_and_type(list[i])) {
            self.with_saved_from(list, i + 1)
        } else {
            MergeProgressView {
                ifaces: self.ifaces.pushed(merged_iface::untouched(None, Some(list[i]))),
                ..self
            }.with_saved_from(list, i + 1)
        }
    }
}

/// All interfaces, merged one by one.
pub open spec fn one_by_one(
    desired: InterfacesView,
    current: InterfacesView,
    saved: Option<InterfacesView>,
    force: bool,
) -> Result<MergedInterfacesView, NipartErrorView> {
    let cur = current.veth_unified();
    let des = wifi::expanded(desired.veth_unified(), cur);
    match MergeProgressView::start(current).with_desired_from(des.list(), cur, saved, force, 0) {
        Err(e) => Err(e),
        Ok(progress) => {
            let progress = progress.with_current_from(cur.list(), 0);
            let progress = match saved {
                Some(saved) => progress.with_saved_from(saved.list(), 0),
                None => progress,
            };
            Ok(progress.ifaces)
        },
    }
}

/// What [MergedInterfaces::new_with_force] returns.
pub open spec fn merged(
    desired: InterfacesView,
    current: InterfacesView,
    saved: Option<InterfacesView>,
    force: bool,
) -> Result<MergedInterfacesView, NipartErrorView> {
    match one_by_one(desired, current, saved, force) {
        Err(e) => Err(e),
        Ok(all) => {
            let searched = MergedInterfacesView {
                iface_search: ifaces::search_of(all.parts(Part::Merged).list()),
                ..all
            };
            match searched.sanitized() {
                Err(e) => Err(e),
                Ok(sanitized) => match sanitized.alt_names_checked() {
                    Err(e) => Err(e),
                    Ok(()) => match sanitized.prioritized(
                        INTERFACES_SET_PRIORITY_MAX_RETRY as nat,
                    ) {
                        Err(e) => Err(e),
                        Ok(ranked) => Ok(ranked.deletes_marked()),
                    },
                },
            }
        },
    }
}

/// What [MergedInterfaces::new] returns.
pub open spec fn plainly_merged(
    desired: InterfacesView,
    current: InterfacesView,
    saved: Option<InterfacesView>,
) -> Result<MergedInterfacesView, NipartErrorView> {
    merged(desired, current, saved, false)
}

/// The number of saved interfaces.
pub open spec fn saved_len(saved: Option<InterfacesView>) -> nat {
    match saved {
        Some(saved) => saved.insert_order.len(),
        None => 0,
    }
}

/// Whether the priorities of all interfaces fit their type.
pub open spec fn has_room(
    desired: InterfacesView,
    current: InterfacesView,
    saved: Option<InterfacesView>,
) -> bool {
    8 * (2 * desired.insert_order.len() + current.insert_order.len() + saved_len(saved))
        <= u32::MAX
}

/// Whether no interface has a priority.
pub open spec fn is_unranked(ifaces: MergedInterfacesView) -> bool {
    &&& forall|i: int|
        0 <= i < ifaces.kernel_ifaces.len() ==> (
        #[trigger] ifaces.kernel_ifaces[i]).1.up_priority is None
    &&& forall|i: int|
        0 <= i < ifaces.user_ifaces.len() ==> (
        #[trigger] ifaces.user_ifaces[i]).1.up_priority is None
}

/// A list has at most as many interfaces as there are keys.
proof fn lemma_list_len(ifaces: InterfacesView, i: int, acc: Seq<InterfaceView>)
    requires
        0 <= i <= ifaces.insert_order.len(),
    ensures
        ifaces.list_from(i, acc).len() <= acc.len() + ifaces.insert_order.len() - i,
    decreases ifaces.insert_order.len() - i,
{
    if i < ifaces.insert_order.len() {
        match ifaces.find(ifaces.insert_order[i].0, ifaces.insert_order[i].1) {
            Some(iface) => lemma_list_len(ifaces, i + 1, acc.push(iface)),
            None => lemma_list_len(ifaces, i + 1, acc),
        }
    }
}

/// Every interface that is added adds one key at most.
proof fn lemma_pushed_len(ifaces: InterfacesView, list: Seq<InterfaceView>, i: int)
    requires
        0 <= i <= list.len(),
    ensures
        ifaces.pushed_from(list, i).insert_order.len() <= ifaces.insert_order.len() + list.len()
            - i,
    decreases list.len() - i,
{
    if i < list.len() {
        lemma_pushed_len(ifaces.pushed(list[i]), list, i + 1);
    }
}

/// Every WIFI configuration adds one device at most.
proof fn lemma_expanded_from_len(
    list: Seq<InterfaceView>,
    desired: InterfacesView,
    current: InterfacesView,
    i: int,
    acc: Seq<InterfaceView>,
)
    requires
        0 <= i <= list.len(),
    ensures
        wifi::expanded_from(list, desired, current, i, acc).len() <= acc.len() + list.len() - i,
    decreases list.len() - i,
{
    if i < list.len() {
        match wifi::connected_phy(current, list[i]) {
            Some(phy) if wifi::has_ip_to_expand(list[i]) && !keymap::has(
                desired.kernel_ifaces,
                phy.base.kernel_iface_name,
            ) => lemma_expanded_from_len(
                list,
                desired,
                current,
                i + 1,
                acc.push(wifi::phy_with_config(list[i], phy)),
            ),
            _ => lemma_expanded_from_len(list, desired, current, i + 1, acc),
        }
    }
}

/// WIFI configurations at most double the desired interfaces.
proof fn lemma_expanded_len(desired: InterfacesView, current: InterfacesView)
    ensures
        wifi::expanded(desired, current).insert_order.len() <= 2 * desired.insert_order.len(),
{
    let list = desired.list();
    let extra = wifi::expanded_from(list, desired, current, 0, Seq::empty());
    lemma_list_len(desired, 0, Seq::empty());
    lemma_expanded_from_len(list, desired, current, 0, Seq::empty());
    lemma_pushed_len(desired, extra, 0);
}

/// A value in a map is the value of an entry.
proof fn lemma_unranked_value<K>(map: Seq<(K, MergedInterfaceView)>, key: K)
    requires
        forall|i: int| 0 <= i < map.len() ==> (#[trigger] map[i]).1.up_priority is None,
    ensures
        keymap::lookup(map, key) is Some ==> keymap::lookup(map, key)->0.up_priority is None,
{
    keymap::lemma_entry_from(map, key, 0);
    if keymap::has(map, key) {
        assert(map[keymap::entry(map, key)].1.up_priority is None);
    }
}

/// Inserting an interface without a priority leaves a map without priorities.
proof fn lemma_unranked_insert<K>(
    map: Seq<(K, MergedInterfaceView)>,
    key: K,
    iface: MergedInterfaceView,
)
    requires
        forall|i: int| 0 <= i < map.len() ==> (#[trigger] map[i]).1.up_priority is None,
        iface.up_priority is None,
    ensures
        forall|i: int|
            0 <= i < keymap::inserted(map, key, iface).len() ==> (#[trigger] keymap::inserted(
                map,
                key,
                iface,
            )[i]).1.up_priority is None,
{
    keymap::lemma_entry_from(map, key, 0);
    let next = keymap::inserted(map, key, iface);
    assert forall|i: int| 0 <= i < next.len() implies (#[trigger] next[i]).1.up_priority is None by {
        if i < map.len() {
            assert(map[i].1.up_priority is None);
        }
    }
}

/// Adding an interface without a priority leaves all without one.
proof fn lemma_unranked_push(ifaces: MergedInterfacesView, iface: MergedInterfaceView)
    requires
        is_unranked(ifaces),
        iface.up_priority is None,
    ensures
        is_unranked(ifaces.pushed(iface)),
{
    let base = iface.merged.base;
    lemma_unranked_insert(ifaces.kernel_ifaces, base.kernel_iface_name, iface);
    lemma_unranked_insert(ifaces.user_ifaces, (base.name, base.iface_type), iface);
    if let Some(saved) = iface.for_save {
        let key = merged_ifaces::saved_key(saved);
        lemma_unranked_value(ifaces.kernel_ifaces, key);
        lemma_unranked_insert(ifaces.kernel_ifaces, key, iface);
        if let Some(existing) = keymap::lookup(ifaces.kernel_ifaces, key) {
            lemma_unranked_insert(
                ifaces.kernel_ifaces,
                key,
                merged_ifaces::with_saved(existing, iface.for_save),
            );
        }
        let user_key = name_and_type(saved);
        lemma_unranked_value(ifaces.user_ifaces, user_key);
        lemma_unranked_insert(ifaces.user_ifaces, user_key, iface);
        if let Some(existing) = keymap::lookup(ifaces.user_ifaces, user_key) {
            lemma_unranked_insert(
                ifaces.user_ifaces,
                user_key,
                merged_ifaces::with_saved(existing, iface.for_save),
            );
        }
    }
}

/// Attaching ports gives none a priority.
proof fn lemma_unranked_attached(
    ifaces: MergedInterfacesView,
    controller: ControllerPortsView,
    i: int,
)
    requires
        is_unranked(ifaces),
        0 <= i,
    ensures
        ifaces.attached_from(controller, i) is Ok ==> is_unranked(
            ifaces.attached_from(controller, i)->Ok_0,
        ) && ifaces.attached_from(controller, i)->Ok_0.insert_order == ifaces.insert_order,
    decreases controller.ports.len() - i,
{
    if i < controller.ports.len() {
        let name = controller.ports[i];
        lemma_unranked_value(ifaces.kernel_ifaces, name);
        if let Some(port) = keymap::lookup(ifaces.kernel_ifaces, name) {
            let next = ifaces.with_kernel(name, post_merge::attached(port, controller));
            lemma_unranked_insert(
                ifaces.kernel_ifaces,
                name,
                post_merge::attached(port, controller),
            );
            assert(is_unranked(next));
            lemma_unranked_attached(next, controller, i + 1);
        }
    }
}

/// Detaching ports gives none a priority.
proof fn lemma_unranked_detached(
    ifaces: MergedInterfacesView,
    controller: ControllerPortsView,
    i: int,
)
    requires
        is_unranked(ifaces),
        0 <= i,
    ensures
        is_unranked(ifaces.detached_from(controller, i)),
        ifaces.detached_from(controller, i).insert_order == ifaces.insert_order,
    decreases controller.old_ports.len() - i,
{
    if i < controller.old_ports.len() {
        let name = controller.old_ports[i];
        lemma_unranked_value(ifaces.kernel_ifaces, name);
        if let Some(port) = keymap::lookup(ifaces.kernel_ifaces, name) {
            let next = ifaces.with_kernel(name, post_merge::detached(port));
            lemma_unranked_insert(ifaces.kernel_ifaces, name, post_merge::detached(port));
            assert(is_unranked(next));
            lemma_unranked_detached(next, controller, i + 1);
        }
        lemma_unranked_detached(ifaces, controller, i + 1);
    }
}

/// Settling ports gives none a priority.
proof fn lemma_unranked_settled(
    ifaces: MergedInterfacesView,
    list: Seq<ControllerPortsView>,
    i: int,
)
    requires
        is_unranked(ifaces),
        0 <= i,
    ensures
        ifaces.ports_settled_from(list, i) is Ok ==> is_unranked(
            ifaces.ports_settled_from(list, i)->Ok_0,
        ) && ifaces.ports_settled_from(list, i)->Ok_0.insert_order == ifaces.insert_order,
    decreases list.len() - i,
{
    if i < list.len() {
        lemma_unranked_attached(ifaces, list[i], 0);
        if let Ok(next) = ifaces.attached_from(list[i], 0) {
            lemma_unranked_detached(next, list[i], 0);
            lemma_unranked_settled(next.detached_from(list[i], 0), list, i + 1);
        }
    }
}

/// What interfaces mean for each other gives none a priority.
proof fn lemma_unranked_sanitized(ifaces: MergedInterfacesView)
    requires
        is_unranked(ifaces),
    ensures
        ifaces.sanitized() is Ok ==> is_unranked(ifaces.sanitized()->Ok_0)
            && ifaces.sanitized()->Ok_0.insert_order == ifaces.insert_order,
{
    let up = ifaces.wifi_sanitized();
    assert forall|i: int| 0 <= i < up.kernel_ifaces.len() implies (
    #[trigger] up.kernel_ifaces[i]).1.up_priority is None by {
        assert(ifaces.kernel_ifaces[i].1.up_priority is None);
    }
    let resolved = up.all_ports_resolved();
    assert forall|i: int| 0 <= i < resolved.kernel_ifaces.len() implies (
    #[trigger] resolved.kernel_ifaces[i]).1.up_priority is None by {
        assert(up.kernel_ifaces[i].1.up_priority is None);
    }
    assert forall|i: int| 0 <= i < resolved.user_ifaces.len() implies (
    #[trigger] resolved.user_ifaces[i]).1.up_priority is None by {
        assert(up.user_ifaces[i].1.up_priority is None);
    }
    lemma_unranked_settled(
        resolved,
        post_merge::controllers_from(resolved.all(), 0, Seq::empty()),
        0,
    );
}

/// The desired interface with how the saved one is matched.
fn identify(des: &mut Interface, saved: &Option<Interface>)
    ensures
        final(des)@ == identified(old(des)@, saved.deep_view()),
{
    if let Some(saved) = saved {
        if saved.base.is_by_mac() && des.base.identifier.is_none() {
            des.base.copy_identifier_config_from(&saved.base);
            if des.base.profile_name.is_none() {
                des.base.profile_name = saved.base.profile_name.dup();
            }
        }
    }
}

/// The alternative name of an interface that loses it as its name.
fn gen_former_name(name: &String) -> (res: Vec<AltNameEntry>)
    ensures
        res.deep_view() == seq![AltNameEntryView { name: name@, state: None }],
{
    let mut res: Vec<AltNameEntry> = empty_list();
    push(&mut res, AltNameEntry { name: name.dup(), state: None });
    assert(res.deep_view() =~= seq![AltNameEntryView { name: name@, state: None }]);
    res
}

/// Puts the desired interface under its name in the kernel.
fn resolve_name(des: &mut Interface, current: &Option<Interface>, saved: &Option<Interface>)
    ensures
        final(des)@ == name_resolved(old(des)@, current.deep_view(), saved.deep_view()),
{
    if let Some(cur) = current {
        if des.base.is_by_mac() {
            if des.base.profile_name.is_none() {
                des.base.profile_name = Some(des.base.name.dup());
            }
            if !des.base.kernel_iface_name.as_str().is_empty() && !des.base.kernel_iface_name.same(
                &cur.base.kernel_iface_name,
            ) {
                des.base.name = des.base.kernel_iface_name.dup();
                let saved_alt_names = match saved {
                    Some(saved) => saved.base.alt_names.is_some(),
                    None => false,
                };
                if des.base.alt_names.is_none() && !saved_alt_names {
                    des.base.alt_names = Some(gen_former_name(&cur.base.kernel_iface_name));
                }
            } else {
                des.base.name = cur.base.kernel_iface_name.dup();
                des.base.kernel_iface_name = cur.base.kernel_iface_name.dup();
            }
        }
    }
}

/// The saved interface for a desired one.
fn find_saved(
    found: Option<Interface>,
    des: &Interface,
    current: &Option<Interface>,
    saved: &Option<Interfaces>,
) -> (res: Option<Interface>)
    ensures
        res.deep_view() == saved_or_same_name(
            found.deep_view(),
            des@,
            current.deep_view(),
            saved.deep_view(),
        ),
{
    if found.is_none() && des.base.is_by_mac() && current.is_some() {
        if let Some(saved) = saved {
            return match saved.kernel_ifaces.get(&des.base.kernel_iface_name) {
                Some(iface) => Some(iface.dup()),
                None => None,
            };
        }
    }
    found
}

/// Adds the name and type of the interface, if there is one.
fn add_used(names: &mut Vec<(String, InterfaceType)>, iface: &Option<Interface>)
    ensures
        final(names).deep_view() == with_used(old(names).deep_view(), iface.deep_view()),
{
    if let Some(iface) = iface {
        push(names, iface.name_and_type());
    }
}

impl MergeProgress {
    /// Merges a desired interface.
    fn add_desired(
        &mut self,
        des: Interface,
        current: &Interfaces,
        saved: &Option<Interfaces>,
        force: bool,
    ) -> (res: Result<(), NipartError>)
        requires
            is_unranked(old(self)@.ifaces),
        ensures
            match old(self)@.with_desired(des@, current@, saved.deep_view(), force) {
                Ok(next) => res is Ok && final(self)@ == next,
                Err(e) => res is Err && res->Err_0@ == e,
            },
            res is Ok ==> is_unranked(final(self)@.ifaces)
                && final(self)@.ifaces.insert_order.len()
                <= old(self)@.ifaces.insert_order.len() + 1,
    {
        if des.is_ignore() {
            return Ok(());
        }
        let mut des = des;
        let found = match saved {
            Some(saved) => saved.get_matched_iface_from_save(&des.base),
            None => None,
        };
        identify(&mut des, &found);
        let cur = match current.get_matched_iface_from_current(&des.base) {
            Ok(cur) => cur,
            Err(e) => {
                return Err(e);
            },
        };
        resolve_name(&mut des, &cur, &found);
        let saved_iface = find_saved(found, &des, &cur, saved);
        let mut used_saved = self.used_saved.dup();
        add_used(&mut used_saved, &saved_iface);
        let mut used_current = self.used_current.dup();
        add_used(&mut used_current, &cur);
        match MergedInterface::new(Some(des), cur, saved_iface, force) {
            Ok(merged) => {
                proof {
                    lemma_unranked_push(self@.ifaces, merged@);
                }
                self.ifaces.push(merged);
                self.used_saved = used_saved;
                self.used_current = used_current;
                Ok(())
            },
            Err(e) => Err(e),
        }
    }

    /// Merges an interface that no desired one is about.
    fn add_untouched(&mut self, current: Option<Interface>, saved: Option<Interface>)
        requires
            is_unranked(old(self)@.ifaces),
        ensures
            final(self)@ == (MergeProgressView {
                ifaces: old(self)@.ifaces.pushed(
                    merged_iface::untouched(current.deep_view(), saved.deep_view()),
                ),
                ..old(self)@
            }),
            is_unranked(final(self)@.ifaces),
            final(self)@.ifaces.insert_order.len() <= old(self)@.ifaces.insert_order.len() + 1,
    {
        if let Ok(merged) = MergedInterface::new(None, current, saved, false) {
            proof {
                lemma_unranked_push(self@.ifaces, merged@);
            }
            self.ifaces.push(merged);
        }
    }

    /// Merges the desired interfaces.
    fn add_all_desired(
        &mut self,
        list: Vec<Interface>,
        current: &Interfaces,
        saved: &Option<Interfaces>,
        force: bool,
    ) -> (res: Result<(), NipartError>)
        requires
            is_unranked(old(self)@.ifaces),
        ensures
            match old(self)@.with_desired_from(
                list.deep_view(),
                current@,
                saved.deep_view(),
                force,
                0,
            ) {
                Ok(next) => res is Ok && final(self)@ == next,
                Err(e) => res is Err && res->Err_0@ == e,
            },
            res is Ok ==> is_unranked(final(self)@.ifaces)
                && final(self)@.ifaces.insert_order.len() <= old(self)@.ifaces.insert_order.len()
                + list.len(),
    {
        let ghost views = list.deep_view();
        let ghost saved_view = saved.deep_view();
        let mut i: usize = 0;
        while i < list.len()
            invariant
                i <= list.len(),
                views == list.deep_view(),
                saved_view == saved.deep_view(),
                is_unranked(self@.ifaces),
                self@.ifaces.insert_order.len() <= old(self)@.ifaces.insert_order.len() + i,
                old(self)@.with_desired_from(views, current@, saved_view, force, 0)
                    == self@.with_desired_from(views, current@, saved_view, force, i as int),
            decreases list.len() - i,
        {
            assert(views[i as int] == list[i as int]@);
            if let Err(e) = self.add_desired(list[i].dup(), current, saved, force) {
                return Err(e);
            }
            i = i + 1;
        }
        Ok(())
    }

    /// Merges the current interfaces that no desired one is about.
    fn add_all_current(&mut self, list: Vec<Interface>)
        requires
            is_unranked(old(self)@.ifaces),
        ensures
            final(self)@ == old(self)@.with_current_from(list.deep_view(), 0),
            is_unranked(final(self)@.ifaces),
            final(self)@.ifaces.insert_order.len() <= old(self)@.ifaces.insert_order.len()
                + list.len(),
    {
        let ghost views = list.deep_view();
        let mut i: usize = 0;
        while i < list.len()
            invariant
                i <= list.len(),
                views == list.deep_view(),
                is_unranked(self@.ifaces),
                self@.ifaces.insert_order.len() <= old(self)@.ifaces.insert_order.len() + i,
                old(self)@.with_current_from(views, 0) == self@.with_current_from(views, i as int),
            decreases list.len() - i,
        {
            assert(views[i as int] == list[i as int]@);
            if !contains(&self.used_current, &list[i].name_and_type()) {
                self.add_untouched(Some(list[i].dup()), None);
            }
            i = i + 1;
        }
    }

    /// Merges the saved interfaces that no desired one is about.
    fn add_all_saved(&mut self, list: Vec<Interface>)
        requires
            is_unranked(old(self)@.ifaces),
        ensures
            final(self)@ == old(self)@.with_saved_from(list.deep_view(), 0),
            is_unranked(final(self)@.ifaces),
            final(self)@.ifaces.insert_order.len() <= old(self)@.ifaces.insert_order.len()
                + list.len(),
    {
        let ghost views = list.deep_view();
        let mut i: usize = 0;
        while i < list.len()
            invariant
                i <= list.len(),
                views == list.deep_view(),
                is_unranked(self@.ifaces),
                self@.ifaces.insert_order.len() <= old(self)@.ifaces.insert_order.len() + i,
                old(self)@.with_saved_from(views, 0) == self@.with_saved_from(views, i as int),
            decreases list.len() - i,
        {
            assert(views[i as int] == list[i as int]@);
            if !contains(&self.used_saved, &list[i].name_and_type()) {
                self.add_untouched(None, Some(list[i].dup()));
            }
            i = i + 1;
        }
    }
}

/// Merges all interfaces one by one.
fn merge_one_by_one(
    desired: Interfaces,
    current: Interfaces,
    saved: Option<Interfaces>,
    force: bool,
) -> (res: Result<MergedInterfaces, NipartError>)
    ensures
        error::same_result(res, one_by_one(desired@, current@, saved.deep_view(), force)),
        res is Ok ==> is_unranked(res->Ok_0@) && res->Ok_0@.insert_order.len() <= 2
            * desired@.insert_order.len() + current@.insert_order.len() + saved_len(
            saved.deep_view(),
        ),
{
    let ghost des_view = desired@;
    let ghost cur_view = current@;
    let mut unified_desired = desired;
    let mut unified_current = current.dup();
    unified_desired.unify_veth_and_ethernet();
    unified_current.unify_veth_and_ethernet();
    proof {
        lemma_expanded_len(unified_desired@, unified_current@);
    }
    expand_wifi_cfg_to_connected_phy(&mut unified_desired, &unified_current);
    let mut progress = MergeProgress {
        ifaces: MergedInterfaces { current, ..MergedInterfaces::default() },
        used_saved: empty_list(),
        used_current: empty_list(),
    };
    assert(progress@ == MergeProgressView::start(cur_view));
    proof {
        lemma_list_len(unified_desired@, 0, Seq::empty());
        lemma_list_len(unified_current@, 0, Seq::empty());
    }
    let list = unified_desired.to_list();
    if let Err(e) = progress.add_all_desired(list, &unified_current, &saved, force) {
        return Err(e);
    }
    progress.add_all_current(unified_current.to_list());
    if let Some(saved) = &saved {
        proof {
            lemma_list_len(saved@, 0, Seq::empty());
        }
        progress.add_all_saved(saved.to_list());
    }
    Ok(progress.ifaces)
}

impl MergedInterfaces {
    /// Merges the desired, the current and the saved interfaces.
    pub fn new(desired: Interfaces, current: Interfaces, saved: Option<Interfaces>) -> (res: Result<
        Self,
        NipartError,
    >)
        requires
            has_room(desired@, current@, saved.deep_view()),
        ensures
            error::same_result(res, plainly_merged(desired@, current@, saved.deep_view())),
    {
        Self::new_with_force(desired, current, saved, false)
    }

    /// Same as [MergedInterfaces::new], but when `force` is true every
    /// desired interface uses its full merged config for apply even when the
    /// kernel already matches it. This is used by explicit actions which must
    /// restart services (DHCP, WIFI) rather than only applying differences.
    pub fn new_with_force(
        desired: Interfaces,
        current: Interfaces,
        saved: Option<Interfaces>,
        force: bool,
    ) -> (res: Result<Self, NipartError>)
        requires
            has_room(desired@, current@, saved.deep_view()),
        ensures
            error::same_result(res, merged(desired@, current@, saved.deep_view(), force)),
    {
        let mut all = match merge_one_by_one(desired, current, saved, force) {
            Ok(all) => all,
            Err(e) => {
                return Err(e);
            },
        };
        let search = IfaceSearch::new(&all.gen_merged_state().to_list());
        all.iface_search = search;
        proof {
            lemma_unranked_sanitized(all@);
        }
        if let Err(e) = all.post_merge_sanitize() {
            return Err(e);
        }
        if let Err(e) = all.validate_alt_names() {
            return Err(e);
        }
        assert(all@.priorities_within(0));
        if let Err(e) = all.set_up_priority() {
            return Err(e);
        }
        all.mark_will_delete();
        Ok(all)
    }
}

/// The error of an interface that is there although it should not.
pub open spec fn still_found(des: InterfaceView, cur: InterfaceView) -> NipartErrorView {
    NipartErrorView {
        kind: ErrorKind::VerificationError,
        msg: "Absent/Down interface "@ + des.base.name + "/"@ + des.base.iface_type.kebab_name()
            + " still found as "@ + cur.base.iface_type.variant(),
    }
}

/// The error of an interface that is not there.
pub open spec fn not_found(des: InterfaceView) -> NipartErrorView {
    NipartErrorView {
        kind: ErrorKind::VerificationError,
        msg: "Failed to find desired interface "@ + des.base.name + " "@
            + des.base.iface_type.variant(),
    }
}

/// The current interface that has to show what is desired.
pub open spec fn shown_iface(des: InterfaceView, current: InterfacesView) -> Option<InterfaceView> {
    if des.base.iface_type.userspace() {
        keymap::lookup(current.user_ifaces, name_and_type(des))
    } else if des.base.kernel_iface_name.len() > 0 {
        keymap::lookup(current.kernel_ifaces, des.base.kernel_iface_name)
    } else {
        keymap::lookup(current.kernel_ifaces, des.base.name)
    }
}

/// Whether the host shows what is desired of one interface. One that is to be
/// gone may be there only when it is hardware, and hardware that is down is
/// not compared.
pub open spec fn iface_verified(des: InterfaceView, current: InterfacesView) -> Result<
    (),
    NipartErrorView,
> {
    let cur = shown_iface(des, current);
    if des.base.state is Absent || (des.is_software() && des.base.state is Down) {
        if cur is Some && cur->0.is_software() {
            Err(still_found(des, cur->0))
        } else {
            Ok(())
        }
    } else if !(des.base.state is Up) {
        Ok(())
    } else {
        match cur {
            Some(cur) => des.verified(cur),
            None => Err(not_found(des)),
        }
    }
}

/// Whether the host shows what is desired of the interfaces from `i` on.
pub open spec fn ifaces_verified_from(
    list: Seq<MergedInterfaceView>,
    current: InterfacesView,
    i: int,
) -> Result<(), NipartErrorView>
    decreases list.len() - i,
{
    if i < 0 || i >= list.len() {
        Ok(())
    } else if list[i].desired is Some && list[i].for_verify is Some {
        match iface_verified(list[i].for_verify->0.secrets_hidden(), current) {
            Err(e) => Err(e),
            Ok(()) => ifaces_verified_from(list, current, i + 1),
        }
    } else {
        ifaces_verified_from(list, current, i + 1)
    }
}

/// `acc` with what undoes the apply of the interfaces from `i` on.
pub open spec fn undone_from(
    list: Seq<MergedInterfaceView>,
    i: int,
    acc: InterfacesView,
) -> InterfacesView
    decreases list.len() - i,
{
    if i < 0 || i >= list.len() {
        acc
    } else {
        match list[i].for_revert {
            Some(iface) => undone_from(list, i + 1, acc.pushed(iface)),
            None => undone_from(list, i + 1, acc),
        }
    }
}

/// An interface that is to be gone must not be there, unless it is hardware,
/// which cannot be removed. What the current interface is decides: the desired
/// one may lack the section of its type.
fn verify_desire_absent_but_found_in_current(des_iface: &Interface, cur_iface: &Interface) -> (res:
    Result<(), NipartError>)
    ensures
        error::same_result(
            res,
            if cur_iface@.is_software() {
                Err(still_found(des_iface@, cur_iface@))
            } else {
                Ok(())
            },
        ),
{
    if cur_iface.is_virtual() {
        Err(
            NipartError::new(
                ErrorKind::VerificationError,
                String::from_str("Absent/Down interface ").concat(
                    des_iface.base.name.as_str(),
                ).concat("/").concat(des_iface.base.iface_type.as_str()).concat(
                    " still found as ",
                ).concat(cur_iface.base.iface_type.variant_name()),
            ),
        )
    } else {
        Ok(())
    }
}

/// Whether the host shows what is desired of one interface.
fn verify_iface(iface: &Interface, current: &Interfaces) -> (res: Result<(), NipartError>)
    ensures
        error::same_result(res, iface_verified(iface@, current@)),
{
    let cur_iface = if iface.is_userspace() {
        current.user_ifaces.get(&iface.name_and_type())
    } else if !iface.kernel_iface_name().is_empty() {
        current.kernel_ifaces.get(&iface.base.kernel_iface_name)
    } else {
        current.kernel_ifaces.get(&iface.base.name)
    };
    if iface.is_absent() || (iface.is_virtual() && iface.is_down()) {
        match cur_iface {
            Some(cur_iface) => verify_desire_absent_but_found_in_current(iface, cur_iface),
            None => Ok(()),
        }
    } else if !iface.is_up() {
        Ok(())
    } else {
        match cur_iface {
            Some(cur_iface) => iface.verify(cur_iface),
            None => Err(
                NipartError::new(
                    ErrorKind::VerificationError,
                    String::from_str("Failed to find desired interface ").concat(
                        iface.base.name.as_str(),
                    ).concat(" ").concat(iface.base.iface_type.variant_name()),
                ),
            ),
        }
    }
}

impl MergedInterfaces {
    /// Whether the host shows what is desired.
    pub fn verify(&self, current: &Interfaces) -> (res: Result<(), NipartError>)
        ensures
            error::same_result(
                res,
                ifaces_verified_from(self@.to_verify(), current@.veth_unified(), 0),
            ),
    {
        let mut unified = current.dup();
        unified.unify_veth_and_ethernet();
        let list = self.list_to_verify();
        let ghost views = list.deep_view();
        let mut i: usize = 0;
        while i < list.len()
            invariant
                i <= list.len(),
                views == list.deep_view(),
                ifaces_verified_from(views, unified@, 0) == ifaces_verified_from(
                    views,
                    unified@,
                    i as int,
                ),
                views == self@.to_verify(),
                unified@ == current@.veth_unified(),
            decreases list.len() - i,
        {
            assert(views[i as int] == list[i as int]@);
            if list[i].is_desired() {
                if let Some(iface) = list[i].for_verify.dup() {
                    let mut iface = iface;
                    iface.hide_secrets();
                    if let Err(e) = verify_iface(&iface, &unified) {
                        return Err(e);
                    }
                }
            }
            i = i + 1;
        }
        Ok(())
    }

    /// What the apply changes.
    pub fn gen_diff(&self) -> (res: Result<Interfaces, NipartError>)
        ensures
            error::same_result(res, Ok(self@.parts(Part::Apply))),
    {
        Ok(self.gen_state_for_apply())
    }

    /// What undoes the apply.
    pub fn generate_revert(&self) -> (res: Result<Interfaces, NipartError>)
        ensures
            error::same_result(res, Ok(undone_from(self@.all(), 0, InterfacesView::none()))),
    {
        let list = self.iter();
        let ghost views = list.deep_view();
        let mut res = Interfaces::default();
        let mut i: usize = 0;
        while i < list.len()
            invariant
                i <= list.len(),
                views == list.deep_view(),
                undone_from(views, 0, InterfacesView::none()) == undone_from(
                    views,
                    i as int,
                    res@,
                ),
            decreases list.len() - i,
        {
            assert(views[i as int] == list[i as int]@);
            if let Some(iface) = &list[i].for_revert {
                res.push(iface.dup());
            }
            i = i + 1;
        }
        Ok(res)
    }
}

/// The host shows what is desired exactly when it shows it of every desired
/// interface that is not only saved.
pub proof fn law_verified(list: Seq<MergedInterfaceView>, current: InterfacesView, i: int)
    requires
        0 <= i <= list.len(),
    ensures
        ifaces_verified_from(list, current, i) is Ok <==> forall|j: int|
            i <= j < list.len() && (#[trigger] list[j]).desired is Some
                && list[j].for_verify is Some ==> iface_verified(
                list[j].for_verify->0.secrets_hidden(),
                current,
            ) is Ok,
    decreases list.len() - i,
{
    if i < list.len() {
        law_verified(list, current, i + 1);
        if ifaces_verified_from(list, current, i) is Err && ifaces_verified_from(
            list,
            current,
            i + 1,
        ) is Ok {
            assert(list[i].desired is Some);
        }
    }
}

/// An interface that is to be gone is not found afterwards, unless it is
/// hardware.
pub proof fn law_gone_is_verified(des: InterfaceView, current: InterfacesView)
    requires
        des.base.state is Absent,
    ensures
        iface_verified(des, current) is Ok <==> shown_iface(des, current) is None
            || !shown_iface(des, current)->0.is_software(),
{
}

/// Whether the host shows the interface as it is to be verified: an interface
/// to be gone is gone, and one to be up is there with all that is desired and
/// nothing to remove from it.
pub open spec fn is_shown(des: InterfaceView, current: InterfacesView) -> bool {
    if des.base.state is Absent || (des.is_software() && des.base.state is Down) {
        shown_iface(des, current) is None
    } else {
        des.base.state is Up ==> {
            &&& shown_iface(des, current) == Some(des)
            &&& des.base.alt_names is Some ==> forall|i: int|
                0 <= i < des.base.alt_names->0.len() ==> (
                #[trigger] des.base.alt_names->0[i]).state is None
        }
    }
}

/// An apply that took effect passes verification: a host that shows every
/// desired interface as it is to be verified has nothing to complain about.
pub proof fn law_applied_is_verified(list: Seq<MergedInterfaceView>, current: InterfacesView)
    requires
        forall|j: int|
            0 <= j < list.len() && (#[trigger] list[j]).desired is Some
                && list[j].for_verify is Some ==> is_shown(
                list[j].for_verify->0.secrets_hidden(),
                current,
            ),
    ensures
        ifaces_verified_from(list, current, 0) is Ok,
{
    assert forall|j: int|
        0 <= j < list.len() && (#[trigger] list[j]).desired is Some
            && list[j].for_verify is Some implies iface_verified(
        list[j].for_verify->0.secrets_hidden(),
        current,
    ) is Ok by {
        let des = list[j].for_verify->0.secrets_hidden();
        assert(is_shown(des, current));
        if des.base.state is Up {
            merged_iface::law_shown_is_verified(des);
        }
    }
    law_verified(list, current, 0);
}

/// A desired interface that is matched by its MAC address takes the name in the
/// kernel of the current one, unless it names another one: then the interface
/// is renamed, and keeps its former name as an alternative one where neither
/// the desired nor the saved configuration has alternative names. Its own name
/// becomes that of its profile.
pub proof fn law_renamed(des: InterfaceView, cur: InterfaceView, saved: Option<InterfaceView>)
    requires
        des.base.by_mac(),
    ensures
        ({
            let resolved = name_resolved(des, Some(cur), saved).base;
            let renamed = des.base.kernel_iface_name.len() > 0 && des.base.kernel_iface_name
                != cur.base.kernel_iface_name;
            &&& resolved.name == resolved.kernel_iface_name
            &&& resolved.kernel_iface_name == (if renamed {
                des.base.kernel_iface_name
            } else {
                cur.base.kernel_iface_name
            })
            &&& des.base.profile_name is None ==> resolved.profile_name == Some(des.base.name)
            &&& des.base.profile_name is Some ==> resolved.profile_name == des.base.profile_name
            &&& des.base.alt_names is Some || !renamed ==> resolved.alt_names
                == des.base.alt_names
            &&& renamed && des.base.alt_names is None && (saved is None
                || saved->0.base.alt_names is None) ==> resolved.alt_names is Some
                && merged_iface::has_alt_name(
                resolved.alt_names->0,
                cur.base.kernel_iface_name,
            )
        }),
{
    let entry = AltNameEntryView { name: cur.base.kernel_iface_name, state: None };
    assert(seq![entry][0] == entry);
}

/// A plain merge is a merge without force, whatever is merged.
pub proof fn law_plain_merge(
    desired: InterfacesView,
    current: InterfacesView,
    saved: Option<InterfacesView>,
)
    ensures
        plainly_merged(desired, current, saved) == merged(desired, current, saved, false),
{
}

/// The interface of the host that is to show the desired one: one that the
/// kernel does not have is found by its name and type, any other one by its
/// name in the kernel, or by its name where it has none there.
pub open spec fn host_iface(des: InterfaceView, host: InterfacesView) -> Option<InterfaceView> {
    if des.base.iface_type is OvsBridge || des.base.iface_type is WifiCfg {
        keymap::lookup(host.user_ifaces, (des.base.name, des.base.iface_type))
    } else if des.base.kernel_iface_name.len() > 0 {
        keymap::lookup(host.kernel_ifaces, des.base.kernel_iface_name)
    } else {
        keymap::lookup(host.kernel_ifaces, des.base.name)
    }
}

/// Whether the host is as desired of an interface: one that is absent, or down
/// and exists in software only, is gone, unless what the host has is hardware;
/// and one that is up is there with every property that it defines.
pub open spec fn is_as_desired(des: InterfaceView, host: InterfacesView) -> bool {
    let found = host_iface(des, host);
    if des.base.state is Absent || (des.base.state is Down && des.is_software()) {
        found is None || !ifaces::veth_to_ethernet(found->0).is_software()
    } else if des.base.state is Up {
        found is Some && merged_iface::shows(found->0, des)
    } else {
        true
    }
}

/// A map whose values are changed one by one holds the changed values.
proof fn lemma_unified<K>(map: Seq<(K, InterfaceView)>, key: K)
    ensures
        keymap::lookup(
            Seq::new(map.len(), |i: int| (map[i].0, ifaces::veth_to_ethernet(map[i].1))),
            key,
        ) == match keymap::lookup(map, key) {
            Some(iface) => Some(ifaces::veth_to_ethernet(iface)),
            None => None,
        },
{
    let unified = Seq::new(map.len(), |i: int| (map[i].0, ifaces::veth_to_ethernet(map[i].1)));
    keymap::lemma_same_entries(map, unified, key, 0);
    keymap::lemma_entry_from(map, key, 0);
}

/// Verification of an interface succeeds exactly when the host is as desired of
/// it.
pub proof fn law_iface_verified(des: InterfaceView, host: InterfacesView)
    ensures
        iface_verified(des.secrets_hidden(), host.veth_unified()) is Ok <==> is_as_desired(
            des,
            host,
        ),
{
    let hidden = des.secrets_hidden();
    lemma_unified(host.user_ifaces, (des.base.name, des.base.iface_type));
    lemma_unified(host.kernel_ifaces, des.base.kernel_iface_name);
    lemma_unified(host.kernel_ifaces, des.base.name);
    if let Some(found) = host_iface(des, host) {
        merged_iface::law_verified(hidden, ifaces::veth_to_ethernet(found));
        assert(merged_iface::shows(ifaces::veth_to_ethernet(found), hidden)
            == merged_iface::shows(found, des));
    }
}

/// Verification of the interfaces succeeds exactly when the host is as desired
/// of every one of them that is desired and not only to be saved.
pub proof fn law_ifaces_verified(all: MergedInterfacesView, host: InterfacesView)
    ensures
        ifaces_verified_from(all.to_verify(), host.veth_unified(), 0) is Ok <==> {
            &&& forall|i: int|
                0 <= i < all.kernel_ifaces.len() && (
                #[trigger] all.kernel_ifaces[i]).1.desired is Some
                    && all.kernel_ifaces[i].1.for_verify is Some ==> is_as_desired(
                    all.kernel_ifaces[i].1.for_verify->0,
                    host,
                )
            &&& forall|i: int|
                0 <= i < all.user_ifaces.len() && (
                #[trigger] all.user_ifaces[i]).1.desired is Some
                    && all.user_ifaces[i].1.for_verify is Some ==> is_as_desired(
                    all.user_ifaces[i].1.for_verify->0,
                    host,
                )
        },
{
    let list = all.to_verify();
    let users = all.user_ifaces.len() as int;
    law_verified(list, host.veth_unified(), 0);
    assert forall|i: int|
        0 <= i < list.len() && (#[trigger] list[i]).desired is Some
            && list[i].for_verify is Some implies (iface_verified(
        list[i].for_verify->0.secrets_hidden(),
        host.veth_unified(),
    ) is Ok) == is_as_desired(list[i].for_verify->0, host) by {
        law_iface_verified(list[i].for_verify->0, host);
    }
    assert(forall|i: int| 0 <= i < users ==> list[i] == (#[trigger] all.user_ifaces[i]).1);
    assert(forall|i: int|
        0 <= i < all.kernel_ifaces.len() ==> list[users + i] == (
        #[trigger] all.kernel_ifaces[i]).1);
    assert(forall|i: int|
        users <= i < list.len() ==> (#[trigger] list[i]) == all.kernel_ifaces[i - users].1);
    assert(forall|i: int| 0 <= i < users ==> (#[trigger] list[i]) == all.user_ifaces[i].1);
    if ifaces_verified_from(list, host.veth_unified(), 0) is Ok {
        assert forall|i: int|
            0 <= i < all.kernel_ifaces.len() && (
            #[trigger] all.kernel_ifaces[i]).1.desired is Some
                && all.kernel_ifaces[i].1.for_verify is Some implies is_as_desired(
            all.kernel_ifaces[i].1.for_verify->0,
            host,
        ) by {
            assert(list[users + i].desired is Some);
        }
        assert forall|i: int|
            0 <= i < all.user_ifaces.len() && (#[trigger] all.user_ifaces[i]).1.desired is Some
                && all.user_ifaces[i].1.for_verify is Some implies is_as_desired(
            all.user_ifaces[i].1.for_verify->0,
            host,
        ) by {
            assert(list[i].desired is Some);
        }
    }
}

/// What undoes an apply has the undo of every merged interface, and nothing
/// else.
proof fn lemma_undone(
    list: Seq<MergedInterfaceView>,
    i: int,
    acc: InterfacesView,
    name: Seq<char>,
    iface_type: InterfaceType,
)
    requires
        0 <= i <= list.len(),
        acc.valid(),
    ensures
        ({
            let all = undone_from(list, i, acc);
            &&& all.valid()
            &&& acc.find(name, iface_type) is Some ==> all.find(name, iface_type) is Some
            &&& all.find(name, iface_type) is Some ==> all.find(name, iface_type) == acc.find(
                name,
                iface_type,
            ) || exists|j: int|
                i <= j < list.len() && (#[trigger] list[j]).for_revert is Some
                    && ifaces::same_place(
                    (name, iface_type),
                    ifaces::place_of(list[j].for_revert->0),
                ) && all.find(name, iface_type) == Some(
                    ifaces::registered(list[j].for_revert->0),
                )
            &&& forall|j: int|
                i <= j < list.len() && (#[trigger] list[j]).for_revert is Some
                    && ifaces::same_place(
                    (name, iface_type),
                    ifaces::place_of(list[j].for_revert->0),
                ) ==> all.find(name, iface_type) is Some
        }),
    decreases list.len() - i,
{
    if i < list.len() {
        match list[i].for_revert {
            Some(undo) => {
                ifaces::law_pushed(acc, undo, name, iface_type);
                let next = acc.pushed(undo);
                if ifaces::same_place((name, iface_type), ifaces::place_of(undo)) {
                    assert(next.find(name, iface_type) == next.find_same(undo.base));
                }
                lemma_undone(list, i + 1, next, name, iface_type);
            },
            None => {
                lemma_undone(list, i + 1, acc, name, iface_type);
            },
        }
    }
}

/// The revert of merged interfaces has an interface exactly where one of them
/// has something to undo, and it is what undoes one of those in that place.
pub proof fn law_ifaces_reverted(
    all: MergedInterfacesView,
    name: Seq<char>,
    iface_type: InterfaceType,
)
    ensures
        ({
            let undo = undone_from(all.all(), 0, InterfacesView::none());
            let found = undo.find(name, iface_type);
            &&& undo.valid()
            &&& found is Some <==> exists|i: int|
                0 <= i < all.all().len() && (#[trigger] all.all()[i]).for_revert is Some
                    && ifaces::same_place(
                    (name, iface_type),
                    ifaces::place_of(all.all()[i].for_revert->0),
                )
            &&& found is Some ==> exists|i: int|
                0 <= i < all.all().len() && (#[trigger] all.all()[i]).for_revert is Some
                    && ifaces::same_place(
                    (name, iface_type),
                    ifaces::place_of(all.all()[i].for_revert->0),
                ) && found == Some(ifaces::registered(all.all()[i].for_revert->0))
        }),
{
    let none = InterfacesView::none();
    assert(none.valid());
    assert(none.find(name, iface_type) is None);
    lemma_undone(all.all(), 0, none, name, iface_type);
}

/// One more merged interface takes at most one more place in the order.
proof fn lemma_order_grows(ifaces: MergedInterfacesView, iface: MergedInterfaceView)
    ensures
        ifaces.pushed(iface).insert_order.len() <= ifaces.insert_order.len() + 1,
{
}

/// Merging desired interfaces gives none a priority.
proof fn lemma_desired_unranked(
    progress: MergeProgressView,
    list: Seq<InterfaceView>,
    current: InterfacesView,
    saved: Option<InterfacesView>,
    force: bool,
    i: int,
)
    requires
        0 <= i <= list.len(),
        is_unranked(progress.ifaces),
        progress.with_desired_from(list, current, saved, force, i) is Ok,
    ensures
        ({
            let after = progress.with_desired_from(list, current, saved, force, i)->Ok_0.ifaces;
            &&& is_unranked(after)
            &&& after.insert_order.len() <= progress.ifaces.insert_order.len() + list.len() - i
        }),
    decreases list.len() - i,
{
    if i < list.len() {
        let des = list[i];
        let next = progress.with_desired(des, current, saved, force)->Ok_0;
        if !(des.base.state is Ignore) {
            let found = saved_for(saved, des);
            let known = identified(des, found);
            let cur = current.current_for(known.base)->Ok_0;
            let resolved = name_resolved(known, cur, found);
            let saved_iface = saved_or_same_name(found, resolved, cur, saved);
            let merged = merged_iface::merged_iface(
                Some(resolved),
                cur,
                saved_iface,
                force,
            )->Ok_0;
            lemma_unranked_push(progress.ifaces, merged);
            lemma_order_grows(progress.ifaces, merged);
        }
        lemma_desired_unranked(next, list, current, saved, force, i + 1);
    }
}

/// Merging current interfaces gives none a priority.
proof fn lemma_current_unranked(progress: MergeProgressView, list: Seq<InterfaceView>, i: int)
    requires
        0 <= i <= list.len(),
        is_unranked(progress.ifaces),
    ensures
        is_unranked(progress.with_current_from(list, i).ifaces),
        progress.with_current_from(list, i).ifaces.insert_order.len()
            <= progress.ifaces.insert_order.len() + list.len() - i,
    decreases list.len() - i,
{
    if i < list.len() {
        let own = merged_iface::untouched(Some(list[i]), None);
        lemma_unranked_push(progress.ifaces, own);
        lemma_order_grows(progress.ifaces, own);
        if progress.used_current.contains(name_and_type(list[i])) {
            lemma_current_unranked(progress, list, i + 1);
        } else {
            lemma_current_unranked(
                MergeProgressView { ifaces: progress.ifaces.pushed(own), ..progress },
                list,
                i + 1,
            );
        }
    }
}

/// Merging saved interfaces gives none a priority.
proof fn lemma_saved_unranked(progress: MergeProgressView, list: Seq<InterfaceView>, i: int)
    requires
        0 <= i <= list.len(),
        is_unranked(progress.ifaces),
    ensures
        is_unranked(progress.with_saved_from(list, i).ifaces),
        progress.with_saved_from(list, i).ifaces.insert_order.len()
            <= progress.ifaces.insert_order.len() + list.len() - i,
    decreases list.len() - i,
{
    if i < list.len() {
        let own = merged_iface::untouched(None, Some(list[i]));
        lemma_unranked_push(progress.ifaces, own);
        lemma_order_grows(progress.ifaces, own);
        if progress.used_saved.contains(name_and_type(list[i])) {
            lemma_saved_unranked(progress, list, i + 1);
        } else {
            lemma_saved_unranked(
                MergeProgressView { ifaces: progress.ifaces.pushed(own), ..progress },
                list,
                i + 1,
            );
        }
    }
}

/// The interfaces that are ranked in the end start without priorities, and
/// their number leaves room for them.
pub proof fn lemma_merged_unranked(
    desired: InterfacesView,
    current: InterfacesView,
    saved: Option<InterfacesView>,
    force: bool,
) -> (start: MergedInterfacesView)
    requires
        has_room(desired, current, saved),
        merged(desired, current, saved, force) is Ok,
    ensures
        is_unranked(start),
        8 * start.insert_order.len() <= u32::MAX,
        start.prioritized(4) is Ok,
        merged(desired, current, saved, force)->Ok_0 == start.prioritized(
            4,
        )->Ok_0.deletes_marked(),
{
    let cur = current.veth_unified();
    let unified = desired.veth_unified();
    let des = wifi::expanded(unified, cur);
    let first = MergeProgressView::start(current);
    let second = first.with_desired_from(des.list(), cur, saved, force, 0)->Ok_0;
    let third = second.with_current_from(cur.list(), 0);
    lemma_expanded_len(unified, cur);
    lemma_list_len(des, 0, Seq::empty());
    lemma_list_len(cur, 0, Seq::empty());
    lemma_desired_unranked(first, des.list(), cur, saved, force, 0);
    lemma_current_unranked(second, cur.list(), 0);
    if let Some(saved) = saved {
        lemma_list_len(saved, 0, Seq::empty());
        lemma_saved_unranked(third, saved.list(), 0);
    }
    let all = one_by_one(desired, current, saved, force)->Ok_0;
    let searched = MergedInterfacesView {
        iface_search: ifaces::search_of(all.parts(Part::Merged).list()),
        ..all
    };
    lemma_unranked_sanitized(searched);
    searched.sanitized()->Ok_0
}

} // verus!
