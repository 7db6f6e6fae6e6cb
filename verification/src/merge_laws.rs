//! What holds of merging interfaces as a whole.

use vstd::prelude::*;

use crate::alt_names;
use crate::iface::{InterfaceType, InterfaceView};
use crate::ifaces;
use crate::ifaces::InterfacesView;
use crate::keymap;
use crate::merge_ifaces;
use crate::merge_ifaces::MergeProgressView;
use crate::merged_iface;
use crate::merged_iface::MergedInterfaceView;
use crate::merged_ifaces;
use crate::merged_ifaces::{MergedInterfacesView, Part, RankedInterface, RankedInterfaceView};
use crate::merged_net_state;
use crate::merged_net_state::NipartApplyOptionView;
use crate::merged_route;
use crate::merged_route::{IfaceFlag, IfaceListsView, RouteSetsView};
use crate::merged_route_rule;
use crate::net_state::NetworkStateView;
use crate::order;
use crate::post_merge;
use crate::route;
use crate::route::{RouteEntryView, RoutesView};
use crate::route_rule::{RouteRuleEntryView, RouteRulesView};
use crate::up_priority;
use crate::wifi;

verus! {

/// Whether nothing is to be done with the interface.
pub open spec fn is_idle(iface: MergedInterfaceView) -> bool {
    &&& iface.desired is None
    &&& iface.for_apply is None
    &&& iface.for_verify is None
    &&& iface.for_revert is None
    &&& !iface.will_delete
}

/// Whether nothing is to be done with any interface.
pub open spec fn all_idle(ifaces: MergedInterfacesView) -> bool {
    &&& forall|i: int|
        0 <= i < ifaces.kernel_ifaces.len() ==> is_idle((#[trigger] ifaces.kernel_ifaces[i]).1)
    &&& forall|i: int|
        0 <= i < ifaces.user_ifaces.len() ==> is_idle((#[trigger] ifaces.user_ifaces[i]).1)
}

/// The key under which a saved interface is kept that is neither desired nor
/// present.
pub open spec fn saved_place(saved: InterfaceView) -> (Seq<char>, InterfaceType) {
    if saved.base.iface_type.userspace() {
        (saved.base.name, saved.base.iface_type)
    } else {
        (merged_ifaces::saved_key(saved), saved.base.iface_type)
    }
}

/// What a map of idle interfaces holds is idle, and stays so with one more.
proof fn lemma_idle_insert<K>(
    map: Seq<(K, MergedInterfaceView)>,
    key: K,
    iface: MergedInterfaceView,
)
    requires
        forall|i: int| 0 <= i < map.len() ==> is_idle((#[trigger] map[i]).1),
        is_idle(iface),
    ensures
        keymap::lookup(map, key) is Some ==> is_idle(keymap::lookup(map, key)->0),
        forall|i: int|
            0 <= i < keymap::inserted(map, key, iface).len() ==> is_idle(
                (#[trigger] keymap::inserted(map, key, iface)[i]).1,
            ),
{
    keymap::lemma_entry_from(map, key, 0);
    let next = keymap::inserted(map, key, iface);
    if keymap::has(map, key) {
        assert(is_idle(map[keymap::entry(map, key)].1));
    }
    assert forall|i: int| 0 <= i < next.len() implies is_idle((#[trigger] next[i]).1) by {
        if i < map.len() {
            assert(is_idle(map[i].1));
        }
    }
}

/// Adding an idle interface leaves all idle.
proof fn lemma_idle_push(ifaces: MergedInterfacesView, iface: MergedInterfaceView)
    requires
        all_idle(ifaces),
        is_idle(iface),
    ensures
        all_idle(ifaces.pushed(iface)),
{
    let base = iface.merged.base;
    lemma_idle_insert(ifaces.kernel_ifaces, base.kernel_iface_name, iface);
    lemma_idle_insert(ifaces.user_ifaces, (base.name, base.iface_type), iface);
    if let Some(saved) = iface.for_save {
        let key = merged_ifaces::saved_key(saved);
        let user_key = (saved.base.name, saved.base.iface_type);
        lemma_idle_insert(ifaces.kernel_ifaces, key, iface);
        lemma_idle_insert(ifaces.user_ifaces, user_key, iface);
        if let Some(existing) = keymap::lookup(ifaces.kernel_ifaces, key) {
            lemma_idle_insert(
                ifaces.kernel_ifaces,
                key,
                merged_ifaces::with_saved(existing, iface.for_save),
            );
        }
        if let Some(existing) = keymap::lookup(ifaces.user_ifaces, user_key) {
            lemma_idle_insert(
                ifaces.user_ifaces,
                user_key,
                merged_ifaces::with_saved(existing, iface.for_save),
            );
        }
    }
}

/// Current interfaces that are not desired are idle, and nothing is saved of
/// them.
proof fn lemma_idle_current(progress: MergeProgressView, list: Seq<InterfaceView>, i: int)
    requires
        all_idle(progress.ifaces),
        0 <= i,
    ensures
        all_idle(progress.with_current_from(list, i).ifaces),
        progress.with_current_from(list, i).used_saved == progress.used_saved,
    decreases list.len() - i,
{
    if i < list.len() {
        if progress.used_current.contains(merge_ifaces::name_and_type(list[i])) {
            lemma_idle_current(progress, list, i + 1);
        } else {
            let iface = merged_iface::untouched(Some(list[i]), None);
            lemma_idle_push(progress.ifaces, iface);
            lemma_idle_current(
                MergeProgressView { ifaces: progress.ifaces.pushed(iface), ..progress },
                list,
                i + 1,
            );
        }
    }
}

/// Saved interfaces that are not desired are idle.
proof fn lemma_idle_saved(progress: MergeProgressView, list: Seq<InterfaceView>, i: int)
    requires
        all_idle(progress.ifaces),
        0 <= i,
    ensures
        all_idle(progress.with_saved_from(list, i).ifaces),
    decreases list.len() - i,
{
    if i < list.len() {
        if progress.used_saved.contains(merge_ifaces::name_and_type(list[i])) {
            lemma_idle_saved(progress, list, i + 1);
        } else {
            let iface = merged_iface::untouched(None, Some(list[i]));
            lemma_idle_push(progress.ifaces, iface);
            lemma_idle_saved(
                MergeProgressView { ifaces: progress.ifaces.pushed(iface), ..progress },
                list,
                i + 1,
            );
        }
    }
}

/// Idle WIFI configurations are bound to no device.
proof fn lemma_idle_phys(
    user_ifaces: Seq<((Seq<char>, InterfaceType), MergedInterfaceView)>,
    search: ifaces::IfaceSearchView,
    i: int,
    acc: Seq<Seq<char>>,
)
    requires
        forall|j: int| 0 <= j < user_ifaces.len() ==> is_idle((#[trigger] user_ifaces[j]).1),
        0 <= i,
    ensures
        post_merge::bound_phys_from(user_ifaces, search, i, acc) == acc,
    decreases user_ifaces.len() - i,
{
    if i < user_ifaces.len() {
        assert(is_idle(user_ifaces[i].1));
        lemma_idle_phys(user_ifaces, search, i + 1, acc);
    }
}

/// Idle interfaces are no controllers to bring up.
proof fn lemma_idle_controllers(
    list: Seq<MergedInterfaceView>,
    i: int,
    acc: Seq<post_merge::ControllerPortsView>,
)
    requires
        forall|j: int| 0 <= j < list.len() ==> is_idle(#[trigger] list[j]),
        0 <= i,
    ensures
        post_merge::controllers_from(list, i, acc) == acc,
    decreases list.len() - i,
{
    if i < list.len() {
        assert(is_idle(list[i]));
        lemma_idle_controllers(list, i + 1, acc);
    }
}

/// The list of idle interfaces holds idle ones.
proof fn lemma_idle_all(ifaces: MergedInterfacesView)
    requires
        all_idle(ifaces),
    ensures
        forall|j: int| 0 <= j < ifaces.all().len() ==> is_idle(#[trigger] ifaces.all()[j]),
        forall|j: int|
            0 <= j < ifaces.to_verify().len() ==> is_idle(#[trigger] ifaces.to_verify()[j]),
{
    assert forall|j: int| 0 <= j < ifaces.all().len() implies is_idle(
        #[trigger] ifaces.all()[j],
    ) by {
        if j < ifaces.kernel_ifaces.len() {
            assert(is_idle(ifaces.kernel_ifaces[j].1));
        } else {
            assert(is_idle(ifaces.user_ifaces[j - ifaces.kernel_ifaces.len()].1));
        }
    }
    assert forall|j: int| 0 <= j < ifaces.to_verify().len() implies is_idle(
        #[trigger] ifaces.to_verify()[j],
    ) by {
        if j < ifaces.user_ifaces.len() {
            assert(is_idle(ifaces.user_ifaces[j].1));
        } else {
            assert(is_idle(ifaces.kernel_ifaces[j - ifaces.user_ifaces.len()].1));
        }
    }
}

/// Idle interfaces mean nothing for each other.
proof fn lemma_idle_sanitized(ifaces: MergedInterfacesView)
    requires
        all_idle(ifaces),
    ensures
        ifaces.sanitized() == Ok::<_, crate::error::NipartErrorView>(ifaces.all_ports_resolved()),
        all_idle(ifaces.all_ports_resolved()),
{
    lemma_idle_phys(ifaces.user_ifaces, ifaces.iface_search, 0, Seq::empty());
    assert(!ifaces.any_bind_wifi()) by {
        if ifaces.any_bind_wifi() {
            let i = choose|i: int|
                0 <= i < ifaces.user_ifaces.len() && post_merge::is_wifi_up(
                    (#[trigger] ifaces.user_ifaces[i]).1.for_apply,
                ) && ifaces.user_ifaces[i].1.for_apply->0.wifi->0.base_iface is None;
            assert(is_idle(ifaces.user_ifaces[i].1));
        }
    }
    assert(ifaces.phys_to_bring_up() == Seq::<Seq<char>>::empty());
    assert(ifaces.wifi_sanitized().kernel_ifaces =~= ifaces.kernel_ifaces);
    assert(ifaces.wifi_sanitized() == ifaces);
    let resolved = ifaces.all_ports_resolved();
    assert forall|i: int| 0 <= i < resolved.kernel_ifaces.len() implies is_idle(
        (#[trigger] resolved.kernel_ifaces[i]).1,
    ) by {
        assert(is_idle(ifaces.kernel_ifaces[i].1));
    }
    assert forall|i: int| 0 <= i < resolved.user_ifaces.len() implies is_idle(
        (#[trigger] resolved.user_ifaces[i]).1,
    ) by {
        assert(is_idle(ifaces.user_ifaces[i].1));
    }
    lemma_idle_all(resolved);
    lemma_idle_controllers(resolved.all(), 0, Seq::empty());
}

/// Idle interfaces have no alternative names to apply.
proof fn lemma_idle_alt_names(
    ifaces: MergedInterfacesView,
    i: int,
    owners: Seq<(Seq<char>, Seq<char>)>,
)
    requires
        all_idle(ifaces),
        0 <= i,
    ensures
        ifaces.alt_names_checked_from(i, owners) is Ok,
    decreases ifaces.kernel_ifaces.len() - i,
{
    if i < ifaces.kernel_ifaces.len() {
        assert(is_idle(ifaces.kernel_ifaces[i].1));
        assert(alt_names::alt_names_of(ifaces.kernel_ifaces[i].1.for_apply).len() == 0);
        lemma_idle_alt_names(ifaces, i + 1, owners);
    }
}

/// What idle interfaces hold under a key is idle.
proof fn lemma_idle_found(
    ifaces: MergedInterfacesView,
    name: Seq<char>,
    iface_type: InterfaceType,
)
    requires
        all_idle(ifaces),
    ensures
        ifaces.find(name, iface_type) is Some ==> is_idle(ifaces.find(name, iface_type)->0),
{
    keymap::lemma_entry_from(ifaces.kernel_ifaces, name, 0);
    keymap::lemma_entry_from(ifaces.user_ifaces, (name, iface_type), 0);
    if ifaces.find(name, iface_type) is Some {
        if iface_type.userspace() {
            assert(is_idle(
                ifaces.user_ifaces[keymap::entry(ifaces.user_ifaces, (name, iface_type))].1,
            ));
        } else {
            assert(is_idle(ifaces.kernel_ifaces[keymap::entry(ifaces.kernel_ifaces, name)].1));
        }
    }
}

/// Idle interfaces need no places in the order of bringing up.
proof fn lemma_idle_places(
    ifaces: MergedInterfacesView,
    i: int,
    pending: Seq<(Seq<char>, u32)>,
    all: bool,
)
    requires
        all_idle(ifaces),
        0 <= i,
    ensures
        ifaces.ports_placed_from(i, pending, all) == Ok::<_, crate::error::NipartErrorView>(
            (pending, all),
        ),
        ifaces.children_placed_from(i, pending) == pending,
    decreases ifaces.insert_order.len() - i,
{
    if i < ifaces.insert_order.len() {
        let key = ifaces.insert_order[i];
        lemma_idle_found(ifaces, key.0, key.1);
        assert(!up_priority::is_unsettled(ifaces.find(key.0, key.1)));
        lemma_idle_places(ifaces, i + 1, pending, all);
    }
}

/// Idle interfaces stay as they are when places are given out.
proof fn lemma_idle_prioritized(ifaces: MergedInterfacesView, tries: nat)
    requires
        all_idle(ifaces),
        tries > 0,
    ensures
        ifaces.prioritized(tries) == Ok::<_, crate::error::NipartErrorView>(ifaces),
        ifaces.deletes_marked() == ifaces,
{
    lemma_idle_places(ifaces, 0, Seq::empty(), true);
    let marked = ifaces.deletes_marked();
    assert forall|i: int| 0 <= i < marked.kernel_ifaces.len() implies
        #[trigger] marked.kernel_ifaces[i] == ifaces.kernel_ifaces[i] by {
        assert(is_idle(ifaces.kernel_ifaces[i].1));
    }
    assert(marked.kernel_ifaces =~= ifaces.kernel_ifaces);
}

/// What merging finds when nothing is desired, before the names of ports are
/// looked up.
pub open spec fn idle_merge(
    current: InterfacesView,
    saved: Option<InterfacesView>,
) -> MergedInterfacesView {
    let progress = MergeProgressView::start(current).with_current_from(
        current.veth_unified().list(),
        0,
    );
    let progress = match saved {
        Some(saved) => progress.with_saved_from(saved.list(), 0),
        None => progress,
    };
    progress.ifaces
}

/// Merging when nothing is desired.
proof fn lemma_idle_merge(current: InterfacesView, saved: Option<InterfacesView>, force: bool)
    ensures
        all_idle(idle_merge(current, saved)),
        ({
            let found = idle_merge(current, saved);
            let searched = MergedInterfacesView {
                iface_search: ifaces::search_of(found.parts(Part::Merged).list()),
                ..found
            };
            &&& all_idle(searched.all_ports_resolved())
            &&& merge_ifaces::merged(InterfacesView::none(), current, saved, force) == Ok::<
                _,
                crate::error::NipartErrorView,
            >(searched.all_ports_resolved())
        }),
{
    let none = InterfacesView::none();
    let cur = current.veth_unified();
    assert(none.veth_unified() =~= none);
    assert(none.list() =~= Seq::<InterfaceView>::empty());
    assert(wifi::expanded(none, cur) == none);
    let start = MergeProgressView::start(current);
    lemma_idle_current(start, cur.list(), 0);
    let progress = start.with_current_from(cur.list(), 0);
    if let Some(saved) = saved {
        lemma_idle_saved(progress, saved.list(), 0);
    }
    let found = idle_merge(current, saved);
    let searched = MergedInterfacesView {
        iface_search: ifaces::search_of(found.parts(Part::Merged).list()),
        ..found
    };
    assert(all_idle(searched));
    lemma_idle_sanitized(searched);
    let resolved = searched.all_ports_resolved();
    lemma_idle_alt_names(
        resolved,
        0,
        alt_names::current_owners_from(Seq::empty(), resolved.kernel_ifaces, 0),
    );
    lemma_idle_prioritized(resolved, up_priority::INTERFACES_SET_PRIORITY_MAX_RETRY as nat);
}

/// Idle interfaces have nothing to apply.
proof fn lemma_idle_ranked(
    list: Seq<MergedInterfaceView>,
    i: int,
    acc: Seq<RankedInterfaceView>,
)
    requires
        forall|j: int| 0 <= j < list.len() ==> is_idle(#[trigger] list[j]),
        0 <= i,
    ensures
        merged_ifaces::ranked_from(list, Part::Apply, i, acc) == acc,
    decreases list.len() - i,
{
    if i < list.len() {
        assert(is_idle(list[i]));
        lemma_idle_ranked(list, i + 1, acc);
    }
}

/// Idle interfaces are verified by any host, and there is nothing to undo.
proof fn lemma_idle_verified(
    list: Seq<MergedInterfaceView>,
    current: InterfacesView,
    i: int,
    acc: InterfacesView,
)
    requires
        forall|j: int| 0 <= j < list.len() ==> is_idle(#[trigger] list[j]),
        0 <= i,
    ensures
        merge_ifaces::ifaces_verified_from(list, current, i) is Ok,
        merge_ifaces::undone_from(list, i, acc) == acc,
    decreases list.len() - i,
{
    if i < list.len() {
        assert(is_idle(list[i]));
        lemma_idle_verified(list, current, i + 1, acc);
    }
}

/// Where nothing is desired, merging succeeds and nothing is to be done:
/// nothing is applied, there is nothing to undo, and whatever the host shows
/// afterwards is fine.
pub proof fn law_nothing_desired(
    current: InterfacesView,
    saved: Option<InterfacesView>,
    force: bool,
    shown: InterfacesView,
)
    ensures
        merge_ifaces::merged(InterfacesView::none(), current, saved, force) is Ok,
        ({
            let all = merge_ifaces::merged(InterfacesView::none(), current, saved, force)->Ok_0;
            &&& all.parts(Part::Apply) == InterfacesView::none()
            &&& merge_ifaces::undone_from(all.all(), 0, InterfacesView::none())
                == InterfacesView::none()
            &&& merge_ifaces::ifaces_verified_from(all.to_verify(), shown, 0) is Ok
        }),
{
    lemma_idle_merge(current, saved, force);
    let all = merge_ifaces::merged(InterfacesView::none(), current, saved, force)->Ok_0;
    lemma_idle_all(all);
    lemma_idle_ranked(all.all(), 0, Seq::empty());
    lemma_idle_verified(all.all(), shown, 0, InterfacesView::none());
    lemma_idle_verified(all.to_verify(), shown, 0, InterfacesView::none());
    let ranked = order::sorted::<RankedInterface>(Seq::empty());
    assert(ranked =~= Seq::<RankedInterfaceView>::empty());
    assert(merged_ifaces::ranked_ifaces(ranked) =~= Seq::<InterfaceView>::empty());
}

/// Whether nothing is saved of any interface.
pub open spec fn none_saved(ifaces: MergedInterfacesView) -> bool {
    &&& forall|i: int|
        0 <= i < ifaces.kernel_ifaces.len() ==> (
        #[trigger] ifaces.kernel_ifaces[i]).1.for_save is None
    &&& forall|i: int|
        0 <= i < ifaces.user_ifaces.len() ==> (#[trigger] ifaces.user_ifaces[i]).1.for_save is None
}

/// Nothing is saved of current interfaces that are not desired.
proof fn lemma_none_saved(progress: MergeProgressView, list: Seq<InterfaceView>, i: int)
    requires
        none_saved(progress.ifaces),
        0 <= i,
    ensures
        none_saved(progress.with_current_from(list, i).ifaces),
    decreases list.len() - i,
{
    if i < list.len() {
        if progress.used_current.contains(merge_ifaces::name_and_type(list[i])) {
            lemma_none_saved(progress, list, i + 1);
        } else {
            let iface = merged_iface::untouched(Some(list[i]), None);
            let base = list[i].base;
            let next = progress.ifaces.pushed(iface);
            keymap::lemma_entry_from(progress.ifaces.kernel_ifaces, base.kernel_iface_name, 0);
            keymap::lemma_entry_from(
                progress.ifaces.user_ifaces,
                (base.name, base.iface_type),
                0,
            );
            assert forall|j: int| 0 <= j < next.kernel_ifaces.len() implies (
            #[trigger] next.kernel_ifaces[j]).1.for_save is None by {
                if j < progress.ifaces.kernel_ifaces.len() {
                    assert(progress.ifaces.kernel_ifaces[j].1.for_save is None);
                }
            }
            assert forall|j: int| 0 <= j < next.user_ifaces.len() implies (
            #[trigger] next.user_ifaces[j]).1.for_save is None by {
                if j < progress.ifaces.user_ifaces.len() {
                    assert(progress.ifaces.user_ifaces[j].1.for_save is None);
                }
            }
            lemma_none_saved(
                MergeProgressView { ifaces: next, ..progress },
                list,
                i + 1,
            );
        }
    }
}

/// What is saved under a key.
pub open spec fn saved_at(
    ifaces: MergedInterfacesView,
    place: (Seq<char>, InterfaceType),
) -> Option<InterfaceView> {
    match ifaces.find(place.0, place.1) {
        Some(iface) => iface.for_save,
        None => None,
    }
}

/// Adding a saved interface to idle ones saves it under its key, where nothing
/// is saved yet, and changes what is saved under no other key.
proof fn lemma_saved_push(
    ifaces: MergedInterfacesView,
    saved: InterfaceView,
    other: (Seq<char>, InterfaceType),
)
    requires
        all_idle(ifaces),
        saved_at(ifaces, saved_place(saved)) is None,
    ensures
        ({
            let next = ifaces.pushed(merged_iface::untouched(None, Some(saved)));
            &&& saved_at(next, saved_place(saved)) == Some(saved)
            &&& !ifaces::same_place(other, saved_place(saved)) ==> saved_at(next, other)
                == saved_at(ifaces, other)
        }),
{
    let iface = merged_iface::untouched(None, Some(saved));
    let place = saved_place(saved);
    lemma_idle_found(ifaces, place.0, place.1);
    merged_ifaces::law_saved_is_kept(ifaces, saved);
    let value = match ifaces.find(place.0, place.1) {
        Some(existing) => merged_ifaces::with_saved(existing, Some(saved)),
        None => iface,
    };
    keymap::law_inserted(ifaces.kernel_ifaces, place.0, value, other.0);
    keymap::law_inserted(ifaces.user_ifaces, place, value, other);
}

/// Saved interfaces with keys of their own all stay saved.
proof fn lemma_saved_stay(progress: MergeProgressView, list: Seq<InterfaceView>, i: int)
    requires
        all_idle(progress.ifaces),
        progress.used_saved.len() == 0,
        0 <= i <= list.len(),
        forall|j: int, k: int|
            0 <= j < k < list.len() ==> !ifaces::same_place(
                saved_place(#[trigger] list[j]),
                saved_place(#[trigger] list[k]),
            ),
        forall|j: int|
            0 <= j < i ==> saved_at(progress.ifaces, saved_place(#[trigger] list[j])) == Some(
                list[j],
            ),
        forall|j: int|
            i <= j < list.len() ==> saved_at(
                progress.ifaces,
                saved_place(#[trigger] list[j]),
            ) is None,
    ensures
        forall|j: int|
            0 <= j < list.len() ==> saved_at(
                progress.with_saved_from(list, i).ifaces,
                saved_place(#[trigger] list[j]),
            ) == Some(list[j]),
    decreases list.len() - i,
{
    if i < list.len() {
        let iface = merged_iface::untouched(None, Some(list[i]));
        let next = MergeProgressView { ifaces: progress.ifaces.pushed(iface), ..progress };
        lemma_idle_push(progress.ifaces, iface);
        assert(saved_at(progress.ifaces, saved_place(list[i])) is None);
        assert forall|j: int| 0 <= j < i + 1 implies saved_at(
            next.ifaces,
            saved_place(#[trigger] list[j]),
        ) == Some(list[j]) by {
            lemma_saved_push(progress.ifaces, list[i], saved_place(list[j]));
            if j < i {
                assert(!ifaces::same_place(saved_place(list[j]), saved_place(list[i])));
            }
        }
        assert forall|j: int| i + 1 <= j < list.len() implies saved_at(
            next.ifaces,
            saved_place(#[trigger] list[j]),
        ) is None by {
            lemma_saved_push(progress.ifaces, list[i], saved_place(list[j]));
            assert(!ifaces::same_place(saved_place(list[i]), saved_place(list[j])));
        }
        lemma_saved_stay(next, list, i + 1);
    }
}

/// Looking up the names of ports changes nothing that is saved.
proof fn lemma_saved_resolved(
    ifaces: MergedInterfacesView,
    place: (Seq<char>, InterfaceType),
)
    ensures
        saved_at(ifaces.all_ports_resolved(), place) == saved_at(ifaces, place),
{
    let resolved = ifaces.all_ports_resolved();
    keymap::lemma_entry_from(ifaces.kernel_ifaces, place.0, 0);
    keymap::lemma_entry_from(ifaces.user_ifaces, place, 0);
    keymap::lemma_same_entries(ifaces.kernel_ifaces, resolved.kernel_ifaces, place.0, 0);
    keymap::lemma_same_entries(ifaces.user_ifaces, resolved.user_ifaces, place, 0);
}

/// Where nothing is desired, everything that was saved stays saved as it was,
/// as long as no two saved interfaces share a key.
pub proof fn law_saved_stays(current: InterfacesView, saved: InterfacesView, force: bool, i: int)
    requires
        forall|j: int, k: int|
            0 <= j < k < saved.list().len() ==> !ifaces::same_place(
                saved_place(#[trigger] saved.list()[j]),
                saved_place(#[trigger] saved.list()[k]),
            ),
        0 <= i < saved.list().len(),
    ensures
        merge_ifaces::merged(InterfacesView::none(), current, Some(saved), force) is Ok,
        saved_at(
            merge_ifaces::merged(InterfacesView::none(), current, Some(saved), force)->Ok_0,
            saved_place(saved.list()[i]),
        ) == Some(saved.list()[i]),
{
    lemma_idle_merge(current, Some(saved), force);
    let cur = current.veth_unified();
    let start = MergeProgressView::start(current);
    lemma_idle_current(start, cur.list(), 0);
    lemma_none_saved(start, cur.list(), 0);
    let progress = start.with_current_from(cur.list(), 0);
    let list = saved.list();
    assert forall|j: int| 0 <= j < list.len() implies saved_at(
        progress.ifaces,
        saved_place(#[trigger] list[j]),
    ) is None by {
        let place = saved_place(list[j]);
        keymap::lemma_entry_from(progress.ifaces.kernel_ifaces, place.0, 0);
        keymap::lemma_entry_from(progress.ifaces.user_ifaces, place, 0);
        if progress.ifaces.find(place.0, place.1) is Some {
            if place.1.userspace() {
                let k = keymap::entry(progress.ifaces.user_ifaces, place);
                assert(progress.ifaces.user_ifaces[k].1.for_save is None);
            } else {
                let k = keymap::entry(progress.ifaces.kernel_ifaces, place.0);
                assert(progress.ifaces.kernel_ifaces[k].1.for_save is None);
            }
        }
    }
    lemma_saved_stay(progress, list, 0);
    let found = idle_merge(current, Some(saved));
    let searched = MergedInterfacesView {
        iface_search: ifaces::search_of(found.parts(Part::Merged).list()),
        ..found
    };
    let place = saved_place(list[i]);
    assert(saved_at(found, place) == Some(list[i]));
    assert(saved_at(searched, place) == saved_at(found, place));
    lemma_saved_resolved(searched, place);
}

/// Idle interfaces have none of the flags that an apply sets.
proof fn lemma_idle_flags(
    list: Seq<(Seq<char>, MergedInterfaceView)>,
    flag: IfaceFlag,
    i: int,
    acc: Seq<Seq<char>>,
)
    requires
        forall|j: int| 0 <= j < list.len() ==> is_idle((#[trigger] list[j]).1),
        flag is WillDelete || flag is Desired,
        0 <= i,
    ensures
        merged_route::flagged_from(list, flag, i, acc) == acc,
    decreases list.len() - i,
{
    if i < list.len() {
        assert(is_idle(list[i].1));
        lemma_idle_flags(list, flag, i + 1, acc);
    }
}

/// Where interfaces are idle and no routes are desired, current routes stay.
proof fn lemma_idle_current_routes(
    sets: RouteSetsView,
    current: Seq<RouteEntryView>,
    lists: IfaceListsView,
    i: int,
)
    requires
        lists.desired_ifaces.len() == 0,
        0 <= i,
    ensures
        ({
            let after = sets.with_current_from(current, Seq::empty(), lists, i);
            after.changed == sets.changed && after.ifaces == sets.ifaces
        }),
    decreases current.len() - i,
{
    if i < current.len() {
        lemma_idle_current_routes(
            sets.with_current(current[i], Seq::empty(), lists),
            current,
            lists,
            i + 1,
        );
    }
}

/// Where interfaces are idle, no saved route has to come back.
proof fn lemma_idle_saved_routes(
    sets: RouteSetsView,
    saved: Seq<RouteEntryView>,
    lists: IfaceListsView,
    i: int,
)
    requires
        lists.will_delete.len() == 0,
        0 <= i,
    ensures
        sets.with_saved_from(saved, lists, i) == sets,
    decreases saved.len() - i,
{
    if i < saved.len() {
        lemma_idle_saved_routes(sets, saved, lists, i + 1);
    }
}

/// Where interfaces are idle and no routes are desired, no route changes.
proof fn lemma_idle_routes(
    current: RoutesView,
    saved: Option<RoutesView>,
    ifaces: MergedInterfacesView,
)
    requires
        all_idle(ifaces),
    ensures
        merged_route::merged_routes(RoutesView::undefined(), current, saved, ifaces) is Ok,
        merged_route::merged_routes(
            RoutesView::undefined(),
            current,
            saved,
            ifaces,
        )->Ok_0.changed_routes.len() == 0,
{
    let none = Seq::<RouteEntryView>::empty();
    let lists = IfaceListsView::of(ifaces);
    lemma_idle_flags(ifaces.kernel_ifaces, IfaceFlag::WillDelete, 0, Seq::empty());
    lemma_idle_flags(ifaces.kernel_ifaces, IfaceFlag::Desired, 0, Seq::empty());
    let start = RouteSetsView { merged: none, changed: none, ifaces: Seq::empty() };
    let olds = route::list_of(current.config);
    lemma_idle_current_routes(start, olds, lists, 0);
    let kept = start.with_current_from(olds, none, lists, 0);
    lemma_idle_saved_routes(kept.settled(), merged_route::saved_list(saved), lists, 0);
}

/// A state in which nothing is desired changes nothing: no interface, no route
/// and no routing rule is applied, verified or undone, and of the saved state,
/// the description, what to wait for and the cache of the resolver stay.
pub proof fn law_empty_state(
    current: NetworkStateView,
    saved: NetworkStateView,
    option: NipartApplyOptionView,
    shown: NetworkStateView,
)
    requires
        merged_net_state::merged_state(
            NetworkStateView::undefined(),
            current,
            Some(saved),
            option,
        ) is Ok,
    ensures
        ({
            let merged = merged_net_state::merged_state(
                NetworkStateView::undefined(),
                current,
                Some(saved),
                option,
            )->Ok_0;
            &&& merged.for_apply().ifaces == InterfacesView::none()
            &&& merged.for_apply().routes.config->0.len() == 0
            &&& merged.for_apply().route_rules.rules().len() == 0
            &&& merged.revert().ifaces == InterfacesView::none()
            &&& merged.revert().routes.config->0.len() == 0
            &&& merged.verified(shown) is Ok
            &&& merged.for_save().description == saved.description
            &&& merged.for_save().wait_online == saved.wait_online
            &&& merged.for_save().dns_resolver.cache == saved.dns_resolver.cache
        }),
{
    let nothing = NetworkStateView::undefined();
    let merged = merged_net_state::merged_state(nothing, current, Some(saved), option)->Ok_0;
    law_nothing_desired(
        current.ifaces,
        Some(saved.ifaces),
        option.force,
        shown.ifaces.veth_unified(),
    );
    lemma_idle_merge(current.ifaces, Some(saved.ifaces), option.force);
    lemma_idle_routes(current.routes, Some(saved.routes), merged.ifaces);
    merged_route_rule::law_no_rules_desired(
        current.route_rules,
        Some(saved.route_rules),
        shown.route_rules,
    );
    let rules = merged_route_rule::merged_rules(
        RouteRulesView::undefined(),
        current.route_rules,
        Some(saved.route_rules),
    )->Ok_0;
    let none = Seq::<RouteRuleEntryView>::empty();
    assert(rules.changed_rules =~= none);
    assert(merged.route_rules.changed_rules =~= none);
    assert(merged.route_rules.desired.rules() =~= none);
}

/// Marking the interfaces that are deleted first changes nothing of what is
/// applied, nor of the priorities.
proof fn lemma_marked(ifaces: MergedInterfacesView, name: Seq<char>)
    ensures
        up_priority::is_applied_alike(ifaces, ifaces.deletes_marked()),
        keymap::lookup(ifaces.deletes_marked().kernel_ifaces, name) == match keymap::lookup(
            ifaces.kernel_ifaces,
            name,
        ) {
            Some(iface) => Some(merged_ifaces::delete_marked(iface)),
            None => None,
        },
{
    let marked = ifaces.deletes_marked();
    assert forall|other: Seq<char>| #[trigger]
        keymap::lookup(marked.kernel_ifaces, other) == match keymap::lookup(
            ifaces.kernel_ifaces,
            other,
        ) {
            Some(iface) => Some(merged_ifaces::delete_marked(iface)),
            None => None,
        } by {
        keymap::lemma_same_entries(ifaces.kernel_ifaces, marked.kernel_ifaces, other, 0);
        keymap::lemma_entry_from(ifaces.kernel_ifaces, other, 0);
    }
    assert(keymap::lookup(marked.kernel_ifaces, name) == match keymap::lookup(
        ifaces.kernel_ifaces,
        name,
    ) {
        Some(iface) => Some(merged_ifaces::delete_marked(iface)),
        None => None,
    });
}

/// After a merge every interface to bring up has a greater priority than what it
/// waits for: than its controller, and than the interface that it runs on. For
/// the latter, the chain of interfaces that each run on the next has to end,
/// with those in the middle of it before what runs on them.
pub proof fn law_order_of_bringing_up(
    desired: InterfacesView,
    current: InterfacesView,
    saved: Option<InterfacesView>,
    force: bool,
    name: Seq<char>,
)
    requires
        merge_ifaces::has_room(desired, current, saved),
        merge_ifaces::merged(desired, current, saved, force) is Ok,
        merge_ifaces::merged(desired, current, saved, force)->Ok_0.is_plain(),
        keymap::lookup(
            merge_ifaces::merged(desired, current, saved, force)->Ok_0.kernel_ifaces,
            name,
        ) is Some,
    ensures
        ({
            let all = merge_ifaces::merged(desired, current, saved, force)->Ok_0;
            let iface = keymap::lookup(all.kernel_ifaces, name)->0;
            &&& up_priority::waits_for_controller(iface) ==> {
                let base = iface.for_apply->0.base;
                let controller = all.find(base.controller->0, base.controller_type->0);
                &&& iface.up_priority is Some
                &&& base.controller_type is Some
                &&& controller is Some
                &&& iface.up_priority->0 > controller->0.up_priority.unwrap_or(0)
            }
            &&& up_priority::runs_on_another(iface) && all.has_footing(name) ==> {
                let parent = keymap::lookup(all.kernel_ifaces, iface.for_apply->0.parent->0);
                &&& iface.up_priority is Some
                &&& parent is Some
                &&& iface.up_priority->0 > parent->0.up_priority.unwrap_or(0)
            }
        }),
{
    let all = merge_ifaces::merged(desired, current, saved, force)->Ok_0;
    let start = merge_ifaces::lemma_merged_unranked(desired, current, saved, force);
    let ranked = start.prioritized(4)->Ok_0;
    up_priority::law_only_priorities(start, 4);
    lemma_marked(ranked, name);
    up_priority::lemma_alike_transitive(start, ranked, all);
    up_priority::lemma_alike_plain(start, all);
    assert(start.priorities_within(0));
    assert forall|other: Seq<char>|
        (#[trigger] keymap::lookup(start.kernel_ifaces, other)) is Some implies keymap::lookup(
        start.kernel_ifaces,
        other,
    )->0.up_priority is None by {
        keymap::lemma_entry_from(start.kernel_ifaces, other, 0);
    }
    let iface = keymap::lookup(all.kernel_ifaces, name)->0;
    up_priority::law_port_after_controller(start, 4, name);
    if up_priority::waits_for_controller(iface) {
        let base = iface.for_apply->0.base;
        lemma_marked(ranked, base.controller->0);
    }
    if up_priority::runs_on_another(iface) && all.has_footing(name) {
        let depth = choose|depth: nat| #[trigger] all.is_founded(name, depth);
        assert(up_priority::is_applied_alike(all, start));
        up_priority::lemma_same_footing(all, start, name, depth);
        up_priority::law_child_after_parent(start, 4, name);
        lemma_marked(ranked, iface.for_apply->0.parent->0);
    }
}

/// The rank of a part of a merged interface.
pub open spec fn rank_of(iface: MergedInterfaceView) -> RankedInterfaceView {
    RankedInterfaceView {
        absent: iface.merged.base.state is Absent,
        priority: iface.up_priority.unwrap_or(0),
        iface: iface.for_apply->0,
    }
}

/// Every interface to apply is ranked.
proof fn lemma_ranked(
    list: Seq<MergedInterfaceView>,
    i: int,
    acc: Seq<RankedInterfaceView>,
    rank: RankedInterfaceView,
)
    requires
        0 <= i <= list.len(),
    ensures
        acc.contains(rank) ==> merged_ifaces::ranked_from(list, Part::Apply, i, acc).contains(rank),
        forall|k: int|
            i <= k < list.len() && (#[trigger] list[k]).for_apply is Some
                ==> merged_ifaces::ranked_from(list, Part::Apply, i, acc).contains(
                rank_of(list[k]),
            ),
    decreases list.len() - i,
{
    if i < list.len() {
        if list[i].for_apply is Some {
            let next = acc.push(rank_of(list[i]));
            if acc.contains(rank) {
                assert(next[acc.index_of(rank)] == rank);
            }
            assert(next[acc.len() as int] == rank_of(list[i]));
            lemma_ranked(list, i + 1, next, rank);
            lemma_ranked(list, i + 1, next, rank_of(list[i]));
        } else {
            lemma_ranked(list, i + 1, acc, rank);
        }
    }
}

/// Of two interfaces to apply of which neither is to be deleted, or only the
/// first, the one with the smaller priority comes first in what is applied, when
/// every interface has a key of its own.
proof fn lemma_applied_first(
    all: MergedInterfacesView,
    first: Seq<char>,
    second: Seq<char>,
)
    requires
        keymap::lookup(all.kernel_ifaces, first) is Some,
        keymap::lookup(all.kernel_ifaces, second) is Some,
        keymap::lookup(all.kernel_ifaces, first)->0.for_apply is Some,
        keymap::lookup(all.kernel_ifaces, second)->0.for_apply is Some,
        !(keymap::lookup(all.kernel_ifaces, second)->0.merged.base.state is Absent),
        keymap::lookup(all.kernel_ifaces, first)->0.up_priority.unwrap_or(0) < keymap::lookup(
            all.kernel_ifaces,
            second,
        )->0.up_priority.unwrap_or(0),
        ifaces::places_distinct(
            merged_ifaces::ranked_ifaces(
                order::sorted::<RankedInterface>(
                    merged_ifaces::ranked_from(all.all(), Part::Apply, 0, Seq::empty()),
                ),
            ),
        ),
    ensures
        exists|a: int, b: int|
            0 <= a < b < all.parts(Part::Apply).list().len() && (#[trigger] all.parts(
                Part::Apply,
            ).list()[a]) == ifaces::registered(
                keymap::lookup(all.kernel_ifaces, first)->0.for_apply->0,
            ) && (#[trigger] all.parts(Part::Apply).list()[b]) == ifaces::registered(
                keymap::lookup(all.kernel_ifaces, second)->0.for_apply->0,
            ),
{
    let x = keymap::lookup(all.kernel_ifaces, first)->0;
    let y = keymap::lookup(all.kernel_ifaces, second)->0;
    let list = all.all();
    keymap::lemma_entry_from(all.kernel_ifaces, first, 0);
    keymap::lemma_entry_from(all.kernel_ifaces, second, 0);
    assert(list[keymap::entry(all.kernel_ifaces, first)] == x);
    assert(list[keymap::entry(all.kernel_ifaces, second)] == y);
    let items = merged_ifaces::ranked_from(list, Part::Apply, 0, Seq::empty());
    let ranked = order::sorted::<RankedInterface>(items);
    lemma_ranked(list, 0, Seq::empty(), rank_of(x));
    order::law_sorted_items::<RankedInterface>(items, rank_of(x));
    order::law_sorted_items::<RankedInterface>(items, rank_of(y));
    order::law_sorted::<RankedInterface>(items);
    let a = ranked.index_of(rank_of(x));
    let b = ranked.index_of(rank_of(y));
    assert(<RankedInterface as order::Keyed>::before(ranked[a], ranked[b]));
    if b <= a {
        if b < a {
            assert(!<RankedInterface as order::Keyed>::before(ranked[a], ranked[b]));
        }
        assert(false);
    }
    let plain = merged_ifaces::ranked_ifaces(ranked);
    ifaces::law_new_keeps_order(plain);
    assert(plain[a] == ranked[a].iface && plain[b] == ranked[b].iface);
    let applied = all.parts(Part::Apply).list();
    assert(applied[a] == ifaces::registered(x.for_apply->0));
    assert(applied[b] == ifaces::registered(y.for_apply->0));
}

/// In what is applied, an interface comes before those to bring up that run on
/// it, and a controller of the kernel before its ports to bring up.
pub proof fn law_applied_in_order(
    desired: InterfacesView,
    current: InterfacesView,
    saved: Option<InterfacesView>,
    force: bool,
    first: Seq<char>,
    second: Seq<char>,
)
    requires
        merge_ifaces::has_room(desired, current, saved),
        merge_ifaces::merged(desired, current, saved, force) is Ok,
        ({
            let all = merge_ifaces::merged(desired, current, saved, force)->Ok_0;
            let x = keymap::lookup(all.kernel_ifaces, first);
            let y = keymap::lookup(all.kernel_ifaces, second);
            &&& all.is_plain()
            &&& ifaces::places_distinct(
                merged_ifaces::ranked_ifaces(
                    order::sorted::<RankedInterface>(
                        merged_ifaces::ranked_from(all.all(), Part::Apply, 0, Seq::empty()),
                    ),
                ),
            )
            &&& x is Some && x->0.for_apply is Some
            &&& y is Some && !(y->0.merged.base.state is Absent)
            &&& {
                ||| up_priority::runs_on_another(y->0) && y->0.for_apply->0.parent == Some(first)
                    && all.has_footing(second)
                ||| up_priority::waits_for_controller(y->0) && y->0.for_apply->0.base.controller
                    == Some(first) && y->0.for_apply->0.base.controller_type is Some
                    && !y->0.for_apply->0.base.controller_type->0.userspace()
            }
        }),
    ensures
        ({
            let all = merge_ifaces::merged(desired, current, saved, force)->Ok_0;
            let applied = all.parts(Part::Apply).list();
            exists|a: int, b: int|
                0 <= a < b < applied.len() && (#[trigger] applied[a]) == ifaces::registered(
                    keymap::lookup(all.kernel_ifaces, first)->0.for_apply->0,
                ) && (#[trigger] applied[b]) == ifaces::registered(
                    keymap::lookup(all.kernel_ifaces, second)->0.for_apply->0,
                )
        }),
{
    let all = merge_ifaces::merged(desired, current, saved, force)->Ok_0;
    law_order_of_bringing_up(desired, current, saved, force, second);
    lemma_applied_first(all, first, second);
}

} // verus!
