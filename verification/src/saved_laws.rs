//! What merging does with saved interfaces that no desired one is about.

use vstd::prelude::*;

use crate::iface::{BaseInterfaceView, InterfaceType, InterfaceView};
use crate::ifaces;
use crate::ifaces::InterfacesView;
use crate::keymap;
use crate::merge_ifaces;
use crate::merge_ifaces::MergeProgressView;
use crate::merge_laws;
use crate::merged_iface;
use crate::merged_iface::MergedInterfaceView;
use crate::merged_ifaces;
use crate::merged_ifaces::{MergedInterfacesView, Part};
use crate::post_merge;
use crate::post_merge::ControllerPortsView;
use crate::up_priority;
use crate::wifi;

verus! {

/// The configuration without IP stacks.
pub open spec fn without_ip(iface: InterfaceView) -> InterfaceView {
    InterfaceView { base: BaseInterfaceView { ipv4: None, ipv6: None, ..iface.base }, ..iface }
}

/// Whether the interfaces are about the same desired one and save the same
/// configuration, apart from IP stacks, which a port loses.
pub open spec fn saves_same(
    before: Option<MergedInterfaceView>,
    after: Option<MergedInterfaceView>,
) -> bool {
    match (before, after) {
        (None, None) => true,
        (Some(before), Some(after)) => after.desired == before.desired && (after.for_save
            == before.for_save || (before.for_save is Some && after.for_save == Some(
            without_ip(before.for_save->0),
        ))),
        _ => false,
    }
}

/// Whether all interfaces are about the same desired ones and save the same,
/// apart from IP stacks.
pub open spec fn all_save_same(
    before: MergedInterfacesView,
    after: MergedInterfacesView,
) -> bool {
    forall|name: Seq<char>, iface_type: InterfaceType|
        saves_same(before.find(name, iface_type), #[trigger] after.find(name, iface_type))
}

/// Saving the same is transitive.
proof fn lemma_save_same_twice(
    a: MergedInterfacesView,
    b: MergedInterfacesView,
    c: MergedInterfacesView,
)
    requires
        all_save_same(a, b),
        all_save_same(b, c),
    ensures
        all_save_same(a, c),
{
    assert forall|name: Seq<char>, iface_type: InterfaceType| saves_same(
        a.find(name, iface_type),
        #[trigger] c.find(name, iface_type),
    ) by {
        assert(saves_same(b.find(name, iface_type), c.find(name, iface_type)));
        assert(saves_same(a.find(name, iface_type), b.find(name, iface_type)));
    }
}

/// Replacing a kernel interface by one that saves the same.
proof fn lemma_replaced(
    ifaces: MergedInterfacesView,
    name: Seq<char>,
    iface: MergedInterfaceView,
)
    requires
        keymap::lookup(ifaces.kernel_ifaces, name) is Some,
        saves_same(keymap::lookup(ifaces.kernel_ifaces, name), Some(iface)),
    ensures
        all_save_same(ifaces, ifaces.with_kernel(name, iface)),
{
    let after = ifaces.with_kernel(name, iface);
    assert forall|other: Seq<char>, iface_type: InterfaceType| saves_same(
        ifaces.find(other, iface_type),
        #[trigger] after.find(other, iface_type),
    ) by {
        keymap::law_inserted(ifaces.kernel_ifaces, name, iface, other);
    }
}

/// Changing interfaces under their keys to ones that save the same.
proof fn lemma_changed_in_place(before: MergedInterfacesView, after: MergedInterfacesView)
    requires
        before.kernel_ifaces.len() == after.kernel_ifaces.len(),
        before.user_ifaces.len() == after.user_ifaces.len(),
        forall|i: int|
            0 <= i < before.kernel_ifaces.len() ==> {
                &&& (#[trigger] after.kernel_ifaces[i]).0 == before.kernel_ifaces[i].0
                &&& saves_same(
                    Some(before.kernel_ifaces[i].1),
                    Some(after.kernel_ifaces[i].1),
                )
            },
        forall|i: int|
            0 <= i < before.user_ifaces.len() ==> {
                &&& (#[trigger] after.user_ifaces[i]).0 == before.user_ifaces[i].0
                &&& saves_same(Some(before.user_ifaces[i].1), Some(after.user_ifaces[i].1))
            },
    ensures
        all_save_same(before, after),
{
    assert forall|name: Seq<char>, iface_type: InterfaceType| saves_same(
        before.find(name, iface_type),
        #[trigger] after.find(name, iface_type),
    ) by {
        let key = (name, iface_type);
        keymap::lemma_same_entries(before.kernel_ifaces, after.kernel_ifaces, name, 0);
        keymap::lemma_same_entries(before.user_ifaces, after.user_ifaces, key, 0);
        keymap::lemma_entry_from(before.kernel_ifaces, name, 0);
        keymap::lemma_entry_from(before.user_ifaces, key, 0);
        if keymap::has(before.kernel_ifaces, name) {
            let k = keymap::entry(before.kernel_ifaces, name);
            assert(saves_same(Some(before.kernel_ifaces[k].1), Some(after.kernel_ifaces[k].1)));
        }
        if keymap::has(before.user_ifaces, key) {
            let k = keymap::entry(before.user_ifaces, key);
            assert(saves_same(Some(before.user_ifaces[k].1), Some(after.user_ifaces[k].1)));
        }
    }
}

/// Attaching ports saves the same.
proof fn lemma_attached_from(
    ifaces: MergedInterfacesView,
    controller: ControllerPortsView,
    i: int,
)
    requires
        0 <= i,
        ifaces.attached_from(controller, i) is Ok,
    ensures
        all_save_same(ifaces, ifaces.attached_from(controller, i)->Ok_0),
    decreases controller.ports.len() - i,
{
    if i < controller.ports.len() {
        let name = controller.ports[i];
        let port = keymap::lookup(ifaces.kernel_ifaces, name)->0;
        let next = ifaces.with_kernel(name, post_merge::attached(port, controller));
        lemma_replaced(ifaces, name, post_merge::attached(port, controller));
        lemma_attached_from(next, controller, i + 1);
        lemma_save_same_twice(ifaces, next, next.attached_from(controller, i + 1)->Ok_0);
    }
}

/// Detaching ports saves the same.
proof fn lemma_detached_from(
    ifaces: MergedInterfacesView,
    controller: ControllerPortsView,
    i: int,
)
    requires
        0 <= i,
    ensures
        all_save_same(ifaces, ifaces.detached_from(controller, i)),
    decreases controller.old_ports.len() - i,
{
    if i < controller.old_ports.len() {
        let name = controller.old_ports[i];
        match keymap::lookup(ifaces.kernel_ifaces, name) {
            Some(port) if !controller.ports.contains(name) && port.merged.base.controller == Some(
                controller.name,
            ) => {
                let next = ifaces.with_kernel(name, post_merge::detached(port));
                lemma_replaced(ifaces, name, post_merge::detached(port));
                lemma_detached_from(next, controller, i + 1);
                lemma_save_same_twice(ifaces, next, next.detached_from(controller, i + 1));
            },
            _ => {
                lemma_detached_from(ifaces, controller, i + 1);
            },
        }
    }
}

/// Settling the ports of controllers saves the same.
proof fn lemma_ports_settled_from(
    ifaces: MergedInterfacesView,
    list: Seq<ControllerPortsView>,
    i: int,
)
    requires
        0 <= i,
        ifaces.ports_settled_from(list, i) is Ok,
    ensures
        all_save_same(ifaces, ifaces.ports_settled_from(list, i)->Ok_0),
    decreases list.len() - i,
{
    if i < list.len() {
        let attached = ifaces.attached_from(list[i], 0)->Ok_0;
        let next = attached.detached_from(list[i], 0);
        lemma_attached_from(ifaces, list[i], 0);
        lemma_detached_from(attached, list[i], 0);
        lemma_save_same_twice(ifaces, attached, next);
        lemma_ports_settled_from(next, list, i + 1);
        lemma_save_same_twice(ifaces, next, next.ports_settled_from(list, i + 1)->Ok_0);
    }
}

/// What interfaces mean for each other changes nothing that is saved but the
/// IP stacks of ports.
proof fn lemma_sanitized(ifaces: MergedInterfacesView)
    requires
        ifaces.sanitized() is Ok,
    ensures
        all_save_same(ifaces, ifaces.sanitized()->Ok_0),
{
    let wifi = ifaces.wifi_sanitized();
    let resolved = wifi.all_ports_resolved();
    lemma_changed_in_place(ifaces, wifi);
    lemma_changed_in_place(wifi, resolved);
    lemma_save_same_twice(ifaces, wifi, resolved);
    let controllers = post_merge::controllers_from(resolved.all(), 0, Seq::empty());
    lemma_ports_settled_from(resolved, controllers, 0);
    lemma_save_same_twice(ifaces, resolved, ifaces.sanitized()->Ok_0);
}

/// Giving out places saves the same.
proof fn lemma_with_priorities_from(
    ifaces: MergedInterfacesView,
    pending: Seq<(Seq<char>, u32)>,
    i: int,
)
    requires
        0 <= i,
    ensures
        all_save_same(ifaces, ifaces.with_priorities_from(pending, i)),
    decreases pending.len() - i,
{
    if i < pending.len() {
        match keymap::lookup(ifaces.kernel_ifaces, pending[i].0) {
            Some(iface) => {
                let ranked = MergedInterfaceView { up_priority: Some(pending[i].1), ..iface };
                let next = ifaces.with_kernel(pending[i].0, ranked);
                lemma_replaced(ifaces, pending[i].0, ranked);
                lemma_with_priorities_from(next, pending, i + 1);
                lemma_save_same_twice(ifaces, next, next.with_priorities_from(pending, i + 1));
            },
            None => {
                lemma_with_priorities_from(ifaces, pending, i + 1);
            },
        }
    }
}

/// Trying to give out places saves the same.
proof fn lemma_prioritized(ifaces: MergedInterfacesView, tries: nat)
    requires
        ifaces.prioritized(tries) is Ok,
    ensures
        all_save_same(ifaces, ifaces.prioritized(tries)->Ok_0),
    decreases tries,
{
    let (pending, all) = ifaces.ports_placed_from(0, Seq::empty(), true)->Ok_0;
    let pending = if all {
        ifaces.children_placed_from(0, pending)
    } else {
        pending
    };
    let next = ifaces.with_priorities_from(pending, 0);
    lemma_with_priorities_from(ifaces, pending, 0);
    if !all {
        lemma_prioritized(next, (tries - 1) as nat);
        lemma_save_same_twice(ifaces, next, ifaces.prioritized(tries)->Ok_0);
    }
}

/// Whether the interface is desired and saved.
pub open spec fn is_desired(iface: MergedInterfaceView) -> bool {
    iface.desired is Some && iface.for_save is Some
}

/// Whether nothing is desired of the interface, applied or saved.
pub open spec fn is_spare(iface: MergedInterfaceView) -> bool {
    iface.desired is None && iface.for_apply is None && iface.for_save is None
}

/// Whether all interfaces are desired.
pub open spec fn all_desired(ifaces: MergedInterfacesView) -> bool {
    &&& forall|i: int|
        0 <= i < ifaces.kernel_ifaces.len() ==> is_desired((#[trigger] ifaces.kernel_ifaces[i]).1)
    &&& forall|i: int|
        0 <= i < ifaces.user_ifaces.len() ==> is_desired((#[trigger] ifaces.user_ifaces[i]).1)
}

/// Whether all interfaces are desired or spare.
pub open spec fn none_only_saved(ifaces: MergedInterfacesView) -> bool {
    &&& forall|i: int|
        0 <= i < ifaces.kernel_ifaces.len() ==> is_desired(
            (#[trigger] ifaces.kernel_ifaces[i]).1,
        ) || is_spare(ifaces.kernel_ifaces[i].1)
    &&& forall|i: int|
        0 <= i < ifaces.user_ifaces.len() ==> is_desired((#[trigger] ifaces.user_ifaces[i]).1)
            || is_spare(ifaces.user_ifaces[i].1)
}

/// Desired interfaces are merged as such.
proof fn lemma_desired_from(
    progress: MergeProgressView,
    list: Seq<InterfaceView>,
    current: InterfacesView,
    saved: Option<InterfacesView>,
    force: bool,
    i: int,
)
    requires
        0 <= i,
        all_desired(progress.ifaces),
        progress.with_desired_from(list, current, saved, force, i) is Ok,
    ensures
        all_desired(progress.with_desired_from(list, current, saved, force, i)->Ok_0.ifaces),
    decreases list.len() - i,
{
    if i < list.len() {
        let next = progress.with_desired(list[i], current, saved, force)->Ok_0;
        if !(list[i].base.state is Ignore) {
            let found = merge_ifaces::saved_for(saved, list[i]);
            let identified = merge_ifaces::identified(list[i], found);
            let cur = current.current_for(identified.base)->Ok_0;
            let resolved = merge_ifaces::name_resolved(identified, cur, found);
            let saved_iface = merge_ifaces::saved_or_same_name(found, resolved, cur, saved);
            let iface = merged_iface::merged_iface(
                Some(resolved),
                cur,
                saved_iface,
                force,
            )->Ok_0;
            assert(is_desired(iface));
            lemma_desired_push(progress.ifaces, iface);
        }
        lemma_desired_from(next, list, current, saved, force, i + 1);
    }
}

/// A map of desired interfaces stays one with one more.
proof fn lemma_desired_insert<K>(
    map: Seq<(K, MergedInterfaceView)>,
    key: K,
    iface: MergedInterfaceView,
)
    requires
        forall|i: int| 0 <= i < map.len() ==> is_desired((#[trigger] map[i]).1),
        is_desired(iface),
    ensures
        keymap::lookup(map, key) is Some ==> is_desired(keymap::lookup(map, key)->0),
        forall|i: int|
            0 <= i < keymap::inserted(map, key, iface).len() ==> is_desired(
                (#[trigger] keymap::inserted(map, key, iface)[i]).1,
            ),
{
    keymap::lemma_entry_from(map, key, 0);
    let next = keymap::inserted(map, key, iface);
    if keymap::has(map, key) {
        assert(is_desired(map[keymap::entry(map, key)].1));
    }
    assert forall|i: int| 0 <= i < next.len() implies is_desired((#[trigger] next[i]).1) by {
        if i < map.len() {
            assert(is_desired(map[i].1));
        }
    }
}

/// Adding a desired interface to desired ones.
proof fn lemma_desired_push(ifaces: MergedInterfacesView, iface: MergedInterfaceView)
    requires
        all_desired(ifaces),
        is_desired(iface),
    ensures
        all_desired(ifaces.pushed(iface)),
{
    let base = iface.merged.base;
    let saved = iface.for_save->0;
    let key = merged_ifaces::saved_key(saved);
    let user_key = (saved.base.name, saved.base.iface_type);
    lemma_desired_insert(ifaces.kernel_ifaces, base.kernel_iface_name, iface);
    lemma_desired_insert(ifaces.user_ifaces, (base.name, base.iface_type), iface);
    lemma_desired_insert(ifaces.kernel_ifaces, key, iface);
    lemma_desired_insert(ifaces.user_ifaces, user_key, iface);
    if let Some(existing) = keymap::lookup(ifaces.kernel_ifaces, key) {
        lemma_desired_insert(ifaces.kernel_ifaces, key, existing);
    }
    if let Some(existing) = keymap::lookup(ifaces.user_ifaces, user_key) {
        lemma_desired_insert(ifaces.user_ifaces, user_key, existing);
    }
}

/// Current interfaces that are not desired are spare.
proof fn lemma_current_from(progress: MergeProgressView, list: Seq<InterfaceView>, i: int)
    requires
        0 <= i,
        none_only_saved(progress.ifaces),
    ensures
        none_only_saved(progress.with_current_from(list, i).ifaces),
        progress.with_current_from(list, i).used_saved == progress.used_saved,
    decreases list.len() - i,
{
    if i < list.len() {
        if progress.used_current.contains(merge_ifaces::name_and_type(list[i])) {
            lemma_current_from(progress, list, i + 1);
        } else {
            let iface = merged_iface::untouched(Some(list[i]), None);
            let base = list[i].base;
            let next = progress.ifaces.pushed(iface);
            keymap::lemma_entry_from(progress.ifaces.kernel_ifaces, base.kernel_iface_name, 0);
            keymap::lemma_entry_from(
                progress.ifaces.user_ifaces,
                (base.name, base.iface_type),
                0,
            );
            assert forall|j: int| 0 <= j < next.kernel_ifaces.len() implies is_desired(
                (#[trigger] next.kernel_ifaces[j]).1,
            ) || is_spare(next.kernel_ifaces[j].1) by {
                if j < progress.ifaces.kernel_ifaces.len() {
                    let before = progress.ifaces.kernel_ifaces[j].1;
                    assert(is_desired(before) || is_spare(before));
                }
            }
            assert forall|j: int| 0 <= j < next.user_ifaces.len() implies is_desired(
                (#[trigger] next.user_ifaces[j]).1,
            ) || is_spare(next.user_ifaces[j].1) by {
                if j < progress.ifaces.user_ifaces.len() {
                    let before = progress.ifaces.user_ifaces[j].1;
                    assert(is_desired(before) || is_spare(before));
                }
            }
            lemma_current_from(MergeProgressView { ifaces: next, ..progress }, list, i + 1);
        }
    }
}

/// Whether nothing but a desired interface is saved under the key of the saved
/// interface.
pub open spec fn is_free_for(ifaces: MergedInterfacesView, saved: InterfaceView) -> bool {
    let place = merge_laws::saved_place(saved);
    match ifaces.find(place.0, place.1) {
        Some(iface) => is_desired(iface) || is_spare(iface),
        None => true,
    }
}

/// Whether the saved interface is saved under its key, unless a desired one is
/// there.
pub open spec fn is_still_saved(ifaces: MergedInterfacesView, saved: InterfaceView) -> bool {
    let place = merge_laws::saved_place(saved);
    match ifaces.find(place.0, place.1) {
        Some(iface) => is_desired(iface) || (iface.desired is None && iface.for_save == Some(
            saved,
        )),
        None => false,
    }
}

/// Adding a saved interface saves it and touches no other key.
proof fn lemma_saved_push(
    ifaces: MergedInterfacesView,
    saved: InterfaceView,
    other: InterfaceView,
)
    requires
        is_free_for(ifaces, saved),
    ensures
        ({
            let next = ifaces.pushed(merged_iface::untouched(None, Some(saved)));
            let place = merge_laws::saved_place(other);
            &&& is_still_saved(next, saved)
            &&& !ifaces::same_place(place, merge_laws::saved_place(saved)) ==> next.find(
                place.0,
                place.1,
            ) == ifaces.find(place.0, place.1)
        }),
{
    let iface = merged_iface::untouched(None, Some(saved));
    let place = merge_laws::saved_place(saved);
    let away = merge_laws::saved_place(other);
    let value = match ifaces.find(place.0, place.1) {
        Some(existing) => merged_ifaces::with_saved(existing, Some(saved)),
        None => iface,
    };
    keymap::law_inserted(ifaces.kernel_ifaces, place.0, value, away.0);
    keymap::law_inserted(ifaces.user_ifaces, place, value, away);
    keymap::law_inserted(ifaces.kernel_ifaces, place.0, value, place.0);
    keymap::law_inserted(ifaces.user_ifaces, place, value, place);
}

/// Saved interfaces with keys of their own all stay saved, but for those that
/// desired ones are about.
proof fn lemma_saved_from(progress: MergeProgressView, list: Seq<InterfaceView>, i: int)
    requires
        0 <= i <= list.len(),
        forall|j: int, k: int|
            0 <= j < k < list.len() ==> !ifaces::same_place(
                merge_laws::saved_place(#[trigger] list[j]),
                merge_laws::saved_place(#[trigger] list[k]),
            ),
        forall|j: int|
            0 <= j < i && !progress.used_saved.contains(
                merge_ifaces::name_and_type(#[trigger] list[j]),
            ) ==> is_still_saved(progress.ifaces, list[j]),
        forall|j: int| i <= j < list.len() ==> is_free_for(progress.ifaces, #[trigger] list[j]),
    ensures
        forall|j: int|
            0 <= j < list.len() && !progress.used_saved.contains(
                merge_ifaces::name_and_type(#[trigger] list[j]),
            ) ==> is_still_saved(progress.with_saved_from(list, i).ifaces, list[j]),
    decreases list.len() - i,
{
    if i < list.len() {
        if progress.used_saved.contains(merge_ifaces::name_and_type(list[i])) {
            lemma_saved_from(progress, list, i + 1);
        } else {
            let iface = merged_iface::untouched(None, Some(list[i]));
            let next = MergeProgressView { ifaces: progress.ifaces.pushed(iface), ..progress };
            assert(is_free_for(progress.ifaces, list[i]));
            assert forall|j: int|
                0 <= j < i + 1 && !next.used_saved.contains(
                    merge_ifaces::name_and_type(#[trigger] list[j]),
                ) implies is_still_saved(next.ifaces, list[j]) by {
                lemma_saved_push(progress.ifaces, list[i], list[j]);
                if j < i {
                    assert(!ifaces::same_place(
                        merge_laws::saved_place(list[j]),
                        merge_laws::saved_place(list[i]),
                    ));
                }
            }
            assert forall|j: int| i + 1 <= j < list.len() implies is_free_for(
                next.ifaces,
                #[trigger] list[j],
            ) by {
                lemma_saved_push(progress.ifaces, list[i], list[j]);
                assert(!ifaces::same_place(
                    merge_laws::saved_place(list[i]),
                    merge_laws::saved_place(list[j]),
                ));
            }
            lemma_saved_from(next, list, i + 1);
        }
    }
}

/// The saved interfaces that desired ones are about, by name and type.
pub open spec fn used_saved(
    desired: InterfacesView,
    current: InterfacesView,
    saved: InterfacesView,
    force: bool,
) -> Seq<(Seq<char>, InterfaceType)> {
    let cur = current.veth_unified();
    let des = wifi::expanded(desired.veth_unified(), cur);
    MergeProgressView::start(current).with_desired_from(
        des.list(),
        cur,
        Some(saved),
        force,
        0,
    )->Ok_0.used_saved
}

/// Saved configuration is never lost: a saved interface that no desired one is
/// about stays saved under its key, as it was but for the IP stacks of a new
/// port, unless a desired interface is saved there. No two saved interfaces
/// share a key.
pub proof fn law_saved_is_not_lost(
    desired: InterfacesView,
    current: InterfacesView,
    saved: InterfacesView,
    force: bool,
    i: int,
)
    requires
        merge_ifaces::merged(desired, current, Some(saved), force) is Ok,
        forall|j: int, k: int|
            0 <= j < k < saved.list().len() ==> !ifaces::same_place(
                merge_laws::saved_place(#[trigger] saved.list()[j]),
                merge_laws::saved_place(#[trigger] saved.list()[k]),
            ),
        0 <= i < saved.list().len(),
        !used_saved(desired, current, saved, force).contains(
            merge_ifaces::name_and_type(saved.list()[i]),
        ),
    ensures
        ({
            let iface = saved.list()[i];
            let place = merge_laws::saved_place(iface);
            let found = merge_ifaces::merged(desired, current, Some(saved), force)->Ok_0.find(
                place.0,
                place.1,
            );
            &&& found is Some
            &&& found->0.for_save is Some
            &&& found->0.desired is None ==> found->0.for_save == Some(iface)
                || found->0.for_save == Some(without_ip(iface))
        }),
{
    let cur = current.veth_unified();
    let des = wifi::expanded(desired.veth_unified(), cur);
    let list = saved.list();
    let start = MergeProgressView::start(current);
    assert(all_desired(start.ifaces));
    lemma_desired_from(start, des.list(), cur, Some(saved), force, 0);
    let wanted = start.with_desired_from(des.list(), cur, Some(saved), force, 0)->Ok_0;
    assert(none_only_saved(wanted.ifaces));
    lemma_current_from(wanted, cur.list(), 0);
    let progress = wanted.with_current_from(cur.list(), 0);
    assert forall|j: int| 0 <= j < list.len() implies is_free_for(
        progress.ifaces,
        #[trigger] list[j],
    ) by {
        let place = merge_laws::saved_place(list[j]);
        keymap::lemma_entry_from(progress.ifaces.kernel_ifaces, place.0, 0);
        keymap::lemma_entry_from(progress.ifaces.user_ifaces, place, 0);
        if progress.ifaces.find(place.0, place.1) is Some {
            if place.1.userspace() {
                let k = keymap::entry(progress.ifaces.user_ifaces, place);
                assert(is_desired(progress.ifaces.user_ifaces[k].1) || is_spare(
                    progress.ifaces.user_ifaces[k].1,
                ));
            } else {
                let k = keymap::entry(progress.ifaces.kernel_ifaces, place.0);
                assert(is_desired(progress.ifaces.kernel_ifaces[k].1) || is_spare(
                    progress.ifaces.kernel_ifaces[k].1,
                ));
            }
        }
    }
    lemma_saved_from(progress, list, 0);
    let found = progress.with_saved_from(list, 0).ifaces;
    assert(is_still_saved(found, list[i]));
    let searched = MergedInterfacesView {
        iface_search: ifaces::search_of(found.parts(Part::Merged).list()),
        ..found
    };
    let sanitized = searched.sanitized()->Ok_0;
    let ranked = sanitized.prioritized(
        up_priority::INTERFACES_SET_PRIORITY_MAX_RETRY as nat,
    )->Ok_0;
    let all = ranked.deletes_marked();
    lemma_sanitized(searched);
    lemma_prioritized(sanitized, up_priority::INTERFACES_SET_PRIORITY_MAX_RETRY as nat);
    lemma_changed_in_place(ranked, all);
    lemma_save_same_twice(searched, sanitized, ranked);
    lemma_save_same_twice(searched, ranked, all);
    let place = merge_laws::saved_place(list[i]);
    assert(searched.find(place.0, place.1) == found.find(place.0, place.1));
    assert(saves_same(searched.find(place.0, place.1), all.find(place.0, place.1)));
}

} // verus!
