//! What holds of applying WIFI interfaces as a whole.

use vstd::prelude::*;

use crate::iface::{InterfaceView, WifiConfigView};
use crate::keymap;
use crate::wifi_client;
use crate::wifi_client::{
    ApplyView, NetworkConfigView, WifiActionView, WifiClientStateView, WifiDesiredView,
    WifiIfaceStateView,
};

verus! {

/// Whether nothing changes of a device: it is managed as before, and the client
/// does not have to hear of its networks.
pub open spec fn is_left_alone(
    apply: ApplyView,
    name: Seq<char>,
    iface: WifiIfaceStateView,
) -> bool {
    &&& keymap::unique(apply.state.ifaces)
    &&& keymap::lookup(apply.state.ifaces, name) == Some(iface)
    &&& forall|j: int| 0 <= j < apply.pending.len() ==> (#[trigger] apply.pending[j]).0 != name
}

/// Dropping other devices leaves a device alone.
proof fn lemma_without_others(
    apply: ApplyView,
    names: Seq<Seq<char>>,
    i: int,
    name: Seq<char>,
    iface: WifiIfaceStateView,
)
    requires
        0 <= i,
        is_left_alone(apply, name, iface),
        !names.contains(name),
    ensures
        is_left_alone(apply.without_from(names, i), name, iface),
    decreases names.len() - i,
{
    if i < names.len() {
        assert(names.contains(names[i]));
        keymap::law_removed(apply.state.ifaces, names[i], name);
        let next = ApplyView {
            state: WifiClientStateView {
                ifaces: keymap::removed(apply.state.ifaces, names[i]),
                ..apply.state
            },
            recreate: apply.recreate || keymap::has(apply.state.ifaces, names[i]),
            ..apply
        };
        lemma_without_others(next, names, i + 1, name, iface);
    }
}

/// What is desired leaves a device alone that is still there and of which it is
/// no news.
proof fn lemma_managed_no_news(
    apply: ApplyView,
    names: Seq<Seq<char>>,
    desired: WifiDesiredView,
    phys: Seq<(Seq<char>, u32)>,
    force: bool,
    i: int,
    name: Seq<char>,
    iface: WifiIfaceStateView,
)
    requires
        0 <= i,
        is_left_alone(apply, name, iface),
        is_no_news(name, iface, desired, phys, force),
        apply.with_managed_from(names, desired, phys, force, i).1 is Ok,
    ensures
        is_left_alone(
            apply.with_managed_from(names, desired, phys, force, i).0,
            name,
            iface,
        ),
    decreases names.len() - i,
{
    if i < names.len() {
        match keymap::lookup(apply.state.ifaces, names[i]) {
            None => {
                lemma_managed_no_news(
                    apply,
                    names,
                    desired,
                    phys,
                    force,
                    i + 1,
                    name,
                    iface,
                );
            },
            Some(found) => {
                let next = if keymap::lookup(phys, names[i]) != Some(found.if_index) {
                    keymap::law_removed(apply.state.ifaces, names[i], name);
                    ApplyView {
                        state: WifiClientStateView {
                            ifaces: keymap::removed(apply.state.ifaces, names[i]),
                            ..apply.state
                        },
                        recreate: true,
                        ..apply
                    }
                } else {
                    let networks = wifi_client::new_networks(
                        names[i],
                        found.desired_networks,
                        desired,
                        force,
                    )->Ok_0;
                    let pending = if wifi_client::is_news(
                        found.desired_networks,
                        networks,
                        force,
                    ) {
                        keymap::inserted(apply.pending, names[i], networks)
                    } else {
                        apply.pending
                    };
                    keymap::lemma_entry_from(apply.pending, names[i], 0);
                    assert forall|j: int| 0 <= j < pending.len() implies (
                    #[trigger] pending[j]).0 != name by {
                        if j < apply.pending.len() {
                            assert(apply.pending[j].0 != name);
                        }
                    }
                    ApplyView { pending, ..apply }
                };
                lemma_managed_no_news(next, names, desired, phys, force, i + 1, name, iface);
            },
        }
    }
}

/// New devices leave a device alone that is managed.
proof fn lemma_new_others(
    apply: ApplyView,
    configs: Seq<(Seq<char>, Seq<WifiConfigView>)>,
    phys: Seq<(Seq<char>, u32)>,
    force: bool,
    i: int,
    name: Seq<char>,
    iface: WifiIfaceStateView,
)
    requires
        0 <= i,
        is_left_alone(apply, name, iface),
        apply.with_new_from(configs, phys, force, i).1 is Ok,
    ensures
        is_left_alone(apply.with_new_from(configs, phys, force, i).0, name, iface),
    decreases configs.len() - i,
{
    if i < configs.len() {
        if keymap::has(apply.state.ifaces, configs[i].0) {
            lemma_new_others(apply, configs, phys, force, i + 1, name, iface);
        } else {
            let networks = wifi_client::networks_for(
                Seq::empty(),
                configs[i].1,
                force,
            )->Ok_0;
            let fresh = WifiIfaceStateView {
                if_index: keymap::lookup(phys, configs[i].0).unwrap_or(0),
                desired_networks: networks,
            };
            keymap::law_inserted(apply.state.ifaces, configs[i].0, fresh, name);
            let next = ApplyView {
                state: WifiClientStateView {
                    ifaces: keymap::inserted(apply.state.ifaces, configs[i].0, fresh),
                    ..apply.state
                },
                recreate: true,
                ..apply
            };
            lemma_new_others(next, configs, phys, force, i + 1, name, iface);
        }
    }
}

/// The networks of other devices leave a device alone.
proof fn lemma_pending_others(
    state: WifiClientStateView,
    pending: Seq<(Seq<char>, Seq<NetworkConfigView>)>,
    i: int,
    name: Seq<char>,
)
    requires
        0 <= i,
        forall|j: int| 0 <= j < pending.len() ==> (#[trigger] pending[j]).0 != name,
    ensures
        keymap::lookup(state.with_pending_from(pending, i).ifaces, name) == keymap::lookup(
            state.ifaces,
            name,
        ),
    decreases pending.len() - i,
{
    if i < pending.len() {
        let next = state.with_networks(pending[i].0, pending[i].1);
        if let Some(iface) = keymap::lookup(state.ifaces, pending[i].0) {
            keymap::law_inserted(
                state.ifaces,
                pending[i].0,
                WifiIfaceStateView { desired_networks: pending[i].1, ..iface },
                name,
            );
        }
        lemma_pending_others(next, pending, i + 1, name);
    }
}

/// Whether the device is still there and its networks are no news to the
/// client.
pub open spec fn is_no_news(
    name: Seq<char>,
    iface: WifiIfaceStateView,
    desired: WifiDesiredView,
    phys: Seq<(Seq<char>, u32)>,
    force: bool,
) -> bool {
    let networks = wifi_client::new_networks(name, iface.desired_networks, desired, force);
    &&& keymap::lookup(phys, name) == Some(iface.if_index)
    &&& networks is Ok
    &&& !wifi_client::is_news(iface.desired_networks, networks->Ok_0, force)
}

/// A device that is still there, that is not to be dropped and whose networks
/// are no news keeps them as they are, with the one that is tried first. A
/// running client that is not started anew does not hear of the device, so its
/// connection stays.
pub proof fn law_no_news(
    state: WifiClientStateView,
    ifaces: Seq<InterfaceView>,
    force: bool,
    phys: Seq<(Seq<char>, u32)>,
    name: Seq<char>,
)
    requires
        keymap::unique(state.ifaces),
        keymap::lookup(state.ifaces, name) is Some,
        WifiDesiredView::none().with_ifaces_from(ifaces, phys, 0) is Ok,
        ({
            let desired = WifiDesiredView::none().with_ifaces_from(ifaces, phys, 0)->Ok_0;
            let iface = keymap::lookup(state.ifaces, name)->0;
            &&& !desired.ifaces_to_delete.contains(name)
            &&& is_no_news(name, iface, desired, phys, force)
        }),
        state.applied(ifaces, force, phys).1 is Ok,
    ensures
        ({
            let (after, action) = state.applied(ifaces, force, phys);
            &&& keymap::lookup(after.ifaces, name) == keymap::lookup(state.ifaces, name)
            &&& action->Ok_0 is Update ==> forall|j: int|
                0 <= j < action->Ok_0->Update_0.len() ==> (
                #[trigger] action->Ok_0->Update_0[j]).iface_name != name
        }),
{
    let on = WifiClientStateView {
        enabled: state.enabled || wifi_client::up_requested(ifaces),
        ..state
    };
    let iface = keymap::lookup(state.ifaces, name)->0;
    let desired = WifiDesiredView::none().with_ifaces_from(ifaces, phys, 0)->Ok_0;
    let start = ApplyView { state: on, pending: Seq::empty(), recreate: false };
    let kept = start.without_from(desired.ifaces_to_delete, 0);
    let names = wifi_client::keys_of(kept.state.ifaces);
    let managed = kept.with_managed_from(names, desired, phys, force, 0).0;
    let apply = managed.with_new_from(desired.configs, phys, force, 0).0;
    lemma_without_others(start, desired.ifaces_to_delete, 0, name, iface);
    lemma_managed_no_news(kept, names, desired, phys, force, 0, name, iface);
    lemma_new_others(managed, desired.configs, phys, force, 0, name, iface);
    lemma_pending_others(apply.state, apply.pending, 0, name);
}

/// Networks none of which is dropped stay as they are.
proof fn lemma_none_dropped(
    networks: Seq<NetworkConfigView>,
    dropped: Seq<Seq<char>>,
    i: int,
    acc: Seq<NetworkConfigView>,
)
    requires
        0 <= i <= networks.len(),
        acc == networks.subrange(0, i),
        forall|j: int|
            0 <= j < networks.len() ==> !dropped.contains((#[trigger] networks[j]).ssid),
    ensures
        wifi_client::networks_kept_from(networks, dropped, i, acc) == networks,
    decreases networks.len() - i,
{
    if i < networks.len() {
        assert(acc.push(networks[i]) =~= networks.subrange(0, i + 1));
        lemma_none_dropped(networks, dropped, i + 1, acc.push(networks[i]));
    } else {
        assert(acc =~= networks);
    }
}

/// An apply that is not forced and does not mention a device that is still
/// there leaves it alone, as long as none of its networks is to be dropped: it
/// keeps its networks, and a running client that is not started anew does not
/// hear of it.
pub proof fn law_unmentioned_device(
    state: WifiClientStateView,
    ifaces: Seq<InterfaceView>,
    phys: Seq<(Seq<char>, u32)>,
    name: Seq<char>,
)
    requires
        keymap::unique(state.ifaces),
        keymap::lookup(state.ifaces, name) is Some,
        keymap::lookup(phys, name) == Some(keymap::lookup(state.ifaces, name)->0.if_index),
        WifiDesiredView::none().with_ifaces_from(ifaces, phys, 0) is Ok,
        ({
            let desired = WifiDesiredView::none().with_ifaces_from(ifaces, phys, 0)->Ok_0;
            let networks = keymap::lookup(state.ifaces, name)->0.desired_networks;
            &&& keymap::lookup(desired.configs, name) is None
            &&& !desired.ifaces_to_delete.contains(name)
            &&& forall|j: int|
                0 <= j < networks.len() ==> !desired.ssids_to_delete.contains(
                    (#[trigger] networks[j]).ssid,
                )
        }),
        state.applied(ifaces, false, phys).1 is Ok,
    ensures
        ({
            let (after, action) = state.applied(ifaces, false, phys);
            &&& keymap::lookup(after.ifaces, name) == keymap::lookup(state.ifaces, name)
            &&& action->Ok_0 is Update ==> forall|j: int|
                0 <= j < action->Ok_0->Update_0.len() ==> (
                #[trigger] action->Ok_0->Update_0[j]).iface_name != name
        }),
{
    let desired = WifiDesiredView::none().with_ifaces_from(ifaces, phys, 0)->Ok_0;
    let networks = keymap::lookup(state.ifaces, name)->0.desired_networks;
    assert(networks.subrange(0, 0) =~= Seq::empty());
    lemma_none_dropped(networks, desired.ssids_to_delete, 0, Seq::empty());
    wifi_client::law_same_saved(networks, networks, networks);
    law_no_news(state, ifaces, false, phys, name);
}

/// Whether a device is managed no longer.
pub open spec fn is_dropped(apply: ApplyView, name: Seq<char>) -> bool {
    keymap::unique(apply.state.ifaces) && keymap::lookup(apply.state.ifaces, name) is None
}

/// A device to drop is dropped.
proof fn lemma_without_dropped(
    apply: ApplyView,
    names: Seq<Seq<char>>,
    i: int,
    k: int,
)
    requires
        0 <= i,
        0 <= k < names.len(),
        keymap::unique(apply.state.ifaces),
        i <= k || is_dropped(apply, names[k]),
    ensures
        is_dropped(apply.without_from(names, i), names[k]),
    decreases names.len() - i,
{
    if i < names.len() {
        keymap::law_removed(apply.state.ifaces, names[i], names[k]);
        let next = ApplyView {
            state: WifiClientStateView {
                ifaces: keymap::removed(apply.state.ifaces, names[i]),
                ..apply.state
            },
            recreate: apply.recreate || keymap::has(apply.state.ifaces, names[i]),
            ..apply
        };
        lemma_without_dropped(next, names, i + 1, k);
    }
}

/// What is desired of managed devices brings no device back.
proof fn lemma_managed_dropped(
    apply: ApplyView,
    names: Seq<Seq<char>>,
    desired: WifiDesiredView,
    phys: Seq<(Seq<char>, u32)>,
    force: bool,
    i: int,
    name: Seq<char>,
)
    requires
        0 <= i,
        is_dropped(apply, name),
    ensures
        is_dropped(apply.with_managed_from(names, desired, phys, force, i).0, name),
    decreases names.len() - i,
{
    if i < names.len() {
        match keymap::lookup(apply.state.ifaces, names[i]) {
            None => {
                lemma_managed_dropped(apply, names, desired, phys, force, i + 1, name);
            },
            Some(found) => if keymap::lookup(phys, names[i]) != Some(found.if_index) {
                keymap::law_removed(apply.state.ifaces, names[i], name);
                let next = ApplyView {
                    state: WifiClientStateView {
                        ifaces: keymap::removed(apply.state.ifaces, names[i]),
                        ..apply.state
                    },
                    recreate: true,
                    ..apply
                };
                lemma_managed_dropped(next, names, desired, phys, force, i + 1, name);
            } else if let Ok(networks) = wifi_client::new_networks(
                names[i],
                found.desired_networks,
                desired,
                force,
            ) {
                let next = ApplyView {
                    pending: if wifi_client::is_news(found.desired_networks, networks, force) {
                        keymap::inserted(apply.pending, names[i], networks)
                    } else {
                        apply.pending
                    },
                    ..apply
                };
                lemma_managed_dropped(next, names, desired, phys, force, i + 1, name);
            },
        }
    }
}

/// New devices bring no device back that is not among them.
proof fn lemma_new_dropped(
    apply: ApplyView,
    configs: Seq<(Seq<char>, Seq<WifiConfigView>)>,
    phys: Seq<(Seq<char>, u32)>,
    force: bool,
    i: int,
    name: Seq<char>,
)
    requires
        0 <= i,
        is_dropped(apply, name),
        forall|j: int| 0 <= j < configs.len() ==> (#[trigger] configs[j]).0 != name,
    ensures
        is_dropped(apply.with_new_from(configs, phys, force, i).0, name),
    decreases configs.len() - i,
{
    if i < configs.len() {
        assert(configs[i].0 != name);
        if keymap::has(apply.state.ifaces, configs[i].0) {
            lemma_new_dropped(apply, configs, phys, force, i + 1, name);
        } else if let Ok(networks) = wifi_client::networks_for(
            Seq::empty(),
            configs[i].1,
            force,
        ) {
            let fresh = WifiIfaceStateView {
                if_index: keymap::lookup(phys, configs[i].0).unwrap_or(0),
                desired_networks: networks,
            };
            keymap::law_inserted(apply.state.ifaces, configs[i].0, fresh, name);
            let next = ApplyView {
                state: WifiClientStateView {
                    ifaces: keymap::inserted(apply.state.ifaces, configs[i].0, fresh),
                    ..apply.state
                },
                recreate: true,
                ..apply
            };
            lemma_new_dropped(next, configs, phys, force, i + 1, name);
        }
    }
}

/// Networks bring no device back, and take none away.
proof fn lemma_pending_managed(
    state: WifiClientStateView,
    pending: Seq<(Seq<char>, Seq<NetworkConfigView>)>,
    i: int,
    name: Seq<char>,
)
    requires
        0 <= i,
        keymap::unique(state.ifaces),
    ensures
        keymap::unique(state.with_pending_from(pending, i).ifaces),
        keymap::lookup(state.with_pending_from(pending, i).ifaces, name) is Some
            == keymap::lookup(state.ifaces, name) is Some,
    decreases pending.len() - i,
{
    if i < pending.len() {
        let next = state.with_networks(pending[i].0, pending[i].1);
        if let Some(iface) = keymap::lookup(state.ifaces, pending[i].0) {
            keymap::law_inserted(
                state.ifaces,
                pending[i].0,
                WifiIfaceStateView { desired_networks: pending[i].1, ..iface },
                name,
            );
        }
        lemma_pending_managed(next, pending, i + 1, name);
    }
}

/// A device that is absent or down is managed no longer, unless networks are
/// desired of it at the same time.
pub proof fn law_dropped_device(
    state: WifiClientStateView,
    ifaces: Seq<InterfaceView>,
    force: bool,
    phys: Seq<(Seq<char>, u32)>,
    name: Seq<char>,
)
    requires
        keymap::unique(state.ifaces),
        WifiDesiredView::none().with_ifaces_from(ifaces, phys, 0) is Ok,
        ({
            let desired = WifiDesiredView::none().with_ifaces_from(ifaces, phys, 0)->Ok_0;
            &&& desired.ifaces_to_delete.contains(name)
            &&& keymap::lookup(desired.configs, name) is None
        }),
    ensures
        keymap::lookup(state.applied(ifaces, force, phys).0.ifaces, name) is None,
        keymap::unique(state.applied(ifaces, force, phys).0.ifaces),
{
    let on = WifiClientStateView {
        enabled: state.enabled || wifi_client::up_requested(ifaces),
        ..state
    };
    let desired = WifiDesiredView::none().with_ifaces_from(ifaces, phys, 0)->Ok_0;
    let start = ApplyView { state: on, pending: Seq::empty(), recreate: false };
    let kept = start.without_from(desired.ifaces_to_delete, 0);
    let names = wifi_client::keys_of(kept.state.ifaces);
    let managed = kept.with_managed_from(names, desired, phys, force, 0).0;
    let apply = managed.with_new_from(desired.configs, phys, force, 0).0;
    keymap::lemma_entry_from(desired.configs, name, 0);
    lemma_without_dropped(
        start,
        desired.ifaces_to_delete,
        0,
        desired.ifaces_to_delete.index_of(name),
    );
    lemma_managed_dropped(kept, names, desired, phys, force, 0, name);
    lemma_new_dropped(managed, desired.configs, phys, force, 0, name);
    lemma_pending_managed(apply.state, apply.pending, 0, name);
}

/// Every desired device is managed once new devices are.
proof fn lemma_new_managed(
    apply: ApplyView,
    configs: Seq<(Seq<char>, Seq<WifiConfigView>)>,
    phys: Seq<(Seq<char>, u32)>,
    force: bool,
    i: int,
    name: Seq<char>,
)
    requires
        0 <= i <= configs.len(),
        keymap::unique(apply.state.ifaces),
        apply.with_new_from(configs, phys, force, i).1 is Ok,
        keymap::lookup(apply.state.ifaces, name) is Some || exists|j: int|
            i <= j < configs.len() && (#[trigger] configs[j]).0 == name,
    ensures
        keymap::lookup(
            apply.with_new_from(configs, phys, force, i).0.state.ifaces,
            name,
        ) is Some,
        keymap::unique(apply.with_new_from(configs, phys, force, i).0.state.ifaces),
    decreases configs.len() - i,
{
    if i < configs.len() {
        if keymap::has(apply.state.ifaces, configs[i].0) {
            lemma_new_managed(apply, configs, phys, force, i + 1, name);
        } else {
            let networks = wifi_client::networks_for(
                Seq::empty(),
                configs[i].1,
                force,
            )->Ok_0;
            let fresh = WifiIfaceStateView {
                if_index: keymap::lookup(phys, configs[i].0).unwrap_or(0),
                desired_networks: networks,
            };
            keymap::law_inserted(apply.state.ifaces, configs[i].0, fresh, name);
            let next = ApplyView {
                state: WifiClientStateView {
                    ifaces: keymap::inserted(apply.state.ifaces, configs[i].0, fresh),
                    ..apply.state
                },
                recreate: true,
                ..apply
            };
            lemma_new_managed(next, configs, phys, force, i + 1, name);
        }
    }
}

/// Dropping devices leaves none twice.
proof fn lemma_without_unique(apply: ApplyView, names: Seq<Seq<char>>, i: int)
    requires
        0 <= i,
        keymap::unique(apply.state.ifaces),
    ensures
        keymap::unique(apply.without_from(names, i).state.ifaces),
    decreases names.len() - i,
{
    if i < names.len() {
        keymap::law_removed(apply.state.ifaces, names[i], names[i]);
        let next = ApplyView {
            state: WifiClientStateView {
                ifaces: keymap::removed(apply.state.ifaces, names[i]),
                ..apply.state
            },
            recreate: apply.recreate || keymap::has(apply.state.ifaces, names[i]),
            ..apply
        };
        lemma_without_unique(next, names, i + 1);
    }
}

/// What is desired of managed devices leaves none twice.
proof fn lemma_managed_unique(
    apply: ApplyView,
    names: Seq<Seq<char>>,
    desired: WifiDesiredView,
    phys: Seq<(Seq<char>, u32)>,
    force: bool,
    i: int,
)
    requires
        0 <= i,
        keymap::unique(apply.state.ifaces),
    ensures
        keymap::unique(
            apply.with_managed_from(names, desired, phys, force, i).0.state.ifaces,
        ),
    decreases names.len() - i,
{
    if i < names.len() {
        match keymap::lookup(apply.state.ifaces, names[i]) {
            None => {
                lemma_managed_unique(apply, names, desired, phys, force, i + 1);
            },
            Some(found) => if keymap::lookup(phys, names[i]) != Some(found.if_index) {
                keymap::law_removed(apply.state.ifaces, names[i], names[i]);
                let next = ApplyView {
                    state: WifiClientStateView {
                        ifaces: keymap::removed(apply.state.ifaces, names[i]),
                        ..apply.state
                    },
                    recreate: true,
                    ..apply
                };
                lemma_managed_unique(next, names, desired, phys, force, i + 1);
            } else if let Ok(networks) = wifi_client::new_networks(
                names[i],
                found.desired_networks,
                desired,
                force,
            ) {
                let next = ApplyView {
                    pending: if wifi_client::is_news(found.desired_networks, networks, force) {
                        keymap::inserted(apply.pending, names[i], networks)
                    } else {
                        apply.pending
                    },
                    ..apply
                };
                lemma_managed_unique(next, names, desired, phys, force, i + 1);
            },
        }
    }
}

/// After an apply every device of which networks are desired is managed, and no
/// device is managed twice.
pub proof fn law_desired_device(
    state: WifiClientStateView,
    ifaces: Seq<InterfaceView>,
    force: bool,
    phys: Seq<(Seq<char>, u32)>,
    name: Seq<char>,
)
    requires
        keymap::unique(state.ifaces),
        state.applied(ifaces, force, phys).1 is Ok,
        keymap::lookup(
            WifiDesiredView::none().with_ifaces_from(ifaces, phys, 0)->Ok_0.configs,
            name,
        ) is Some,
    ensures
        keymap::lookup(state.applied(ifaces, force, phys).0.ifaces, name) is Some,
        keymap::unique(state.applied(ifaces, force, phys).0.ifaces),
{
    let on = WifiClientStateView {
        enabled: state.enabled || wifi_client::up_requested(ifaces),
        ..state
    };
    let desired = WifiDesiredView::none().with_ifaces_from(ifaces, phys, 0)->Ok_0;
    let start = ApplyView { state: on, pending: Seq::empty(), recreate: false };
    let kept = start.without_from(desired.ifaces_to_delete, 0);
    let names = wifi_client::keys_of(kept.state.ifaces);
    let managed = kept.with_managed_from(names, desired, phys, force, 0).0;
    let apply = managed.with_new_from(desired.configs, phys, force, 0).0;
    keymap::lemma_entry_from(desired.configs, name, 0);
    let k = keymap::entry(desired.configs, name);
    assert(desired.configs[k].0 == name);
    lemma_without_unique(start, desired.ifaces_to_delete, 0);
    lemma_managed_unique(kept, names, desired, phys, force, 0);
    lemma_new_managed(managed, desired.configs, phys, force, 0, name);
    lemma_pending_managed(apply.state, apply.pending, 0, name);
}

/// Whether the interface is a WIFI configuration that is absent or down and
/// whose network has the SSID; one that comes without its network stands for
/// the SSID that it is named after.
pub open spec fn drops_network(iface: InterfaceView, ssid: Seq<char>) -> bool {
    &&& iface.base.iface_type is WifiCfg
    &&& iface.base.state is Absent || iface.base.state is Down
    &&& ssid == if iface.wifi is Some {
        iface.wifi->0.ssid
    } else {
        iface.base.name
    }
}

/// Whether the interface wants a network of the device: it is up and has a
/// network, and is the device itself or a WIFI configuration that is bound to
/// it, or bound to none while the device is the first one.
pub open spec fn wants_network(
    iface: InterfaceView,
    phys: Seq<(Seq<char>, u32)>,
    name: Seq<char>,
) -> bool {
    &&& iface.base.state is Up
    &&& iface.wifi is Some
    &&& {
        ||| iface.base.iface_type is WifiPhy && iface.base.kernel_iface_name == name
        ||| iface.base.iface_type is WifiCfg && iface.wifi->0.base_iface == Some(name)
        ||| iface.base.iface_type is WifiCfg && iface.wifi->0.base_iface is None && phys.len() > 0
            && phys[0].0 == name
    }
}

/// Whether these are the networks of the device after an apply: those that the
/// client is told of, or those in the state where it is told of none.
pub open spec fn has_networks(
    after: WifiClientStateView,
    action: WifiActionView,
    name: Seq<char>,
    networks: Seq<NetworkConfigView>,
) -> bool {
    let kept = keymap::lookup(after.ifaces, name) is Some && keymap::lookup(
        after.ifaces,
        name,
    )->0.desired_networks == networks;
    match action {
        WifiActionView::Nothing => kept,
        WifiActionView::Restart(starts) => kept || exists|j: int|
            0 <= j < starts.len() && (#[trigger] starts[j]).iface_name == name
                && starts[j].networks == networks,
        WifiActionView::Update(updates) => {
            ||| exists|j: int|
                0 <= j < updates.len() && (#[trigger] updates[j]).iface_name == name
                    && updates[j].networks == networks
            ||| kept && forall|j: int|
                0 <= j < updates.len() ==> (#[trigger] updates[j]).iface_name != name
        },
    }
}

/// Whether what the client has to hear of the device has the property, and it
/// has to hear of it where the networks of the device do not have it.
pub open spec fn is_heard(
    apply: ApplyView,
    name: Seq<char>,
    p: spec_fn(Seq<NetworkConfigView>) -> bool,
) -> bool {
    &&& keymap::unique(apply.state.ifaces)
    &&& keymap::unique(apply.pending)
    &&& keymap::lookup(apply.pending, name) is Some ==> p(keymap::lookup(apply.pending, name)->0)
    &&& keymap::lookup(apply.state.ifaces, name) is Some && !p(
        keymap::lookup(apply.state.ifaces, name)->0.desired_networks,
    ) ==> keymap::lookup(apply.pending, name) is Some
}

/// Whether the networks that are desired of a managed device always have the
/// property `p` when those that it has have the property `q`, and are news to
/// one whose networks do not have it.
pub open spec fn brings(
    name: Seq<char>,
    desired: WifiDesiredView,
    force: bool,
    q: spec_fn(Seq<NetworkConfigView>) -> bool,
    p: spec_fn(Seq<NetworkConfigView>) -> bool,
) -> bool {
    forall|existing: Seq<NetworkConfigView>|
        {
            let networks = #[trigger] wifi_client::new_networks(name, existing, desired, force);
            q(existing) && networks is Ok ==> p(networks->Ok_0) && (!p(existing) ==> wifi_client::is_news(
                existing,
                networks->Ok_0,
                force,
            ))
        }
}

/// What is desired of the managed devices reaches the device.
proof fn lemma_managed_heard(
    apply: ApplyView,
    names: Seq<Seq<char>>,
    desired: WifiDesiredView,
    phys: Seq<(Seq<char>, u32)>,
    force: bool,
    i: int,
    name: Seq<char>,
    q: spec_fn(Seq<NetworkConfigView>) -> bool,
    p: spec_fn(Seq<NetworkConfigView>) -> bool,
)
    requires
        0 <= i,
        brings(name, desired, force, q, p),
        keymap::lookup(apply.state.ifaces, name) is Some ==> q(
            keymap::lookup(apply.state.ifaces, name)->0.desired_networks,
        ),
        keymap::unique(apply.state.ifaces),
        keymap::unique(apply.pending),
        keymap::lookup(apply.pending, name) is Some ==> p(keymap::lookup(apply.pending, name)->0),
        is_heard(apply, name, p) || exists|j: int|
            i <= j < names.len() && (#[trigger] names[j]) == name,
        apply.with_managed_from(names, desired, phys, force, i).1 is Ok,
    ensures
        is_heard(apply.with_managed_from(names, desired, phys, force, i).0, name, p),
    decreases names.len() - i,
{
    if i < names.len() {
        match keymap::lookup(apply.state.ifaces, names[i]) {
            None => {
                lemma_managed_heard(apply, names, desired, phys, force, i + 1, name, q, p);
            },
            Some(found) => {
                let next = if keymap::lookup(phys, names[i]) != Some(found.if_index) {
                    keymap::law_removed(apply.state.ifaces, names[i], name);
                    ApplyView {
                        state: WifiClientStateView {
                            ifaces: keymap::removed(apply.state.ifaces, names[i]),
                            ..apply.state
                        },
                        recreate: true,
                        ..apply
                    }
                } else {
                    let networks = wifi_client::new_networks(
                        names[i],
                        found.desired_networks,
                        desired,
                        force,
                    )->Ok_0;
                    keymap::law_inserted(apply.pending, names[i], networks, name);
                    ApplyView {
                        pending: if wifi_client::is_news(found.desired_networks, networks, force) {
                            keymap::inserted(apply.pending, names[i], networks)
                        } else {
                            apply.pending
                        },
                        ..apply
                    }
                };
                lemma_managed_heard(next, names, desired, phys, force, i + 1, name, q, p);
            },
        }
    }
}

/// What is desired of new devices reaches the device.
proof fn lemma_new_heard(
    apply: ApplyView,
    configs: Seq<(Seq<char>, Seq<WifiConfigView>)>,
    phys: Seq<(Seq<char>, u32)>,
    force: bool,
    i: int,
    name: Seq<char>,
    p: spec_fn(Seq<NetworkConfigView>) -> bool,
)
    requires
        0 <= i,
        is_heard(apply, name, p),
        forall|j: int|
            0 <= j < configs.len() && (#[trigger] configs[j]).0 == name ==> {
                let networks = wifi_client::networks_for(Seq::empty(), configs[j].1, force);
                networks is Ok ==> p(networks->Ok_0)
            },
        apply.with_new_from(configs, phys, force, i).1 is Ok,
    ensures
        is_heard(apply.with_new_from(configs, phys, force, i).0, name, p),
    decreases configs.len() - i,
{
    if i < configs.len() {
        if keymap::has(apply.state.ifaces, configs[i].0) {
            lemma_new_heard(apply, configs, phys, force, i + 1, name, p);
        } else {
            let networks = wifi_client::networks_for(Seq::empty(), configs[i].1, force)->Ok_0;
            let fresh = WifiIfaceStateView {
                if_index: keymap::lookup(phys, configs[i].0).unwrap_or(0),
                desired_networks: networks,
            };
            keymap::law_inserted(apply.state.ifaces, configs[i].0, fresh, name);
            let next = ApplyView {
                state: WifiClientStateView {
                    ifaces: keymap::inserted(apply.state.ifaces, configs[i].0, fresh),
                    ..apply.state
                },
                recreate: true,
                ..apply
            };
            lemma_new_heard(next, configs, phys, force, i + 1, name, p);
        }
    }
}

/// The networks of a device are the pending ones where there are any.
proof fn lemma_pending_taken(
    state: WifiClientStateView,
    pending: Seq<(Seq<char>, Seq<NetworkConfigView>)>,
    i: int,
    name: Seq<char>,
)
    requires
        0 <= i <= pending.len(),
        keymap::unique(pending),
        keymap::unique(state.ifaces),
    ensures
        ({
            let after = keymap::lookup(state.with_pending_from(pending, i).ifaces, name);
            let before = keymap::lookup(state.ifaces, name);
            &&& after is Some == before is Some
            &&& after is Some ==> after->0.desired_networks == if i <= keymap::entry(pending, name)
                < pending.len() {
                keymap::lookup(pending, name)->0
            } else {
                before->0.desired_networks
            }
        }),
        keymap::unique(state.with_pending_from(pending, i).ifaces),
    decreases pending.len() - i,
{
    keymap::lemma_entry_from(pending, name, 0);
    if i < pending.len() {
        let next = state.with_networks(pending[i].0, pending[i].1);
        if let Some(iface) = keymap::lookup(state.ifaces, pending[i].0) {
            keymap::law_inserted(
                state.ifaces,
                pending[i].0,
                WifiIfaceStateView { desired_networks: pending[i].1, ..iface },
                name,
            );
        }
        keymap::lemma_entry_is(pending, pending[i].0, i, 0);
        lemma_pending_taken(next, pending, i + 1, name);
    }
}

/// An apply gives a device networks with a property that is brought to it.
proof fn lemma_apply_brings(
    state: WifiClientStateView,
    ifaces: Seq<InterfaceView>,
    force: bool,
    phys: Seq<(Seq<char>, u32)>,
    name: Seq<char>,
    q: spec_fn(Seq<NetworkConfigView>) -> bool,
    p: spec_fn(Seq<NetworkConfigView>) -> bool,
    networks: Seq<NetworkConfigView>,
)
    requires
        keymap::unique(state.ifaces),
        keymap::lookup(state.ifaces, name) is Some ==> q(
            keymap::lookup(state.ifaces, name)->0.desired_networks,
        ),
        state.applied(ifaces, force, phys).1 is Ok,
        ({
            let desired = WifiDesiredView::none().with_ifaces_from(ifaces, phys, 0)->Ok_0;
            &&& brings(name, desired, force, q, p)
            &&& forall|j: int|
                0 <= j < desired.configs.len() && (#[trigger] desired.configs[j]).0 == name ==> {
                    let fresh = wifi_client::networks_for(
                        Seq::empty(),
                        desired.configs[j].1,
                        force,
                    );
                    fresh is Ok ==> p(fresh->Ok_0)
                }
        }),
        has_networks(
            state.applied(ifaces, force, phys).0,
            state.applied(ifaces, force, phys).1->Ok_0,
            name,
            networks,
        ),
    ensures
        p(networks),
{
    let on = WifiClientStateView {
        enabled: state.enabled || wifi_client::up_requested(ifaces),
        ..state
    };
    let desired = WifiDesiredView::none().with_ifaces_from(ifaces, phys, 0)->Ok_0;
    let start = ApplyView { state: on, pending: Seq::empty(), recreate: false };
    let kept = start.without_from(desired.ifaces_to_delete, 0);
    let names = wifi_client::keys_of(kept.state.ifaces);
    let managed = kept.with_managed_from(names, desired, phys, force, 0).0;
    let apply = managed.with_new_from(desired.configs, phys, force, 0).0;
    lemma_without_unique(start, desired.ifaces_to_delete, 0);
    lemma_without_pending(start, desired.ifaces_to_delete, 0);
    keymap::lemma_entry_from(kept.state.ifaces, name, 0);
    if keymap::has(kept.state.ifaces, name) {
        assert(names[keymap::entry(kept.state.ifaces, name)] == name);
    }
    lemma_without_same(start, desired.ifaces_to_delete, 0, name);
    lemma_managed_heard(kept, names, desired, phys, force, 0, name, q, p);
    lemma_new_heard(managed, desired.configs, phys, force, 0, name, p);
    let pending = apply.pending;
    lemma_pending_taken(apply.state, pending, 0, name);
    keymap::lemma_entry_from(pending, name, 0);
    let (after, action) = apply.state.settled(apply, desired.configs, force);
    match action {
        WifiActionView::Nothing => {
            if apply.state.enabled {
                keymap::lemma_entry_from(after.ifaces, name, 0);
            }
        },
        WifiActionView::Restart(starts) => {
            if exists|j: int|
                0 <= j < starts.len() && (#[trigger] starts[j]).iface_name == name
                    && starts[j].networks == networks {
                let j = choose|j: int|
                    0 <= j < starts.len() && (#[trigger] starts[j]).iface_name == name
                        && starts[j].networks == networks;
                let all = apply.state.with_pending_from(pending, 0).ifaces;
                assert(all[j].0 == name);
                keymap::lemma_entry_is(all, name, j, 0);
            }
        },
        WifiActionView::Update(updates) => {
            if exists|j: int|
                0 <= j < updates.len() && (#[trigger] updates[j]).iface_name == name
                    && updates[j].networks == networks {
                let j = choose|j: int|
                    0 <= j < updates.len() && (#[trigger] updates[j]).iface_name == name
                        && updates[j].networks == networks;
                assert(pending[j].0 == name);
                keymap::lemma_entry_is(pending, name, j, 0);
            } else if keymap::has(pending, name) {
                assert(updates[keymap::entry(pending, name)].iface_name == name);
            }
        },
    }
}

/// Dropping devices leaves nothing for the client to hear.
proof fn lemma_without_pending(apply: ApplyView, names: Seq<Seq<char>>, i: int)
    requires
        0 <= i,
    ensures
        apply.without_from(names, i).pending == apply.pending,
    decreases names.len() - i,
{
    if i < names.len() {
        let next = ApplyView {
            state: WifiClientStateView {
                ifaces: keymap::removed(apply.state.ifaces, names[i]),
                ..apply.state
            },
            recreate: apply.recreate || keymap::has(apply.state.ifaces, names[i]),
            ..apply
        };
        lemma_without_pending(next, names, i + 1);
    }
}

/// What the interfaces desire: the SSIDs of configurations to drop are dropped,
/// and the networks that are wanted of a device, and no others, are its
/// configurations.
proof fn lemma_collected(
    acc: WifiDesiredView,
    ifaces: Seq<InterfaceView>,
    phys: Seq<(Seq<char>, u32)>,
    i: int,
    name: Seq<char>,
    ssid: Seq<char>,
    config: WifiConfigView,
)
    requires
        0 <= i <= ifaces.len(),
        acc.with_ifaces_from(ifaces, phys, i) is Ok,
        keymap::unique(acc.configs),
    ensures
        ({
            let desired = acc.with_ifaces_from(ifaces, phys, i)->Ok_0;
            let before = keymap::lookup(acc.configs, name).unwrap_or(Seq::empty());
            let configs = keymap::lookup(desired.configs, name).unwrap_or(Seq::empty());
            &&& keymap::unique(desired.configs)
            &&& acc.ssids_to_delete.contains(ssid) ==> desired.ssids_to_delete.contains(ssid)
            &&& forall|j: int|
                i <= j < ifaces.len() && drops_network(#[trigger] ifaces[j], ssid)
                    ==> desired.ssids_to_delete.contains(ssid)
            &&& desired.ssids_to_delete.contains(ssid) ==> acc.ssids_to_delete.contains(ssid)
                || exists|j: int| i <= j < ifaces.len() && drops_network(#[trigger] ifaces[j], ssid)
            &&& configs.contains(config) <==> before.contains(config) || exists|j: int|
                i <= j < ifaces.len() && wants_network(#[trigger] ifaces[j], phys, name)
                    && ifaces[j].wifi->0 == config
            &&& keymap::lookup(desired.configs, name) is Some <==> keymap::lookup(
                acc.configs,
                name,
            ) is Some || exists|j: int|
                i <= j < ifaces.len() && wants_network(#[trigger] ifaces[j], phys, name)
        }),
    decreases ifaces.len() - i,
{
    if i < ifaces.len() {
        let iface = ifaces[i];
        let next = acc.with_iface(iface, phys)->Ok_0;
        if wifi_client::is_wifi(iface) {
            if iface.base.state is Absent || iface.base.state is Down {
                let gone = match iface.wifi {
                    Some(wifi) => wifi.ssid,
                    None => iface.base.name,
                };
                lemma_with_text(acc.ssids_to_delete, gone, ssid);
            } else if iface.base.state is Up && iface.wifi is Some {
                if let Some(device) = wifi_client::device_of(iface, phys) {
                    let before = keymap::lookup(acc.configs, device).unwrap_or(Seq::empty());
                    let list = before.push(iface.wifi->0);
                    keymap::law_inserted(acc.configs, device, list, name);
                    lemma_with_config(before, iface.wifi->0, config);
                    assert((device == name) == wants_network(iface, phys, name));
                }
            }
        }
        lemma_collected(next, ifaces, phys, i + 1, name, ssid, config);
    }
}

/// A list of texts with one more holds what it held and that text.
proof fn lemma_with_text(names: Seq<Seq<char>>, name: Seq<char>, other: Seq<char>)
    ensures
        wifi_client::with_text(names, name).contains(other) <==> names.contains(other) || other
            == name,
{
    let next = names.push(name);
    if names.contains(other) {
        assert(next[names.index_of(other)] == other);
    }
    assert(next[names.len() as int] == name);
    if next.contains(other) && other != name {
        assert(names[next.index_of(other)] == other);
    }
}

/// A list of configurations with one more holds what it held and that one.
proof fn lemma_with_config(
    configs: Seq<WifiConfigView>,
    config: WifiConfigView,
    other: WifiConfigView,
)
    ensures
        configs.push(config).contains(other) <==> configs.contains(other) || other == config,
{
    let next = configs.push(config);
    if configs.contains(other) {
        assert(next[configs.index_of(other)] == other);
    }
    assert(next[configs.len() as int] == config);
    if next.contains(other) && other != config {
        assert(configs[next.index_of(other)] == other);
    }
}

/// Of the networks of a device, those with a dropped SSID go, and no others.
proof fn lemma_kept(
    networks: Seq<NetworkConfigView>,
    dropped: Seq<Seq<char>>,
    i: int,
    acc: Seq<NetworkConfigView>,
    ssid: Seq<char>,
)
    requires
        0 <= i <= networks.len(),
        dropped.contains(ssid),
        !wifi_client::has_ssid(acc, ssid),
    ensures
        !wifi_client::has_ssid(
            wifi_client::networks_kept_from(networks, dropped, i, acc),
            ssid,
        ),
    decreases networks.len() - i,
{
    if i < networks.len() {
        if dropped.contains(networks[i].ssid) {
            lemma_kept(networks, dropped, i + 1, acc, ssid);
        } else {
            let next = acc.push(networks[i]);
            assert(!wifi_client::has_ssid(next, ssid)) by {
                if wifi_client::has_ssid(next, ssid) {
                    let k = choose|k: int|
                        0 <= k < next.len() && (#[trigger] next[k]).ssid == ssid;
                    if k < acc.len() {
                        assert(acc[k].ssid == ssid);
                    }
                }
            }
            lemma_kept(networks, dropped, i + 1, next, ssid);
        }
    }
}

/// Networks that are the same but for which is tried first have the same SSIDs.
proof fn lemma_same_ssids(
    a: Seq<NetworkConfigView>,
    b: Seq<NetworkConfigView>,
    ssid: Seq<char>,
)
    requires
        wifi_client::same_saved(a, b),
    ensures
        wifi_client::has_ssid(a, ssid) == wifi_client::has_ssid(b, ssid),
{
    if wifi_client::has_ssid(a, ssid) {
        let k = choose|k: int| 0 <= k < a.len() && (#[trigger] a[k]).ssid == ssid;
        assert(wifi_client::demoted(a[k]) == wifi_client::demoted(b[k]));
        assert(b[k].ssid == ssid);
    }
    if wifi_client::has_ssid(b, ssid) {
        let k = choose|k: int| 0 <= k < b.len() && (#[trigger] b[k]).ssid == ssid;
        assert(wifi_client::demoted(a[k]) == wifi_client::demoted(b[k]));
        assert(a[k].ssid == ssid);
    }
}

/// After a successful apply of a WIFI configuration that is absent or down, no
/// managed device that no network is wanted of has a network with its SSID:
/// neither in what the client is told, nor in the state that is kept.
pub proof fn law_dropped_network(
    state: WifiClientStateView,
    ifaces: Seq<InterfaceView>,
    force: bool,
    phys: Seq<(Seq<char>, u32)>,
    k: int,
    name: Seq<char>,
    ssid: Seq<char>,
    networks: Seq<NetworkConfigView>,
)
    requires
        keymap::unique(state.ifaces),
        state.applied(ifaces, force, phys).1 is Ok,
        0 <= k < ifaces.len(),
        drops_network(ifaces[k], ssid),
        forall|j: int| 0 <= j < ifaces.len() ==> !wants_network(#[trigger] ifaces[j], phys, name),
        has_networks(
            state.applied(ifaces, force, phys).0,
            state.applied(ifaces, force, phys).1->Ok_0,
            name,
            networks,
        ),
    ensures
        forall|j: int| 0 <= j < networks.len() ==> (#[trigger] networks[j]).ssid != ssid,
{
    let none = WifiDesiredView::none();
    let desired = none.with_ifaces_from(ifaces, phys, 0)->Ok_0;
    let any = |list: Seq<NetworkConfigView>| true;
    let p = |list: Seq<NetworkConfigView>| !wifi_client::has_ssid(list, ssid);
    lemma_collected(none, ifaces, phys, 0, name, ssid, ifaces[k].wifi->0);
    keymap::lemma_entry_from(desired.configs, name, 0);
    assert(desired.ssids_to_delete.contains(ssid));
    assert(brings(name, desired, force, any, p)) by {
        assert forall|existing: Seq<NetworkConfigView>| {
            let fresh = #[trigger] wifi_client::new_networks(name, existing, desired, force);
            any(existing) && fresh is Ok ==> p(fresh->Ok_0) && (!p(existing) ==> wifi_client::is_news(
                existing,
                fresh->Ok_0,
                force,
            ))
        } by {
            let fresh = wifi_client::new_networks(name, existing, desired, force)->Ok_0;
            lemma_kept(existing, desired.ssids_to_delete, 0, Seq::empty(), ssid);
            if wifi_client::same_saved(existing, fresh) {
                lemma_same_ssids(existing, fresh, ssid);
            }
        }
    }
    lemma_apply_brings(state, ifaces, force, phys, name, any, p, networks);
    assert forall|j: int| 0 <= j < networks.len() implies (#[trigger] networks[j]).ssid != ssid by {
        if networks[j].ssid == ssid {
            assert(wifi_client::has_ssid(networks, ssid));
        }
    }
}

/// Whether one of the networks has the SSID and the password.
pub open spec fn has_network(
    networks: Seq<NetworkConfigView>,
    ssid: Seq<char>,
    password: Option<Seq<char>>,
) -> bool {
    exists|i: int|
        0 <= i < networks.len() && (#[trigger] networks[i]).ssid == ssid && networks[i].password
            == password
}

/// Networks of configurations hold each of them.
proof fn lemma_networks_for(
    existing: Seq<NetworkConfigView>,
    configs: Seq<WifiConfigView>,
    force: bool,
    config: WifiConfigView,
)
    requires
        wifi_client::networks_for(existing, configs, force) is Ok,
        configs.contains(config),
    ensures
        has_network(
            wifi_client::networks_for(existing, configs, force)->Ok_0,
            config.ssid,
            config.password,
        ),
{
    let networks = wifi_client::networks_for(existing, configs, force)->Ok_0;
    let j = configs.index_of(config);
    if force && configs.len() == 1 {
        wifi_client::law_preferred(existing, configs, 0, j);
        let k = choose|k: int|
            0 <= k < networks.len() && (#[trigger] networks[k]).ssid == configs[j].ssid
                && networks[k].password == configs[j].password && networks[k].prefered;
        assert(networks[k].ssid == config.ssid && networks[k].password == config.password);
    } else {
        wifi_client::law_networks(configs, false, 0, Seq::empty());
        assert(wifi_client::has_ssid(networks, configs[j].ssid));
        let k = choose|k: int|
            0 <= k < networks.len() && (#[trigger] networks[k]).ssid == configs[j].ssid;
        assert(configs[j].ssid == networks[k].ssid);
        assert(networks[k].password == config.password);
    }
}

/// After a successful apply a device has every network that is wanted of it,
/// with its password.
pub proof fn law_wanted_network(
    state: WifiClientStateView,
    ifaces: Seq<InterfaceView>,
    force: bool,
    phys: Seq<(Seq<char>, u32)>,
    k: int,
    name: Seq<char>,
    networks: Seq<NetworkConfigView>,
)
    requires
        keymap::unique(state.ifaces),
        state.applied(ifaces, force, phys).1 is Ok,
        0 <= k < ifaces.len(),
        wants_network(ifaces[k], phys, name),
        has_networks(
            state.applied(ifaces, force, phys).0,
            state.applied(ifaces, force, phys).1->Ok_0,
            name,
            networks,
        ),
    ensures
        has_network(networks, ifaces[k].wifi->0.ssid, ifaces[k].wifi->0.password),
{
    let none = WifiDesiredView::none();
    let desired = none.with_ifaces_from(ifaces, phys, 0)->Ok_0;
    let config = ifaces[k].wifi->0;
    let any = |list: Seq<NetworkConfigView>| true;
    let p = |list: Seq<NetworkConfigView>| has_network(list, config.ssid, config.password);
    lemma_collected(none, ifaces, phys, 0, name, Seq::empty(), config);
    let configs = keymap::lookup(desired.configs, name)->0;
    assert(configs.contains(config));
    assert(brings(name, desired, force, any, p)) by {
        assert forall|existing: Seq<NetworkConfigView>| {
            let fresh = #[trigger] wifi_client::new_networks(name, existing, desired, force);
            any(existing) && fresh is Ok ==> p(fresh->Ok_0) && (!p(existing) ==> wifi_client::is_news(
                existing,
                fresh->Ok_0,
                force,
            ))
        } by {
            if let Ok(fresh) = wifi_client::new_networks(name, existing, desired, force) {
                lemma_networks_for(existing, configs, force, config);
                let m = choose|m: int|
                    0 <= m < fresh.len() && (#[trigger] fresh[m]).ssid == config.ssid
                        && fresh[m].password == config.password;
                if wifi_client::same_saved(existing, fresh) {
                    assert(wifi_client::demoted(existing[m]) == wifi_client::demoted(fresh[m]));
                    assert(existing[m].ssid == config.ssid && existing[m].password
                        == config.password);
                }
            }
        }
    }
    assert forall|j: int|
        0 <= j < desired.configs.len() && (#[trigger] desired.configs[j]).0 == name implies {
        let fresh = wifi_client::networks_for(Seq::empty(), desired.configs[j].1, force);
        fresh is Ok ==> p(fresh->Ok_0)
    } by {
        keymap::lemma_entry_is(desired.configs, name, j, 0);
        if wifi_client::networks_for(Seq::empty(), configs, force) is Ok {
            lemma_networks_for(Seq::empty(), configs, force, config);
        }
    }
    lemma_apply_brings(state, ifaces, force, phys, name, any, p, networks);
}

/// A network of a list of configurations has the SSID of one of them.
proof fn lemma_configured(
    configs: Seq<WifiConfigView>,
    i: int,
    acc: Seq<NetworkConfigView>,
    ssid: Seq<char>,
)
    requires
        0 <= i <= configs.len(),
        wifi_client::networks_from(configs, false, i, acc) is Ok,
        wifi_client::has_ssid(wifi_client::networks_from(configs, false, i, acc)->Ok_0, ssid),
    ensures
        wifi_client::has_ssid(acc, ssid) || exists|k: int|
            i <= k < configs.len() && (#[trigger] configs[k]).ssid == ssid,
    decreases configs.len() - i,
{
    if i < configs.len() {
        let k = wifi_client::ssid_position(acc, configs[i].ssid, 0);
        if k >= acc.len() {
            let next = acc.push(wifi_client::network_of(configs[i], false));
            lemma_configured(configs, i + 1, next, ssid);
            if wifi_client::has_ssid(next, ssid) {
                let m = choose|m: int| 0 <= m < next.len() && (#[trigger] next[m]).ssid == ssid;
                if m < acc.len() {
                    assert(acc[m].ssid == ssid);
                } else {
                    assert(configs[i].ssid == ssid);
                }
            }
        } else {
            lemma_configured(configs, i + 1, acc, ssid);
        }
    }
}

/// An apply that is not forced replaces the networks of a device that one is
/// wanted of: it has no network that is not wanted.
pub proof fn law_unwanted_network(
    state: WifiClientStateView,
    ifaces: Seq<InterfaceView>,
    phys: Seq<(Seq<char>, u32)>,
    k: int,
    name: Seq<char>,
    networks: Seq<NetworkConfigView>,
    ssid: Seq<char>,
)
    requires
        keymap::unique(state.ifaces),
        state.applied(ifaces, false, phys).1 is Ok,
        0 <= k < ifaces.len(),
        wants_network(ifaces[k], phys, name),
        has_networks(
            state.applied(ifaces, false, phys).0,
            state.applied(ifaces, false, phys).1->Ok_0,
            name,
            networks,
        ),
        wifi_client::has_ssid(networks, ssid),
    ensures
        exists|j: int|
            0 <= j < ifaces.len() && wants_network(#[trigger] ifaces[j], phys, name)
                && ifaces[j].wifi->0.ssid == ssid,
{
    let none = WifiDesiredView::none();
    let desired = none.with_ifaces_from(ifaces, phys, 0)->Ok_0;
    let wanted = exists|j: int|
        0 <= j < ifaces.len() && wants_network(#[trigger] ifaces[j], phys, name)
            && ifaces[j].wifi->0.ssid == ssid;
    let any = |list: Seq<NetworkConfigView>| true;
    let p = |list: Seq<NetworkConfigView>| wifi_client::has_ssid(list, ssid) ==> wanted;
    lemma_collected(none, ifaces, phys, 0, name, ssid, ifaces[k].wifi->0);
    let configs = keymap::lookup(desired.configs, name)->0;
    assert forall|m: int| 0 <= m < configs.len() && (#[trigger] configs[m]).ssid == ssid implies
        wanted by {
        lemma_collected(none, ifaces, phys, 0, name, ssid, configs[m]);
        assert(configs.contains(configs[m]));
    }
    assert forall|existing: Seq<NetworkConfigView>| {
        let fresh = #[trigger] wifi_client::networks_for(existing, configs, false);
        fresh is Ok ==> p(fresh->Ok_0)
    } by {
        let fresh = wifi_client::networks_for(existing, configs, false);
        if fresh is Ok && wifi_client::has_ssid(fresh->Ok_0, ssid) {
            lemma_configured(configs, 0, Seq::empty(), ssid);
        }
    }
    assert(brings(name, desired, false, any, p)) by {
        assert forall|existing: Seq<NetworkConfigView>| {
            let fresh = #[trigger] wifi_client::new_networks(name, existing, desired, false);
            any(existing) && fresh is Ok ==> p(fresh->Ok_0) && (!p(existing) ==> wifi_client::is_news(
                existing,
                fresh->Ok_0,
                false,
            ))
        } by {
            let fresh = wifi_client::networks_for(existing, configs, false);
            if fresh is Ok && wifi_client::same_saved(existing, fresh->Ok_0) {
                lemma_same_ssids(existing, fresh->Ok_0, ssid);
            }
        }
    }
    assert forall|j: int|
        0 <= j < desired.configs.len() && (#[trigger] desired.configs[j]).0 == name implies {
        let fresh = wifi_client::networks_for(Seq::empty(), desired.configs[j].1, false);
        fresh is Ok ==> p(fresh->Ok_0)
    } by {
        keymap::lemma_entry_is(desired.configs, name, j, 0);
    }
    lemma_apply_brings(state, ifaces, false, phys, name, any, p, networks);
}

/// Dropping devices leaves every other one as it is.
proof fn lemma_without_same(apply: ApplyView, names: Seq<Seq<char>>, i: int, name: Seq<char>)
    requires
        0 <= i,
        keymap::unique(apply.state.ifaces),
    ensures
        keymap::lookup(apply.without_from(names, i).state.ifaces, name) is Some ==> keymap::lookup(
            apply.without_from(names, i).state.ifaces,
            name,
        ) == keymap::lookup(apply.state.ifaces, name),
    decreases names.len() - i,
{
    if i < names.len() {
        keymap::law_removed(apply.state.ifaces, names[i], name);
        let next = ApplyView {
            state: WifiClientStateView {
                ifaces: keymap::removed(apply.state.ifaces, names[i]),
                ..apply.state
            },
            recreate: apply.recreate || keymap::has(apply.state.ifaces, names[i]),
            ..apply
        };
        lemma_without_same(next, names, i + 1, name);
    }
}

/// A network whose SSID is not dropped is kept.
proof fn lemma_kept_network(
    networks: Seq<NetworkConfigView>,
    dropped: Seq<Seq<char>>,
    i: int,
    acc: Seq<NetworkConfigView>,
    network: NetworkConfigView,
)
    requires
        0 <= i <= networks.len(),
        !dropped.contains(network.ssid),
        acc.contains(network) || exists|j: int|
            i <= j < networks.len() && (#[trigger] networks[j]) == network,
    ensures
        wifi_client::networks_kept_from(networks, dropped, i, acc).contains(network),
    decreases networks.len() - i,
{
    if i < networks.len() {
        if dropped.contains(networks[i].ssid) {
            lemma_kept_network(networks, dropped, i + 1, acc, network);
        } else {
            let next = acc.push(networks[i]);
            if acc.contains(network) {
                assert(next[acc.index_of(network)] == network);
            }
            assert(next[acc.len() as int] == networks[i]);
            lemma_kept_network(networks, dropped, i + 1, next, network);
        }
    }
}

/// An apply that wants no network of a managed device leaves every network of it
/// alone whose SSID no configuration drops.
pub proof fn law_other_network_stays(
    state: WifiClientStateView,
    ifaces: Seq<InterfaceView>,
    force: bool,
    phys: Seq<(Seq<char>, u32)>,
    name: Seq<char>,
    network: NetworkConfigView,
    networks: Seq<NetworkConfigView>,
)
    requires
        keymap::unique(state.ifaces),
        state.applied(ifaces, force, phys).1 is Ok,
        keymap::lookup(state.ifaces, name) is Some,
        keymap::lookup(state.ifaces, name)->0.desired_networks.contains(network),
        forall|j: int|
            0 <= j < ifaces.len() ==> !wants_network(#[trigger] ifaces[j], phys, name)
                && !drops_network(ifaces[j], network.ssid),
        has_networks(
            state.applied(ifaces, force, phys).0,
            state.applied(ifaces, force, phys).1->Ok_0,
            name,
            networks,
        ),
    ensures
        networks.contains(network),
{
    let none = WifiDesiredView::none();
    let desired = none.with_ifaces_from(ifaces, phys, 0)->Ok_0;
    let p = |list: Seq<NetworkConfigView>| list.contains(network);
    lemma_collected(
        none,
        ifaces,
        phys,
        0,
        name,
        network.ssid,
        ifaces[0].wifi->0,
    );
    keymap::lemma_entry_from(desired.configs, name, 0);
    assert(brings(name, desired, force, p, p)) by {
        assert forall|existing: Seq<NetworkConfigView>| {
            let fresh = #[trigger] wifi_client::new_networks(name, existing, desired, force);
            p(existing) && fresh is Ok ==> p(fresh->Ok_0) && (!p(existing)
                ==> wifi_client::is_news(existing, fresh->Ok_0, force))
        } by {
            if p(existing) {
                let j = existing.index_of(network);
                assert(existing[j] == network);
                lemma_kept_network(
                    existing,
                    desired.ssids_to_delete,
                    0,
                    Seq::empty(),
                    network,
                );
            }
        }
    }
    lemma_apply_brings(state, ifaces, force, phys, name, p, p, networks);
}

/// Devices that are absent or down are to be dropped, and no others are.
proof fn lemma_devices_to_drop(
    acc: WifiDesiredView,
    ifaces: Seq<InterfaceView>,
    phys: Seq<(Seq<char>, u32)>,
    i: int,
    name: Seq<char>,
)
    requires
        0 <= i <= ifaces.len(),
        acc.with_ifaces_from(ifaces, phys, i) is Ok,
    ensures
        acc.with_ifaces_from(ifaces, phys, i)->Ok_0.ifaces_to_delete.contains(name)
            <==> acc.ifaces_to_delete.contains(name) || exists|j: int|
            i <= j < ifaces.len() && drops_device(#[trigger] ifaces[j], name),
    decreases ifaces.len() - i,
{
    if i < ifaces.len() {
        let next = acc.with_iface(ifaces[i], phys)->Ok_0;
        lemma_with_text(acc.ifaces_to_delete, ifaces[i].base.kernel_iface_name, name);
        lemma_devices_to_drop(next, ifaces, phys, i + 1, name);
    }
}

/// Whether the interface is the WIFI device, absent or down.
pub open spec fn drops_device(iface: InterfaceView, name: Seq<char>) -> bool {
    &&& iface.base.iface_type is WifiPhy
    &&& iface.base.state is Absent || iface.base.state is Down
    &&& iface.base.kernel_iface_name == name
}

/// A WIFI device that is absent or down and that no network is wanted of is
/// managed no longer.
pub proof fn law_absent_device(
    state: WifiClientStateView,
    ifaces: Seq<InterfaceView>,
    force: bool,
    phys: Seq<(Seq<char>, u32)>,
    k: int,
    name: Seq<char>,
)
    requires
        keymap::unique(state.ifaces),
        state.applied(ifaces, force, phys).1 is Ok,
        0 <= k < ifaces.len(),
        drops_device(ifaces[k], name),
        forall|j: int| 0 <= j < ifaces.len() ==> !wants_network(#[trigger] ifaces[j], phys, name),
    ensures
        keymap::lookup(state.applied(ifaces, force, phys).0.ifaces, name) is None,
{
    let none = WifiDesiredView::none();
    lemma_devices_to_drop(none, ifaces, phys, 0, name);
    lemma_collected(none, ifaces, phys, 0, name, Seq::empty(), ifaces[k].wifi->0);
    law_dropped_device(state, ifaces, force, phys, name);
}

/// A device that a network is wanted of is managed after a successful apply.
pub proof fn law_wanted_device(
    state: WifiClientStateView,
    ifaces: Seq<InterfaceView>,
    force: bool,
    phys: Seq<(Seq<char>, u32)>,
    k: int,
    name: Seq<char>,
)
    requires
        keymap::unique(state.ifaces),
        state.applied(ifaces, force, phys).1 is Ok,
        0 <= k < ifaces.len(),
        wants_network(ifaces[k], phys, name),
    ensures
        keymap::lookup(state.applied(ifaces, force, phys).0.ifaces, name) is Some,
{
    let none = WifiDesiredView::none();
    lemma_collected(none, ifaces, phys, 0, name, Seq::empty(), ifaces[k].wifi->0);
    law_desired_device(state, ifaces, force, phys, name);
}

/// A managed device that is still there and that is neither absent nor down, and
/// of which nothing is wanted or dropped, is managed as before: an apply that is
/// not forced leaves its networks as they are.
pub proof fn law_device_left_alone(
    state: WifiClientStateView,
    ifaces: Seq<InterfaceView>,
    phys: Seq<(Seq<char>, u32)>,
    name: Seq<char>,
)
    requires
        keymap::unique(state.ifaces),
        state.applied(ifaces, false, phys).1 is Ok,
        keymap::lookup(state.ifaces, name) is Some,
        keymap::lookup(phys, name) == Some(keymap::lookup(state.ifaces, name)->0.if_index),
        forall|j: int|
            0 <= j < ifaces.len() ==> !wants_network(#[trigger] ifaces[j], phys, name)
                && !drops_device(ifaces[j], name),
        forall|j: int, m: int|
            0 <= j < ifaces.len() && 0 <= m < keymap::lookup(
                state.ifaces,
                name,
            )->0.desired_networks.len() ==> !drops_network(
                #[trigger] ifaces[j],
                (#[trigger] keymap::lookup(state.ifaces, name)->0.desired_networks[m]).ssid,
            ),
    ensures
        keymap::lookup(state.applied(ifaces, false, phys).0.ifaces, name) == keymap::lookup(
            state.ifaces,
            name,
        ),
{
    let none = WifiDesiredView::none();
    let desired = none.with_ifaces_from(ifaces, phys, 0)->Ok_0;
    let networks = keymap::lookup(state.ifaces, name)->0.desired_networks;
    lemma_devices_to_drop(none, ifaces, phys, 0, name);
    lemma_collected(none, ifaces, phys, 0, name, Seq::empty(), ifaces[0].wifi->0);
    assert forall|m: int| 0 <= m < networks.len() implies !desired.ssids_to_delete.contains(
        (#[trigger] networks[m]).ssid,
    ) by {
        lemma_collected(none, ifaces, phys, 0, name, networks[m].ssid, ifaces[0].wifi->0);
    }
    law_unmentioned_device(state, ifaces, phys, name);
}

} // verus!
