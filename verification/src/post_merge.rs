//! What merged interfaces mean for each other: WIFI devices that have to be up,
//! and ports of controllers.

use vstd::prelude::*;
use vstd::string::*;

use crate::error;
use crate::error::{ErrorKind, NipartError, NipartErrorView};
use crate::iface::{
    BaseInterface, BaseInterfaceView, Interface, InterfaceState, InterfaceType, InterfaceView,
};
use crate::ifaces::{IfaceSearch, IfaceSearchView};
use crate::ip::{InterfaceIpv4, InterfaceIpv4View, InterfaceIpv6, InterfaceIpv6View};
use crate::keymap;
use crate::keymap::KeyMap;
use crate::merged_iface::{MergedInterface, MergedInterfaceView};
use crate::merged_ifaces::{MergedInterfaces, MergedInterfacesView};
use crate::value::{Value, contains, empty_list, push};

verus! {

/// A controller to bring up, with its ports.
#[derive(Clone, Debug, PartialEq, Eq)]
pub struct ControllerPorts {
    /// The key of the controller.
    pub name: String,
    pub iface_type: InterfaceType,
    /// The names in the kernel of its ports.
    pub ports: Vec<String>,
    /// The names of the ports that it has before the apply.
    pub old_ports: Vec<String>,
}

/// What a [ControllerPorts] stands for.
#[verifier::ext_equal]
pub struct ControllerPortsView {
    pub name: Seq<char>,
    pub iface_type: InterfaceType,
    pub ports: Seq<Seq<char>>,
    pub old_ports: Seq<Seq<char>>,
}

impl View for ControllerPorts {
    type V = ControllerPortsView;

    open spec fn view(&self) -> ControllerPortsView {
        ControllerPortsView {
            name: self.name.deep_view(),
            iface_type: self.iface_type.deep_view(),
            ports: self.ports.deep_view(),
            old_ports: self.old_ports.deep_view(),
        }
    }
}

impl DeepView for ControllerPorts {
    type V = ControllerPortsView;

    open spec fn deep_view(&self) -> ControllerPortsView {
        self@
    }
}

impl Value for ControllerPorts {
    fn dup(&self) -> (res: Self) {
        ControllerPorts {
            name: self.name.dup(),
            iface_type: self.iface_type.dup(),
            ports: self.ports.dup(),
            old_ports: self.old_ports.dup(),
        }
    }

    fn same(&self, other: &Self) -> (res: bool) {
        self.name.same(&other.name) && self.iface_type.same(&other.iface_type) && self.ports.same(&other.ports) && self.old_ports.same(&other.old_ports)
    }
}

/// Whether the interface is a WIFI configuration with a network to bring up.
pub open spec fn is_wifi_up(iface: Option<InterfaceView>) -> bool {
    &&& iface is Some
    &&& iface->0.base.iface_type is WifiCfg
    &&& iface->0.base.state is Up
    &&& iface->0.wifi is Some
}

/// `acc` with the names of the present WIFI devices from `i` on.
pub open spec fn phy_names_from(
    kernel_ifaces: Seq<(Seq<char>, MergedInterfaceView)>,
    i: int,
    acc: Seq<Seq<char>>,
) -> Seq<Seq<char>>
    decreases kernel_ifaces.len() - i,
{
    if i < 0 || i >= kernel_ifaces.len() {
        acc
    } else if kernel_ifaces[i].1.merged.base.iface_type is WifiPhy
        && kernel_ifaces[i].1.current is Some {
        phy_names_from(kernel_ifaces, i + 1, acc.push(kernel_ifaces[i].0))
    } else {
        phy_names_from(kernel_ifaces, i + 1, acc)
    }
}

/// The name in the kernel for `name`, or `name` itself.
pub open spec fn resolved_name(search: IfaceSearchView, name: Seq<char>) -> Seq<char> {
    search.kernel_name(name).unwrap_or(name)
}

/// `acc` with the names of the WIFI devices that the WIFI configurations from
/// `i` on are bound to.
pub open spec fn bound_phys_from(
    user_ifaces: Seq<((Seq<char>, InterfaceType), MergedInterfaceView)>,
    search: IfaceSearchView,
    i: int,
    acc: Seq<Seq<char>>,
) -> Seq<Seq<char>>
    decreases user_ifaces.len() - i,
{
    if i < 0 || i >= user_ifaces.len() {
        acc
    } else {
        let iface = user_ifaces[i].1.for_apply;
        if is_wifi_up(iface) && iface->0.wifi->0.base_iface is Some {
            bound_phys_from(
                user_ifaces,
                search,
                i + 1,
                acc.push(resolved_name(search, iface->0.wifi->0.base_iface->0)),
            )
        } else {
            bound_phys_from(user_ifaces, search, i + 1, acc)
        }
    }
}

/// The interface, with `state: up` to apply.
pub open spec fn brought_up(iface: MergedInterfaceView) -> MergedInterfaceView {
    let marked = iface.marked_changed();
    MergedInterfaceView {
        for_apply: Some(
            InterfaceView {
                base: BaseInterfaceView {
                    state: InterfaceState::Up,
                    ..marked.for_apply->0.base
                },
                ..marked.for_apply->0
            },
        ),
        ..marked
    }
}

/// The interface, brought up when it is a present WIFI device of the given
/// names that is not desired to be off.
pub open spec fn phy_brought_up(
    iface: MergedInterfaceView,
    names: Seq<Seq<char>>,
) -> MergedInterfaceView {
    if iface.merged.base.iface_type is WifiPhy && !(iface.desired is Some && (
    iface.desired->0.base.state is Absent || iface.desired->0.base.state is Down
        || iface.desired->0.base.state is Ignore)) && iface.current is Some && names.contains(
        iface.merged.base.kernel_iface_name,
    ) {
        brought_up(iface)
    } else {
        iface
    }
}

/// The names, each as the one in the kernel where it is known.
pub open spec fn resolved_names(search: IfaceSearchView, names: Seq<Seq<char>>) -> Seq<Seq<char>> {
    Seq::new(names.len(), |i: int| resolved_name(search, names[i]))
}

/// The interface with the names in the kernel for its ports.
pub open spec fn ports_resolved(search: IfaceSearchView, iface: InterfaceView) -> InterfaceView {
    match iface.ports {
        Some(ports) => InterfaceView { ports: Some(resolved_names(search, ports)), ..iface },
        None => iface,
    }
}

/// The optional interface with the names in the kernel for its ports.
pub open spec fn option_ports_resolved(
    search: IfaceSearchView,
    iface: Option<InterfaceView>,
) -> Option<InterfaceView> {
    match iface {
        Some(iface) => Some(ports_resolved(search, iface)),
        None => None,
    }
}

/// The merged interface with the names in the kernel for its ports. What is
/// saved keeps the names that were given.
pub open spec fn merged_ports_resolved(
    search: IfaceSearchView,
    iface: MergedInterfaceView,
) -> MergedInterfaceView {
    MergedInterfaceView {
        merged: ports_resolved(search, iface.merged),
        for_apply: option_ports_resolved(search, iface.for_apply),
        for_verify: option_ports_resolved(search, iface.for_verify),
        ..iface
    }
}

/// The map with the names in the kernel for all ports.
pub open spec fn map_ports_resolved<K>(
    search: IfaceSearchView,
    map: Seq<(K, MergedInterfaceView)>,
) -> Seq<(K, MergedInterfaceView)> {
    Seq::new(map.len(), |i: int| (map[i].0, merged_ports_resolved(search, map[i].1)))
}

/// The desired controller with its ports, where the interface is one to bring
/// up.
pub open spec fn as_controller(iface: MergedInterfaceView) -> Option<ControllerPortsView> {
    if iface.desired is Some && iface.merged.base.state is Up && iface.merged.ports is Some {
        Some(
            ControllerPortsView {
                name: if iface.merged.base.iface_type.userspace() {
                    iface.merged.base.name
                } else {
                    iface.merged.base.kernel_iface_name
                },
                iface_type: iface.merged.base.iface_type,
                ports: iface.merged.ports->0,
                old_ports: match iface.current {
                    Some(cur) => cur.ports.unwrap_or(Seq::empty()),
                    None => Seq::empty(),
                },
            },
        )
    } else {
        None
    }
}

/// `acc` with the controllers among the interfaces from `i` on.
pub open spec fn controllers_from(
    list: Seq<MergedInterfaceView>,
    i: int,
    acc: Seq<ControllerPortsView>,
) -> Seq<ControllerPortsView>
    decreases list.len() - i,
{
    if i < 0 || i >= list.len() {
        acc
    } else {
        match as_controller(list[i]) {
            Some(controller) => controllers_from(list, i + 1, acc.push(controller)),
            None => controllers_from(list, i + 1, acc),
        }
    }
}

/// Whether an IP stack is desired to be on.
pub open spec fn ip_desired(iface: Option<InterfaceView>) -> bool {
    iface is Some && {
        ||| iface->0.base.ipv4 is Some && iface->0.base.ipv4->0.enabled == Some(true)
        ||| iface->0.base.ipv6 is Some && iface->0.base.ipv6->0.enabled == Some(true)
    }
}

/// The part of a port that names its controller. A port of anything but a VRF
/// has no IP stack, and one of a bond no MAC address of its own.
pub open spec fn port_part(
    base: BaseInterfaceView,
    controller: ControllerPortsView,
    ipv4: Option<InterfaceIpv4View>,
    ipv6: Option<InterfaceIpv6View>,
) -> BaseInterfaceView {
    BaseInterfaceView {
        controller: Some(controller.name),
        controller_type: Some(controller.iface_type),
        ipv4: if controller.iface_type is Vrf {
            base.ipv4
        } else {
            ipv4
        },
        ipv6: if controller.iface_type is Vrf {
            base.ipv6
        } else {
            ipv6
        },
        mac_address: if controller.iface_type is Bond && base.by_mac() {
            None
        } else {
            base.mac_address
        },
        ..base
    }
}

/// How an IPv4 stack that is on is turned off.
pub open spec fn ipv4_turned_off(current: Option<InterfaceView>) -> Option<InterfaceIpv4View> {
    if current is Some && current->0.base.ipv4_on() {
        Some(InterfaceIpv4View::disabled())
    } else {
        None
    }
}

/// How an IPv6 stack that is on is turned off.
pub open spec fn ipv6_turned_off(current: Option<InterfaceView>) -> Option<InterfaceIpv6View> {
    if current is Some && current->0.base.ipv6_on() {
        Some(InterfaceIpv6View::disabled())
    } else {
        None
    }
}

/// Whether the interface has the controller before the apply.
pub open spec fn already_port_of(iface: MergedInterfaceView, controller: Seq<char>) -> bool {
    iface.current is Some && iface.current->0.base.controller == Some(controller)
}

/// The interface as a port of the controller.
pub open spec fn attached(
    iface: MergedInterfaceView,
    controller: ControllerPortsView,
) -> MergedInterfaceView {
    let marked = if already_port_of(iface, controller.name) {
        iface
    } else {
        iface.marked_changed()
    };
    MergedInterfaceView {
        merged: InterfaceView {
            base: BaseInterfaceView {
                mac_address: marked.merged.base.mac_address,
                ..port_part(marked.merged.base, controller, None, None)
            },
            ..marked.merged
        },
        for_apply: match marked.for_apply {
            Some(iface) => Some(
                InterfaceView {
                    base: port_part(
                        iface.base,
                        controller,
                        ipv4_turned_off(marked.current),
                        ipv6_turned_off(marked.current),
                    ),
                    ..iface
                },
            ),
            None => None,
        },
        for_verify: match marked.for_verify {
            Some(iface) => Some(
                InterfaceView { base: port_part(iface.base, controller, None, None), ..iface },
            ),
            None => None,
        },
        for_save: match marked.for_save {
            Some(iface) if !(controller.iface_type is Vrf) => Some(
                InterfaceView {
                    base: BaseInterfaceView { ipv4: None, ipv6: None, ..iface.base },
                    ..iface
                },
            ),
            _ => marked.for_save,
        },
        ..marked
    }
}

/// The interface as a port of no controller.
pub open spec fn detached(iface: MergedInterfaceView) -> MergedInterfaceView {
    let marked = iface.marked_changed();
    MergedInterfaceView {
        merged: InterfaceView {
            base: BaseInterfaceView {
                controller: None,
                controller_type: None,
                ..marked.merged.base
            },
            ..marked.merged
        },
        for_apply: Some(
            InterfaceView {
                base: BaseInterfaceView {
                    controller: Some(Seq::empty()),
                    controller_type: None,
                    ..marked.for_apply->0.base
                },
                ..marked.for_apply->0
            },
        ),
        ..marked
    }
}

/// The error of a port that is not there.
pub open spec fn no_port(port: Seq<char>, controller: ControllerPortsView) -> NipartErrorView {
    error::invalid(
        "Failed to find port "@ + port + " of controller "@ + controller.name + "/"@
            + controller.iface_type.kebab_name(),
    )
}

/// The error of a port that is desired to have an IP stack.
pub open spec fn port_with_ip(
    port: MergedInterfaceView,
    controller: ControllerPortsView,
) -> NipartErrorView {
    error::invalid(
        "Interface "@ + port.merged.base.name + "/"@ + port.merged.base.iface_type.kebab_name()
            + " cannot have IP enabled as it is attached to controller "@ + controller.name
            + "/"@ + controller.iface_type.kebab_name(),
    )
}

impl MergedInterfacesView {
    /// Whether a WIFI configuration to apply is bound to no device.
    pub open spec fn any_bind_wifi(self) -> bool {
        exists|i: int|
            0 <= i < self.user_ifaces.len() && is_wifi_up(
                (#[trigger] self.user_ifaces[i]).1.for_apply,
            ) && self.user_ifaces[i].1.for_apply->0.wifi->0.base_iface is None
    }

    /// The names in the kernel of the WIFI devices that have to be up.
    pub open spec fn phys_to_bring_up(self) -> Seq<Seq<char>> {
        bound_phys_from(
            self.user_ifaces,
            self.iface_search,
            0,
            if self.any_bind_wifi() {
                phy_names_from(self.kernel_ifaces, 0, Seq::empty())
            } else {
                Seq::empty()
            },
        )
    }

    /// With the WIFI devices that have to be up.
    pub open spec fn wifi_sanitized(self) -> MergedInterfacesView {
        let names = self.phys_to_bring_up();
        MergedInterfacesView {
            kernel_ifaces: Seq::new(
                self.kernel_ifaces.len(),
                |i: int| (self.kernel_ifaces[i].0, phy_brought_up(self.kernel_ifaces[i].1, names)),
            ),
            ..self
        }
    }

    /// With the names in the kernel for all ports.
    pub open spec fn all_ports_resolved(self) -> MergedInterfacesView {
        MergedInterfacesView {
            kernel_ifaces: map_ports_resolved(self.iface_search, self.kernel_ifaces),
            user_ifaces: map_ports_resolved(self.iface_search, self.user_ifaces),
            ..self
        }
    }

    /// With `iface` for a name in the kernel.
    pub open spec fn with_kernel(
        self,
        name: Seq<char>,
        iface: MergedInterfaceView,
    ) -> MergedInterfacesView {
        MergedInterfacesView {
            kernel_ifaces: keymap::inserted(self.kernel_ifaces, name, iface),
            ..self
        }
    }

    /// With the ports of the controller from `i` on attached to it.
    pub open spec fn attached_from(self, controller: ControllerPortsView, i: int) -> Result<
        MergedInterfacesView,
        NipartErrorView,
    >
        decreases controller.ports.len() - i,
    {
        if i < 0 || i >= controller.ports.len() {
            Ok(self)
        } else {
            match keymap::lookup(self.kernel_ifaces, controller.ports[i]) {
                None => Err(no_port(controller.ports[i], controller)),
                Some(port) => if !(controller.iface_type is Vrf) && ip_desired(port.desired) {
                    Err(port_with_ip(port, controller))
                } else {
                    self.with_kernel(
                        controller.ports[i],
                        attached(port, controller),
                    ).attached_from(controller, i + 1)
                },
            }
        }
    }

    /// With the former ports of the controller from `i` on detached from it,
    /// unless they are ports still, or of another controller.
    pub open spec fn detached_from(
        self,
        controller: ControllerPortsView,
        i: int,
    ) -> MergedInterfacesView
        decreases controller.old_ports.len() - i,
    {
        if i < 0 || i >= controller.old_ports.len() {
            self
        } else {
            let name = controller.old_ports[i];
            match keymap::lookup(self.kernel_ifaces, name) {
                Some(port) if !controller.ports.contains(name) && port.merged.base.controller
                    == Some(controller.name) => self.with_kernel(
                    name,
                    detached(port),
                ).detached_from(controller, i + 1),
                _ => self.detached_from(controller, i + 1),
            }
        }
    }

    /// With the ports of the controllers from `i` on.
    pub open spec fn ports_settled_from(self, list: Seq<ControllerPortsView>, i: int) -> Result<
        MergedInterfacesView,
        NipartErrorView,
    >
        decreases list.len() - i,
    {
        if i < 0 || i >= list.len() {
            Ok(self)
        } else {
            match self.attached_from(list[i], 0) {
                Err(e) => Err(e),
                Ok(next) => next.detached_from(list[i], 0).ports_settled_from(list, i + 1),
            }
        }
    }

    /// With the ports of all desired controllers.
    pub open spec fn ports_sanitized(self) -> Result<MergedInterfacesView, NipartErrorView> {
        let resolved = self.all_ports_resolved();
        resolved.ports_settled_from(controllers_from(resolved.all(), 0, Seq::empty()), 0)
    }

    /// With what the interfaces mean for each other.
    pub open spec fn sanitized(self) -> Result<MergedInterfacesView, NipartErrorView> {
        self.wifi_sanitized().ports_sanitized()
    }
}

/// Gives every name the one in the kernel where it is known.
fn resolve_names(search: &IfaceSearch, names: &Vec<String>) -> (res: Vec<String>)
    ensures
        res.deep_view() == resolved_names(search@, names.deep_view()),
{
    let ghost views = names.deep_view();
    let mut res: Vec<String> = empty_list();
    let mut i: usize = 0;
    assert(res.deep_view() =~= resolved_names(search@, views).subrange(0, 0));
    while i < names.len()
        invariant
            i <= names.len(),
            views == names.deep_view(),
            res.deep_view() == resolved_names(search@, views).subrange(0, i as int),
        decreases names.len() - i,
    {
        assert(views[i as int] == names[i as int]@);
        let name = match search.search_name(&names[i]) {
            Some(name) => name,
            None => names[i].dup(),
        };
        push(&mut res, name);
        i = i + 1;
        assert(res.deep_view() =~= resolved_names(search@, views).subrange(0, i as int));
    }
    assert(resolved_names(search@, views).subrange(0, i as int) =~= resolved_names(search@, views));
    res
}

/// Gives the ports of an interface their names in the kernel.
fn resolve_ports(search: &IfaceSearch, iface: &mut Interface)
    ensures
        final(iface)@ == ports_resolved(search@, old(iface)@),
{
    if let Some(ports) = &iface.ports {
        let ports = resolve_names(search, ports);
        iface.ports = Some(ports);
    }
}

/// Gives the ports of an optional interface their names in the kernel.
fn resolve_option_ports(search: &IfaceSearch, iface: &Option<Interface>) -> (res: Option<Interface>)
    ensures
        res.deep_view() == option_ports_resolved(search@, iface.deep_view()),
{
    match iface {
        Some(iface) => {
            let mut iface = iface.dup();
            resolve_ports(search, &mut iface);
            Some(iface)
        },
        None => None,
    }
}

/// Gives all ports of the map their names in the kernel.
fn resolve_map_ports<K: Value>(search: &IfaceSearch, map: &mut KeyMap<K, MergedInterface>)
    ensures
        final(map)@ == map_ports_resolved(search@, old(map)@),
{
    let ghost start = map@;
    let mut i: usize = 0;
    while i < map.len()
        invariant
            i <= map@.len(),
            map@.len() == start.len(),
            start == old(map)@,
            forall|j: int|
                0 <= j < i ==> #[trigger] map@[j] == (
                    start[j].0,
                    merged_ports_resolved(search@, start[j].1),
                ),
            forall|j: int| i <= j < start.len() ==> #[trigger] map@[j] == start[j],
        decreases map@.len() - i,
    {
        let mut iface = map.value_at(i).dup();
        resolve_ports(search, &mut iface.merged);
        iface.for_apply = resolve_option_ports(search, &iface.for_apply);
        iface.for_verify = resolve_option_ports(search, &iface.for_verify);
        map.set_value(i, iface);
        i = i + 1;
    }
    assert(map@ =~= map_ports_resolved(search@, start));
}

/// Makes the common part that of a port of the controller.
fn set_port_part(
    base: &mut BaseInterface,
    controller: &ControllerPorts,
    ipv4: Option<InterfaceIpv4>,
    ipv6: Option<InterfaceIpv6>,
)
    ensures
        final(base)@ == port_part(old(base)@, controller@, ipv4.deep_view(), ipv6.deep_view()),
{
    base.controller = Some(controller.name.dup());
    base.controller_type = Some(controller.iface_type);
    if controller.iface_type != InterfaceType::Vrf {
        base.ipv4 = ipv4;
        base.ipv6 = ipv6;
    }
    if controller.iface_type == InterfaceType::Bond && base.is_by_mac() {
        base.mac_address = None;
    }
}

/// How an IPv4 stack that is on is turned off.
fn turn_off_ipv4(current: &Option<Interface>) -> (res: Option<InterfaceIpv4>)
    ensures
        res.deep_view() == ipv4_turned_off(current.deep_view()),
{
    match current {
        Some(cur) => if cur.base.is_ipv4_enabled() {
            Some(InterfaceIpv4::new_disabled())
        } else {
            None
        },
        None => None,
    }
}

/// How an IPv6 stack that is on is turned off.
fn turn_off_ipv6(current: &Option<Interface>) -> (res: Option<InterfaceIpv6>)
    ensures
        res.deep_view() == ipv6_turned_off(current.deep_view()),
{
    match current {
        Some(cur) => if cur.base.is_ipv6_enabled() {
            Some(InterfaceIpv6::new_disabled())
        } else {
            None
        },
        None => None,
    }
}

/// Whether an IP stack is desired to be on.
fn is_ip_desired(iface: &Option<Interface>) -> (res: bool)
    ensures
        res == ip_desired(iface.deep_view()),
{
    match iface {
        Some(iface) => {
            let ipv4 = match &iface.base.ipv4 {
                Some(ipv4) => matches!(ipv4.enabled, Some(true)),
                None => false,
            };
            let ipv6 = match &iface.base.ipv6 {
                Some(ipv6) => matches!(ipv6.enabled, Some(true)),
                None => false,
            };
            ipv4 || ipv6
        },
        None => false,
    }
}

impl MergedInterface {
    /// The desired controller with its ports.
    fn to_controller(&self) -> (res: Option<ControllerPorts>)
        ensures
            res.deep_view() == as_controller(self@),
    {
        if !self.is_desired() || !self.merged.is_up() {
            return None;
        }
        match &self.merged.ports {
            Some(ports) => Some(
                ControllerPorts {
                    name: if self.is_userspace() {
                        self.merged.base.name.dup()
                    } else {
                        self.merged.base.kernel_iface_name.dup()
                    },
                    iface_type: self.merged.base.iface_type,
                    ports: ports.dup(),
                    old_ports: match &self.current {
                        Some(cur) => match &cur.ports {
                            Some(ports) => ports.dup(),
                            None => empty_list(),
                        },
                        None => empty_list(),
                    },
                },
            ),
            None => None,
        }
    }

    /// Makes the interface a port of the controller.
    fn attach(&mut self, controller: &ControllerPorts)
        ensures
            final(self)@ == attached(old(self)@, controller@),
    {
        let name = Some(controller.name.dup());
        let already = match &self.current {
            Some(cur) => cur.base.controller.same(&name),
            None => false,
        };
        if !already {
            self.mark_as_changed();
        }
        let mac_address = self.merged.base.mac_address.dup();
        set_port_part(&mut self.merged.base, controller, None, None);
        self.merged.base.mac_address = mac_address;
        if let Some(iface) = self.for_apply.dup() {
            let mut iface = iface;
            set_port_part(
                &mut iface.base,
                controller,
                turn_off_ipv4(&self.current),
                turn_off_ipv6(&self.current),
            );
            self.for_apply = Some(iface);
        }
        if let Some(iface) = self.for_verify.dup() {
            let mut iface = iface;
            set_port_part(&mut iface.base, controller, None, None);
            self.for_verify = Some(iface);
        }
        if controller.iface_type != InterfaceType::Vrf {
            if let Some(iface) = self.for_save.dup() {
                let mut iface = iface;
                iface.base.ipv4 = None;
                iface.base.ipv6 = None;
                self.for_save = Some(iface);
            }
        }
    }

    /// Makes the interface a port of no controller.
    fn detach(&mut self)
        ensures
            final(self)@ == detached(old(self)@),
    {
        self.mark_as_changed();
        self.merged.base.controller = None;
        self.merged.base.controller_type = None;
        if let Some(iface) = self.for_apply.dup() {
            let mut iface = iface;
            iface.base.controller = Some(String::new());
            iface.base.controller_type = None;
            assert(iface.base.controller.deep_view() == Some(Seq::<char>::empty()));
            self.for_apply = Some(iface);
        }
    }

    /// Brings the interface up, when it is a present WIFI device of the given
    /// names that is not desired to be off.
    fn bring_phy_up(&mut self, names: &Vec<String>)
        ensures
            final(self)@ == phy_brought_up(old(self)@, names.deep_view()),
    {
        let off = match &self.desired {
            Some(iface) => iface.is_absent() || iface.is_down() || iface.is_ignore(),
            None => false,
        };
        if self.iface_type() == InterfaceType::WifiPhy && !off && self.current.is_some()
            && contains(names, &self.merged.base.kernel_iface_name) {
            self.mark_as_changed();
            if let Some(iface) = self.for_apply.dup() {
                let mut iface = iface;
                iface.base.state = InterfaceState::Up;
                self.for_apply = Some(iface);
            }
        }
    }
}

impl MergedInterfaces {
    /// Whether a WIFI configuration to apply is bound to no device.
    pub fn has_any_bind_wifi(&self) -> (res: bool)
        ensures
            res == self@.any_bind_wifi(),
    {
        let ghost user = self.user_ifaces@;
        let mut i: usize = 0;
        while i < self.user_ifaces.len()
            invariant
                i <= user.len(),
                user == self.user_ifaces@,
                forall|j: int|
                    0 <= j < i ==> !(is_wifi_up((#[trigger] user[j]).1.for_apply)
                        && user[j].1.for_apply->0.wifi->0.base_iface is None),
            decreases user.len() - i,
        {
            if let Some(iface) = &self.user_ifaces.value_at(i).for_apply {
                if iface.iface_type() == InterfaceType::WifiCfg && iface.is_up() {
                    if let Some(wifi) = &iface.wifi {
                        if wifi.base_iface.is_none() {
                            assert(self@.user_ifaces[i as int] == user[i as int]);
                            return true;
                        }
                    }
                }
            }
            i = i + 1;
        }
        assert(self@.user_ifaces == user);
        false
    }

    /// The names in the kernel of the WIFI devices that have to be up.
    fn list_phys_to_bring_up(&self) -> (res: Vec<String>)
        ensures
            res.deep_view() == self@.phys_to_bring_up(),
    {
        let ghost kernel = self.kernel_ifaces@;
        let ghost user = self.user_ifaces@;
        let mut names: Vec<String> = empty_list();
        if self.has_any_bind_wifi() {
            let mut i: usize = 0;
            while i < self.kernel_ifaces.len()
                invariant
                    i <= kernel.len(),
                    kernel == self.kernel_ifaces@,
                    phy_names_from(kernel, 0, Seq::empty()) == phy_names_from(
                        kernel,
                        i as int,
                        names.deep_view(),
                    ),
                decreases kernel.len() - i,
            {
                let merged_iface = self.kernel_ifaces.value_at(i);
                if merged_iface.iface_type() == InterfaceType::WifiPhy
                    && merged_iface.current.is_some() {
                    push(&mut names, self.kernel_ifaces.key_at(i).dup());
                }
                i = i + 1;
            }
        }
        let ghost start = names.deep_view();
        let mut i: usize = 0;
        while i < self.user_ifaces.len()
            invariant
                i <= user.len(),
                user == self.user_ifaces@,
                bound_phys_from(user, self.iface_search@, 0, start) == bound_phys_from(
                    user,
                    self.iface_search@,
                    i as int,
                    names.deep_view(),
                ),
            decreases user.len() - i,
        {
            if let Some(iface) = &self.user_ifaces.value_at(i).for_apply {
                if iface.iface_type() == InterfaceType::WifiCfg && iface.is_up() {
                    if let Some(wifi) = &iface.wifi {
                        if let Some(base_iface) = &wifi.base_iface {
                            let name = match self.iface_search.search_name(base_iface) {
                                Some(name) => name,
                                None => base_iface.dup(),
                            };
                            push(&mut names, name);
                        }
                    }
                }
            }
            i = i + 1;
        }
        names
    }

    /// Brings up the WIFI devices that WIFI configurations need: any suitable
    /// one for a configuration that is bound to none.
    pub fn post_merge_sanitize_wifi(&mut self)
        ensures
            final(self)@ == old(self)@.wifi_sanitized(),
    {
        let names = self.list_phys_to_bring_up();
        let ghost views = names.deep_view();
        let ghost start = self.kernel_ifaces@;
        let mut i: usize = 0;
        while i < self.kernel_ifaces.len()
            invariant
                i <= self.kernel_ifaces@.len(),
                self.kernel_ifaces@.len() == start.len(),
                start == old(self).kernel_ifaces@,
                views == names.deep_view(),
                self@ == (MergedInterfacesView { kernel_ifaces: self.kernel_ifaces@, ..old(self)@ }),
                forall|j: int|
                    0 <= j < i ==> #[trigger] self.kernel_ifaces@[j] == (
                        start[j].0,
                        phy_brought_up(start[j].1, views),
                    ),
                forall|j: int|
                    i <= j < start.len() ==> #[trigger] self.kernel_ifaces@[j] == start[j],
            decreases self.kernel_ifaces@.len() - i,
        {
            let mut iface = self.kernel_ifaces.value_at(i).dup();
            iface.bring_phy_up(&names);
            self.kernel_ifaces.set_value(i, iface);
            i = i + 1;
        }
        assert(self.kernel_ifaces@ =~= old(self)@.wifi_sanitized().kernel_ifaces);
    }

    /// Attaches the ports of the controller to it.
    fn attach_ports(&mut self, controller: &ControllerPorts) -> (res: Result<(), NipartError>)
        ensures
            match old(self)@.attached_from(controller@, 0) {
                Ok(ifaces) => res is Ok && final(self)@ == ifaces,
                Err(e) => res is Err && res->Err_0@ == e,
            },
    {
        let ghost ports = controller.ports.deep_view();
        let mut i: usize = 0;
        while i < controller.ports.len()
            invariant
                i <= controller.ports.len(),
                ports == controller.ports.deep_view(),
                old(self)@.attached_from(controller@, 0) == self@.attached_from(
                    controller@,
                    i as int,
                ),
            decreases controller.ports.len() - i,
        {
            let name = &controller.ports[i];
            assert(ports[i as int] == name@);
            assert(controller@.ports[i as int] == name@);
            let mut port = match self.kernel_ifaces.get(name) {
                Some(port) => port.dup(),
                None => {
                    return Err(
                        NipartError::new(
                            ErrorKind::InvalidArgument,
                            String::from_str("Failed to find port ").concat(name.as_str()).concat(
                                " of controller ",
                            ).concat(controller.name.as_str()).concat("/").concat(
                                controller.iface_type.as_str(),
                            ),
                        ),
                    );
                },
            };
            if controller.iface_type != InterfaceType::Vrf && is_ip_desired(&port.desired) {
                return Err(
                    NipartError::new(
                        ErrorKind::InvalidArgument,
                        String::from_str("Interface ").concat(port.merged.base.name.as_str()).concat(
                            "/",
                        ).concat(port.merged.base.iface_type.as_str()).concat(
                            " cannot have IP enabled as it is attached to controller ",
                        ).concat(controller.name.as_str()).concat("/").concat(
                            controller.iface_type.as_str(),
                        ),
                    ),
                );
            }
            port.attach(controller);
            self.kernel_ifaces.insert(name.dup(), port);
            i = i + 1;
        }
        Ok(())
    }

    /// Detaches the former ports of the controller from it.
    fn detach_ports(&mut self, controller: &ControllerPorts)
        ensures
            final(self)@ == old(self)@.detached_from(controller@, 0),
    {
        let ghost ports = controller.old_ports.deep_view();
        let controller_name = Some(controller.name.dup());
        let mut i: usize = 0;
        while i < controller.old_ports.len()
            invariant
                i <= controller.old_ports.len(),
                ports == controller.old_ports.deep_view(),
                controller_name.deep_view() == Some(controller@.name),
                old(self)@.detached_from(controller@, 0) == self@.detached_from(
                    controller@,
                    i as int,
                ),
            decreases controller.old_ports.len() - i,
        {
            let name = &controller.old_ports[i];
            assert(ports[i as int] == name@);
            assert(controller@.old_ports[i as int] == name@);
            let former = match self.kernel_ifaces.get(name) {
                Some(port) => if !contains(&controller.ports, name)
                    && port.merged.base.controller.same(&controller_name) {
                    Some(port.dup())
                } else {
                    None
                },
                None => None,
            };
            if let Some(port) = former {
                let mut port = port;
                port.detach();
                self.kernel_ifaces.insert(name.dup(), port);
            }
            i = i + 1;
        }
    }

    /// The desired controllers to bring up.
    fn list_controllers(&self) -> (res: Vec<ControllerPorts>)
        ensures
            res.deep_view() == controllers_from(self@.all(), 0, Seq::empty()),
    {
        let list = self.iter();
        let ghost views = list.deep_view();
        let mut res: Vec<ControllerPorts> = empty_list();
        let mut i: usize = 0;
        while i < list.len()
            invariant
                i <= list.len(),
                views == list.deep_view(),
                controllers_from(views, 0, Seq::empty()) == controllers_from(
                    views,
                    i as int,
                    res.deep_view(),
                ),
            decreases list.len() - i,
        {
            assert(views[i as int] == list[i as int]@);
            if let Some(controller) = list[i].to_controller() {
                push(&mut res, controller);
            }
            i = i + 1;
        }
        res
    }

    /// Makes the listed interfaces ports of their controllers, and those that
    /// are listed no longer ports of none.
    fn post_merge_sanitize_controller_and_port(&mut self) -> (res: Result<(), NipartError>)
        ensures
            match old(self)@.ports_sanitized() {
                Ok(ifaces) => res is Ok && final(self)@ == ifaces,
                Err(e) => res is Err && res->Err_0@ == e,
            },
    {
        let search = self.iface_search.dup();
        resolve_map_ports(&search, &mut self.kernel_ifaces);
        resolve_map_ports(&search, &mut self.user_ifaces);
        let ghost resolved = self@;
        assert(resolved == old(self)@.all_ports_resolved());
        let list = self.list_controllers();
        let ghost views = list.deep_view();
        let mut i: usize = 0;
        while i < list.len()
            invariant
                i <= list.len(),
                views == list.deep_view(),
                resolved.ports_settled_from(views, 0) == self@.ports_settled_from(views, i as int),
                old(self)@.ports_sanitized() == resolved.ports_settled_from(views, 0),
            decreases list.len() - i,
        {
            assert(views[i as int] == list[i as int]@);
            if let Err(e) = self.attach_ports(&list[i]) {
                return Err(e);
            }
            self.detach_ports(&list[i]);
            i = i + 1;
        }
        Ok(())
    }

    /// Sanitize actions which require cross-interfaces information:
    /// * WIFI device and configuration relationship
    /// * Controller/port relationship
    pub(crate) fn post_merge_sanitize(&mut self) -> (res: Result<(), NipartError>)
        ensures
            match old(self)@.sanitized() {
                Ok(ifaces) => res is Ok && final(self)@ == ifaces,
                Err(e) => res is Err && res->Err_0@ == e,
            },
    {
        self.post_merge_sanitize_wifi();
        self.post_merge_sanitize_controller_and_port()
    }
}

/// A port names its controller. Unless that is a VRF, it has no IP stack of its
/// own after the apply, and none is saved of it.
pub proof fn law_attached(iface: MergedInterfaceView, controller: ControllerPortsView)
    ensures
        ({
            let port = attached(iface, controller);
            &&& port.merged.base.controller == Some(controller.name)
            &&& port.merged.base.controller_type == Some(controller.iface_type)
            &&& port.for_apply is Some ==> port.for_apply->0.base.controller == Some(
                controller.name,
            )
            &&& !already_port_of(iface, controller.name) ==> port.for_apply is Some
            &&& !(controller.iface_type is Vrf) ==> {
                &&& port.merged.base.ipv4 is None && port.merged.base.ipv6 is None
                &&& port.for_save is Some ==> port.for_save->0.base.ipv4 is None
                    && port.for_save->0.base.ipv6 is None
                &&& port.for_apply is Some ==> !(port.for_apply->0.base.ipv4 is Some
                    && port.for_apply->0.base.ipv4->0.on()) && !(
                port.for_apply->0.base.ipv6 is Some && port.for_apply->0.base.ipv6->0.on())
            }
        }),
{
}

/// A former port is detached: it names no controller after the apply.
pub proof fn law_detached(iface: MergedInterfaceView)
    ensures
        detached(iface).merged.base.controller is None,
        detached(iface).for_apply is Some,
        detached(iface).for_apply->0.base.controller == Some(Seq::<char>::empty()),
{
}

/// Attaching the ports of a controller attaches each of them and leaves every
/// other interface alone.
pub proof fn law_ports_attached(
    ifaces: MergedInterfacesView,
    controller: ControllerPortsView,
    i: int,
    k: int,
    name: Seq<char>,
)
    requires
        0 <= i,
        ifaces.attached_from(controller, i) is Ok,
    ensures
        ({
            let next = ifaces.attached_from(controller, i)->Ok_0;
            let found = keymap::lookup(next.kernel_ifaces, name);
            &&& i <= k < controller.ports.len() && controller.ports[k] == name ==> found is Some
                && found->0.merged.base.controller == Some(controller.name)
            &&& keymap::lookup(ifaces.kernel_ifaces, name) is Some && keymap::lookup(
                ifaces.kernel_ifaces,
                name,
            )->0.merged.base.controller == Some(controller.name) ==> found is Some
                && found->0.merged.base.controller == Some(controller.name)
            &&& !controller.ports.contains(name) ==> found == keymap::lookup(
                ifaces.kernel_ifaces,
                name,
            )
        }),
    decreases controller.ports.len() - i,
{
    if i < controller.ports.len() {
        let port = keymap::lookup(ifaces.kernel_ifaces, controller.ports[i])->0;
        let value = attached(port, controller);
        let next = ifaces.with_kernel(controller.ports[i], value);
        keymap::law_inserted(ifaces.kernel_ifaces, controller.ports[i], value, name);
        law_ports_attached(next, controller, i + 1, k, name);
    }
}

/// An interface that was no port of a controller, or still is one, is not
/// detached from it.
pub proof fn law_others_stay(
    ifaces: MergedInterfacesView,
    controller: ControllerPortsView,
    i: int,
    name: Seq<char>,
)
    requires
        0 <= i,
        !controller.old_ports.contains(name) || controller.ports.contains(name),
    ensures
        keymap::lookup(ifaces.detached_from(controller, i).kernel_ifaces, name) == keymap::lookup(
            ifaces.kernel_ifaces,
            name,
        ),
    decreases controller.old_ports.len() - i,
{
    if i < controller.old_ports.len() {
        let old_name = controller.old_ports[i];
        match keymap::lookup(ifaces.kernel_ifaces, old_name) {
            Some(port) if !controller.ports.contains(old_name) && port.merged.base.controller
                == Some(controller.name) => {
                let next = ifaces.with_kernel(old_name, detached(port));
                keymap::law_inserted(ifaces.kernel_ifaces, old_name, detached(port), name);
                law_others_stay(next, controller, i + 1, name);
            },
            _ => law_others_stay(ifaces, controller, i + 1, name),
        }
    }
}

} // verus!
