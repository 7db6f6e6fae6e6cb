//! The order in which interfaces are brought up: a controller before its
//! ports, and an interface before those that run on it.

use vstd::prelude::*;
use vstd::string::*;

use crate::error;
use crate::error::{ErrorKind, NipartError, NipartErrorView};
use crate::iface::InterfaceType;
use crate::ifaces;
use crate::keymap;
use crate::keymap::KeyMap;
use crate::merged_iface::{MergedInterface, MergedInterfaceView};
use crate::merged_ifaces::{MergedInterfaces, MergedInterfacesView};
use crate::value::Value;

verus! {

/// How often setting the priorities is tried. This allows interfaces with 4
/// nested levels in any order. To support more nested levels, the user could
/// place the top controller at the beginning of the desired state.
pub const INTERFACES_SET_PRIORITY_MAX_RETRY: u32 = 4;

/// Whether the interface is one to bring up whose place is not settled.
pub open spec fn is_unsettled(iface: Option<MergedInterfaceView>) -> bool {
    &&& iface is Some
    &&& !iface->0.priority_settled()
    &&& iface->0.for_apply is Some
    &&& iface->0.for_apply->0.base.state is Up
}

/// The priority after `priority`.
pub open spec fn next_priority(priority: u32) -> u32 {
    (priority + 1) as u32
}

/// The error of a port whose controller has no type.
pub open spec fn no_controller_type(port: MergedInterfaceView) -> NipartErrorView {
    NipartErrorView {
        kind: ErrorKind::Bug,
        msg: "Got for_apply interface with empty controller_type and non-empty controller: "@
            + port.for_apply->0.base.name + "/"@
            + port.for_apply->0.base.iface_type.kebab_name(),
    }
}

/// The error of a port whose controller is not there.
pub open spec fn no_controller(port: MergedInterfaceView) -> NipartErrorView {
    NipartErrorView {
        kind: ErrorKind::Bug,
        msg: "Failed to find controller interface of "@ + port.for_apply->0.base.name + "/"@
            + port.for_apply->0.base.iface_type.kebab_name(),
    }
}

/// What is known of the place of a port.
pub enum Place {
    /// There is no controller to wait for.
    Free,
    /// The controller has no place yet.
    Unknown,
    /// The port comes after its controller.
    After(u32),
}

impl MergedInterfacesView {
    /// The place of a port after its controller.
    pub open spec fn port_place(
        self,
        port: MergedInterfaceView,
        pending: Seq<(Seq<char>, u32)>,
    ) -> Result<Place, NipartErrorView> {
        let base = port.for_apply->0.base;
        if !base.has_controller() {
            Ok(Place::Free)
        } else if base.controller_type is None {
            Err(no_controller_type(port))
        } else {
            match self.find(base.controller->0, base.controller_type->0) {
                None => Err(no_controller(port)),
                Some(controller) => match keymap::lookup(pending, base.controller->0) {
                    Some(priority) => Ok(Place::After(next_priority(priority))),
                    None => if controller.priority_settled() {
                        Ok(Place::After(next_priority(controller.up_priority.unwrap_or(0))))
                    } else {
                        Ok(Place::Unknown)
                    },
                },
            }
        }
    }

    /// The places of the ports from `i` on, and whether all are known.
    pub open spec fn ports_placed_from(
        self,
        i: int,
        pending: Seq<(Seq<char>, u32)>,
        all: bool,
    ) -> Result<(Seq<(Seq<char>, u32)>, bool), NipartErrorView>
        decreases self.insert_order.len() - i,
    {
        if i < 0 || i >= self.insert_order.len() {
            Ok((pending, all))
        } else {
            let (name, iface_type) = self.insert_order[i];
            let iface = self.find(name, iface_type);
            if !is_unsettled(iface) {
                self.ports_placed_from(i + 1, pending, all)
            } else {
                match self.port_place(iface->0, pending) {
                    Err(e) => Err(e),
                    Ok(Place::Free) => self.ports_placed_from(i + 1, pending, all),
                    Ok(Place::Unknown) => self.ports_placed_from(i + 1, pending, false),
                    Ok(Place::After(priority)) => self.ports_placed_from(
                        i + 1,
                        keymap::inserted(pending, name, priority),
                        all,
                    ),
                }
            }
        }
    }

    /// The place of an interface after the one that it runs on.
    pub open spec fn child_place(
        self,
        child: MergedInterfaceView,
        pending: Seq<(Seq<char>, u32)>,
    ) -> Place {
        match child.for_apply->0.parent {
            None => Place::Free,
            Some(parent) => match keymap::lookup(pending, parent) {
                Some(priority) => Place::After(next_priority(priority)),
                None => match keymap::lookup(self.kernel_ifaces, parent) {
                    Some(iface) if iface.priority_settled() => Place::After(
                        next_priority(iface.up_priority.unwrap_or(0)),
                    ),
                    _ => Place::Unknown,
                },
            },
        }
    }

    /// The places of the interfaces from `i` on that run on others.
    pub open spec fn children_placed_from(
        self,
        i: int,
        pending: Seq<(Seq<char>, u32)>,
    ) -> Seq<(Seq<char>, u32)>
        decreases self.insert_order.len() - i,
    {
        if i < 0 || i >= self.insert_order.len() {
            pending
        } else {
            let (name, iface_type) = self.insert_order[i];
            let iface = self.find(name, iface_type);
            if !is_unsettled(iface) {
                self.children_placed_from(i + 1, pending)
            } else {
                match self.child_place(iface->0, pending) {
                    Place::After(priority) => self.children_placed_from(
                        i + 1,
                        keymap::inserted(pending, name, priority),
                    ),
                    _ => self.children_placed_from(i + 1, pending),
                }
            }
        }
    }

    /// The interfaces with the pending priorities from `i` on.
    pub open spec fn with_priorities_from(
        self,
        pending: Seq<(Seq<char>, u32)>,
        i: int,
    ) -> MergedInterfacesView
        decreases pending.len() - i,
    {
        if i < 0 || i >= pending.len() {
            self
        } else {
            match keymap::lookup(self.kernel_ifaces, pending[i].0) {
                Some(iface) => MergedInterfacesView {
                    kernel_ifaces: keymap::inserted(
                        self.kernel_ifaces,
                        pending[i].0,
                        MergedInterfaceView { up_priority: Some(pending[i].1), ..iface },
                    ),
                    ..self
                }.with_priorities_from(pending, i + 1),
                None => self.with_priorities_from(pending, i + 1),
            }
        }
    }

    /// The interfaces after one try to set the priorities, and whether all of
    /// the ports have one.
    pub open spec fn priorities_tried(self) -> Result<
        (MergedInterfacesView, bool),
        NipartErrorView,
    > {
        match self.ports_placed_from(0, Seq::empty(), true) {
            Err(e) => Err(e),
            Ok((pending, all)) => {
                let pending = if all {
                    self.children_placed_from(0, pending)
                } else {
                    pending
                };
                Ok((self.with_priorities_from(pending, 0), all))
            },
        }
    }

    /// The interfaces with their priorities, after at most `tries` tries.
    pub open spec fn prioritized(self, tries: nat) -> Result<MergedInterfacesView, NipartErrorView>
        decreases tries,
    {
        if tries == 0 {
            Err(
                error::invalid(
                    "Failed to set up priority: nipart only support nested interface up to 4 levels. To support more nest level, please order the interfaces in desire state to place controller before its ports"@,
                ),
            )
        } else {
            match self.priorities_tried() {
                Err(e) => Err(e),
                Ok((ifaces, true)) => Ok(ifaces),
                Ok((ifaces, false)) => ifaces.prioritized((tries - 1) as nat),
            }
        }
    }

    /// Whether no priority exceeds the bound.
    pub open spec fn priorities_within(self, bound: int) -> bool {
        &&& 0 <= bound
        &&& forall|i: int|
            0 <= i < self.kernel_ifaces.len() ==> is_within(
                (#[trigger] self.kernel_ifaces[i]).1.up_priority,
                bound,
            )
        &&& forall|i: int|
            0 <= i < self.user_ifaces.len() ==> is_within(
                (#[trigger] self.user_ifaces[i]).1.up_priority,
                bound,
            )
    }
}

/// Whether the priority does not exceed the bound.
pub open spec fn is_within(priority: Option<u32>, bound: int) -> bool {
    0 <= bound && (priority is Some ==> priority->0 <= bound)
}

/// Whether no pending priority exceeds the bound.
pub open spec fn pending_within(pending: Seq<(Seq<char>, u32)>, bound: int) -> bool {
    0 <= bound && forall|i: int| 0 <= i < pending.len() ==> (#[trigger] pending[i]).1 <= bound
}

/// What a map holds is a value of one of its entries.
proof fn lemma_lookup<K, V>(map: Seq<(K, V)>, key: K)
    ensures
        keymap::lookup(map, key) is Some ==> exists|i: int|
            0 <= i < map.len() && (#[trigger] map[i]) == (key, keymap::lookup(map, key)->0),
{
    keymap::lemma_entry_from(map, key, 0);
    if keymap::has(map, key) {
        let i = keymap::entry(map, key);
        assert(map[i] == (key, keymap::lookup(map, key)->0));
    }
}

/// A priority that is found does not exceed the bound.
proof fn lemma_found_within(
    ifaces: MergedInterfacesView,
    name: Seq<char>,
    iface_type: InterfaceType,
    bound: int,
)
    requires
        ifaces.priorities_within(bound),
    ensures
        ifaces.find(name, iface_type) is Some ==> is_within(
            ifaces.find(name, iface_type)->0.up_priority,
            bound,
        ),
{
    lemma_lookup(ifaces.kernel_ifaces, name);
    lemma_lookup(ifaces.user_ifaces, (name, iface_type));
}

/// An inserted priority raises the bound at most to itself.
proof fn lemma_inserted_within(
    pending: Seq<(Seq<char>, u32)>,
    name: Seq<char>,
    priority: u32,
    bound: int,
)
    requires
        pending_within(pending, bound),
        priority <= bound + 1,
    ensures
        pending_within(keymap::inserted(pending, name, priority), bound + 1),
{
    let next = keymap::inserted(pending, name, priority);
    keymap::lemma_entry_from(pending, name, 0);
    assert forall|i: int| 0 <= i < next.len() implies (#[trigger] next[i]).1 <= bound + 1 by {
        if i < pending.len() {
            assert(pending[i].1 <= bound);
        }
    }
}

/// What is pending for a name does not exceed the bound.
proof fn lemma_pending_within(pending: Seq<(Seq<char>, u32)>, name: Seq<char>, bound: int)
    requires
        pending_within(pending, bound),
    ensures
        keymap::lookup(pending, name) is Some ==> keymap::lookup(pending, name)->0 <= bound,
{
    lemma_lookup(pending, name);
}

/// Setting a priority within the bound keeps the bound.
proof fn lemma_set_within(
    ifaces: MergedInterfacesView,
    next: MergedInterfacesView,
    name: Seq<char>,
    iface: MergedInterfaceView,
    bound: int,
)
    requires
        ifaces.priorities_within(bound),
        is_within(iface.up_priority, bound),
        next == (MergedInterfacesView {
            kernel_ifaces: keymap::inserted(ifaces.kernel_ifaces, name, iface),
            ..ifaces
        }),
    ensures
        next.priorities_within(bound),
{
    keymap::lemma_entry_from(ifaces.kernel_ifaces, name, 0);
    assert forall|i: int| 0 <= i < next.kernel_ifaces.len() implies is_within(
        (#[trigger] next.kernel_ifaces[i]).1.up_priority,
        bound,
    ) by {
        if i < ifaces.kernel_ifaces.len() {
            assert(is_within(ifaces.kernel_ifaces[i].1.up_priority, bound));
        }
    }
}

/// The place of a port exceeds the bound by one at most.
proof fn lemma_port_place_within(
    ifaces: MergedInterfacesView,
    port: MergedInterfaceView,
    pending: Seq<(Seq<char>, u32)>,
    bound: int,
)
    requires
        ifaces.priorities_within(bound),
        pending_within(pending, bound),
        bound < u32::MAX,
    ensures
        match ifaces.port_place(port, pending) {
            Ok(Place::After(priority)) => priority <= bound + 1,
            _ => true,
        },
{
    let base = port.for_apply->0.base;
    lemma_pending_within(pending, base.controller->0, bound);
    lemma_found_within(ifaces, base.controller->0, base.controller_type->0, bound);
}

/// The place of an interface that runs on another exceeds the bound by one
/// at most.
proof fn lemma_child_place_within(
    ifaces: MergedInterfacesView,
    child: MergedInterfaceView,
    pending: Seq<(Seq<char>, u32)>,
    bound: int,
)
    requires
        ifaces.priorities_within(bound),
        pending_within(pending, bound),
        bound < u32::MAX,
    ensures
        match ifaces.child_place(child, pending) {
            Place::After(priority) => priority <= bound + 1,
            _ => true,
        },
{
    if let Some(parent) = child.for_apply->0.parent {
        lemma_pending_within(pending, parent, bound);
        lemma_found_within(ifaces, parent, InterfaceType::Ethernet, bound);
    }
}

impl MergedInterface {
    /// Whether the interface is one to bring up whose place is not settled.
    fn is_up_unsettled(&self) -> (res: bool)
        ensures
            res == is_unsettled(Some(self@)),
    {
        if self.is_up_priority_valid() {
            return false;
        }
        match &self.for_apply {
            Some(iface) => iface.is_up(),
            None => false,
        }
    }
}

impl MergedInterfaces {
    /// The place of a port after its controller.
    fn get_port_place(&self, port: &MergedInterface, pending: &KeyMap<String, u32>) -> (res: Result<
        Place,
        NipartError,
    >)
        requires
            port@.for_apply is Some,
            exists|bound: int|
                bound < u32::MAX && #[trigger] self@.priorities_within(bound) && pending_within(
                    pending@,
                    bound,
                ),
        ensures
            match self@.port_place(port@, pending@) {
                Ok(place) => res == Ok::<Place, NipartError>(place),
                Err(e) => res is Err && res->Err_0@ == e,
            },
    {
        let ghost bound = choose|bound: int|
            bound < u32::MAX && #[trigger] self@.priorities_within(bound) && pending_within(
                pending@,
                bound,
            );
        let iface = match &port.for_apply {
            Some(iface) => iface,
            None => {
                return Ok(Place::Free);
            },
        };
        if !iface.base.has_controller() {
            return Ok(Place::Free);
        }
        let name = match &iface.base.controller {
            Some(name) => name,
            None => {
                return Ok(Place::Free);
            },
        };
        let iface_type = match iface.base.controller_type {
            Some(iface_type) => iface_type,
            None => {
                return Err(
                    NipartError::new(
                        ErrorKind::Bug,
                        String::from_str(
                            "Got for_apply interface with empty controller_type and non-empty controller: ",
                        ).concat(iface.base.name.as_str()).concat("/").concat(
                            iface.base.iface_type.as_str(),
                        ),
                    ),
                );
            },
        };
        proof {
            lemma_pending_within(pending@, name@, bound);
            lemma_found_within(self@, name@, iface_type, bound);
        }
        match self.find(name, iface_type) {
            Some(controller) => match pending.get(name) {
                Some(priority) => Ok(Place::After(*priority + 1)),
                None => if controller.is_up_priority_valid() {
                    Ok(Place::After(controller.up_priority.unwrap_or(0) + 1))
                } else {
                    Ok(Place::Unknown)
                },
            },
            None => Err(
                NipartError::new(
                    ErrorKind::Bug,
                    String::from_str("Failed to find controller interface of ").concat(
                        iface.base.name.as_str(),
                    ).concat("/").concat(iface.base.iface_type.as_str()),
                ),
            ),
        }
    }

    /// The place of an interface after the one that it runs on.
    fn get_child_place(&self, child: &MergedInterface, pending: &KeyMap<String, u32>) -> (res: Place)
        requires
            child@.for_apply is Some,
            exists|bound: int|
                bound < u32::MAX && #[trigger] self@.priorities_within(bound) && pending_within(
                    pending@,
                    bound,
                ),
        ensures
            res == self@.child_place(child@, pending@),
    {
        let ghost bound = choose|bound: int|
            bound < u32::MAX && #[trigger] self@.priorities_within(bound) && pending_within(
                pending@,
                bound,
            );
        let iface = match &child.for_apply {
            Some(iface) => iface,
            None => {
                return Place::Free;
            },
        };
        let parent = match &iface.parent {
            Some(parent) => parent,
            None => {
                return Place::Free;
            },
        };
        proof {
            lemma_pending_within(pending@, parent@, bound);
            lemma_found_within(self@, parent@, InterfaceType::Ethernet, bound);
        }
        if let Some(priority) = pending.get(parent) {
            return Place::After(*priority + 1);
        }
        match self.kernel_ifaces.get(parent) {
            Some(parent_iface) => if parent_iface.is_up_priority_valid() {
                Place::After(parent_iface.up_priority.unwrap_or(0) + 1)
            } else {
                Place::Unknown
            },
            None => Place::Unknown,
        }
    }

    /// The places of the ports, and whether all are known.
    fn place_ports(&self, Ghost(bound): Ghost<int>) -> (res: Result<
        (KeyMap<String, u32>, bool),
        NipartError,
    >)
        requires
            self@.priorities_within(bound),
            bound + self@.insert_order.len() <= u32::MAX,
        ensures
            match self@.ports_placed_from(0, Seq::empty(), true) {
                Ok((pending, all)) => res is Ok && res->Ok_0.0@ == pending && res->Ok_0.1 == all
                    && pending_within(pending, bound + self@.insert_order.len()),
                Err(e) => res is Err && res->Err_0@ == e,
            },
    {
        let ghost order = self.insert_order.deep_view();
        // The order of insertion lets users help with the order of dependency.
        let mut pending: KeyMap<String, u32> = KeyMap::new();
        let mut all = true;
        let mut i: usize = 0;
        while i < self.insert_order.len()
            invariant
                i <= self.insert_order.len(),
                order == self.insert_order.deep_view(),
                order == self@.insert_order,
                self@.priorities_within(bound),
                0 <= bound,
                bound + order.len() <= u32::MAX,
                pending_within(pending@, bound + i),
                self@.ports_placed_from(0, Seq::empty(), true) == self@.ports_placed_from(
                    i as int,
                    pending@,
                    all,
                ),
            decreases self.insert_order.len() - i,
        {
            let name = &self.insert_order[i].0;
            let iface_type = self.insert_order[i].1;
            assert(order[i as int] == self.insert_order[i as int].deep_view());
            assert(self@.priorities_within(bound + i));
            let ghost before = pending@;
            if let Some(merged_iface) = self.find(name, iface_type) {
                if merged_iface.is_up_unsettled() {
                    match self.get_port_place(merged_iface, &pending) {
                        Err(e) => {
                            return Err(e);
                        },
                        Ok(Place::Free) => {},
                        Ok(Place::Unknown) => {
                            all = false;
                        },
                        Ok(Place::After(priority)) => {
                            proof {
                                lemma_port_place_within(self@, merged_iface@, before, bound + i);
                                lemma_inserted_within(before, name@, priority, bound + i);
                            }
                            pending.insert(name.dup(), priority);
                        },
                    }
                }
            }
            assert(pending_within(pending@, bound + i + 1));
            i = i + 1;
        }
        Ok((pending, all))
    }

    /// The places of the interfaces that run on others.
    fn place_children(&self, pending: KeyMap<String, u32>, Ghost(bound): Ghost<int>) -> (res:
        KeyMap<String, u32>)
        requires
            self@.priorities_within(bound),
            pending_within(pending@, bound),
            bound + self@.insert_order.len() <= u32::MAX,
        ensures
            res@ == self@.children_placed_from(0, pending@),
            pending_within(res@, bound + self@.insert_order.len()),
    {
        let ghost order = self.insert_order.deep_view();
        let ghost start = pending@;
        let mut places = pending;
        let mut i: usize = 0;
        while i < self.insert_order.len()
            invariant
                i <= self.insert_order.len(),
                order == self.insert_order.deep_view(),
                order == self@.insert_order,
                self@.priorities_within(bound),
                0 <= bound,
                bound + order.len() <= u32::MAX,
                pending_within(places@, bound + i),
                self@.children_placed_from(0, start) == self@.children_placed_from(
                    i as int,
                    places@,
                ),
            decreases self.insert_order.len() - i,
        {
            let name = &self.insert_order[i].0;
            let iface_type = self.insert_order[i].1;
            assert(order[i as int] == self.insert_order[i as int].deep_view());
            assert(self@.priorities_within(bound + i));
            let ghost before = places@;
            if let Some(merged_iface) = self.find(name, iface_type) {
                if merged_iface.is_up_unsettled() {
                    if let Place::After(priority) = self.get_child_place(merged_iface, &places) {
                        proof {
                            lemma_child_place_within(self@, merged_iface@, before, bound + i);
                            lemma_inserted_within(before, name@, priority, bound + i);
                        }
                        places.insert(name.dup(), priority);
                    }
                }
            }
            assert(pending_within(places@, bound + i + 1));
            i = i + 1;
        }
        places
    }

    /// Sets the pending priorities.
    fn set_priorities(&mut self, pending: &KeyMap<String, u32>, Ghost(bound): Ghost<int>)
        requires
            old(self)@.priorities_within(bound),
            pending_within(pending@, bound),
        ensures
            final(self)@ == old(self)@.with_priorities_from(pending@, 0),
            final(self)@.priorities_within(bound),
            final(self)@.insert_order == old(self)@.insert_order,
    {
        let mut i: usize = 0;
        while i < pending.len()
            invariant
                i <= pending@.len(),
                pending_within(pending@, bound),
                self@.priorities_within(bound),
                self@.insert_order == old(self)@.insert_order,
                old(self)@.with_priorities_from(pending@, 0) == self@.with_priorities_from(
                    pending@,
                    i as int,
                ),
            decreases pending@.len() - i,
        {
            let name = pending.key_at(i);
            let priority = *pending.value_at(i);
            assert(pending@[i as int].1 <= bound);
            let found = match self.kernel_ifaces.get(name) {
                Some(iface) => Some(iface.dup()),
                None => None,
            };
            let ghost before = self@;
            if let Some(iface) = found {
                let mut iface = iface;
                iface.up_priority = Some(priority);
                let ghost set = iface@;
                self.kernel_ifaces.insert(name.dup(), iface);
                proof {
                    lemma_set_within(before, self@, name@, set, bound);
                }
            }
            i = i + 1;
        }
    }

    /// Tries to set all priorities. Returns true when all interfaces have a
    /// correct one.
    fn set_ifaces_up_priority(&mut self, Ghost(bound): Ghost<int>) -> (res: Result<
        bool,
        NipartError,
    >)
        requires
            old(self)@.priorities_within(bound),
            bound + 2 * old(self)@.insert_order.len() <= u32::MAX,
        ensures
            match old(self)@.priorities_tried() {
                Ok((ifaces, all)) => res == Ok::<bool, NipartError>(all) && final(self)@ == ifaces,
                Err(e) => res is Err && res->Err_0@ == e,
            },
            res is Ok ==> final(self)@.insert_order == old(self)@.insert_order
                && final(self)@.priorities_within(bound + 2 * old(self)@.insert_order.len()),
    {
        let ghost n = self@.insert_order.len();
        let (pending, all) = match self.place_ports(Ghost(bound)) {
            Ok(placed) => placed,
            Err(e) => {
                return Err(e);
            },
        };
        assert(self@.priorities_within(bound + n));
        assert(self@.priorities_within(bound + 2 * n));
        let pending = if all {
            self.place_children(pending, Ghost(bound + n))
        } else {
            pending
        };
        assert(pending_within(pending@, bound + 2 * n));
        self.set_priorities(&pending, Ghost(bound + 2 * n));
        Ok(all)
    }

    /// Sets the priorities of all interfaces that have none.
    pub(crate) fn set_up_priority(&mut self) -> (res: Result<(), NipartError>)
        requires
            old(self)@.priorities_within(0),
            8 * old(self)@.insert_order.len() <= u32::MAX,
        ensures
            match old(self)@.prioritized(INTERFACES_SET_PRIORITY_MAX_RETRY as nat) {
                Ok(ifaces) => res is Ok && final(self)@ == ifaces,
                Err(e) => res is Err && res->Err_0@ == e,
            },
    {
        let ghost n = self@.insert_order.len();
        let mut tries: u32 = 0;
        while tries < INTERFACES_SET_PRIORITY_MAX_RETRY
            invariant
                tries <= INTERFACES_SET_PRIORITY_MAX_RETRY,
                self@.insert_order.len() == n,
                8 * n <= u32::MAX,
                self@.priorities_within(2 * tries * n),
                old(self)@.prioritized(INTERFACES_SET_PRIORITY_MAX_RETRY as nat)
                    == self@.prioritized((INTERFACES_SET_PRIORITY_MAX_RETRY - tries) as nat),
            decreases INTERFACES_SET_PRIORITY_MAX_RETRY - tries,
        {
            assert(2 * tries * n + 2 * n == 2 * (tries + 1) * n && 2 * tries * n <= 6 * n)
                by (nonlinear_arith)
                requires
                    tries < 4,
            ;
            match self.set_ifaces_up_priority(Ghost(2 * tries * n)) {
                Ok(true) => {
                    return Ok(());
                },
                Ok(false) => {},
                Err(e) => {
                    return Err(e);
                },
            }
            tries = tries + 1;
        }
        Err(
            NipartError::new(
                ErrorKind::InvalidArgument,
                String::from_str(
                    "Failed to set up priority: nipart only support nested interface up to 4 levels. To support more nest level, please order the interfaces in desire state to place controller before its ports",
                ),
            ),
        )
    }
}

/// Whether the interface is one to bring up after its controller.
pub open spec fn waits_for_controller(iface: MergedInterfaceView) -> bool {
    &&& iface.for_apply is Some
    &&& iface.for_apply->0.base.state is Up
    &&& iface.for_apply->0.base.has_controller()
}

impl MergedInterfacesView {
    /// Whether the interface comes after its controller.
    pub open spec fn is_after_controller(self, iface: MergedInterfaceView) -> bool {
        let base = iface.for_apply->0.base;
        &&& iface.up_priority is Some
        &&& base.controller_type is Some
        &&& match self.find(base.controller->0, base.controller_type->0) {
            Some(controller) => controller.priority_settled() && iface.up_priority->0
                > controller.up_priority.unwrap_or(0),
            None => false,
        }
    }

    /// Whether every interface has one place in the order, those that the
    /// kernel does not have wait for none, and none waits for both a controller
    /// and the interface that it runs on.
    pub open spec fn is_plain(self) -> bool {
        &&& forall|i: int, j: int|
            0 <= i < j < self.insert_order.len() && !(
            #[trigger] self.insert_order[i]).1.userspace() && !(
            #[trigger] self.insert_order[j]).1.userspace() ==> self.insert_order[i].0
                != self.insert_order[j].0
        &&& forall|name: Seq<char>|
            #[trigger] keymap::has(self.kernel_ifaces, name) ==> ifaces::is_kernel_listed(
                self.insert_order,
                name,
            )
        &&& forall|i: int|
            0 <= i < self.user_ifaces.len() ==> (
            #[trigger] self.user_ifaces[i]).1.up_priority is None
                && self.user_ifaces[i].1.priority_settled()
        &&& forall|name: Seq<char>|
            (#[trigger] keymap::lookup(self.kernel_ifaces, name)) is Some ==> {
                let iface = keymap::lookup(self.kernel_ifaces, name)->0;
                iface.for_apply is Some && iface.for_apply->0.base.has_controller()
                    ==> iface.for_apply->0.parent is None
            }
    }

    /// Whether every interface that has a place comes after its controller.
    pub open spec fn is_ranked_well(self) -> bool {
        forall|name: Seq<char>|
            (#[trigger] keymap::lookup(self.kernel_ifaces, name)) is Some ==> {
                let iface = keymap::lookup(self.kernel_ifaces, name)->0;
                waits_for_controller(iface) && iface.up_priority is Some
                    ==> self.is_after_controller(iface)
            }
    }

    /// Whether the pending place of `name` is one for an interface without a
    /// place, after that of its controller.
    pub open spec fn is_pending_well(self, pending: Seq<(Seq<char>, u32)>, name: Seq<char>) -> bool {
        let found = keymap::lookup(self.kernel_ifaces, name);
        &&& is_unsettled(found)
        &&& waits_for_controller(found->0) ==> {
            let base = found->0.for_apply->0.base;
            let priority = keymap::lookup(pending, name)->0;
            let before = keymap::lookup(pending, base.controller->0);
            &&& base.controller_type is Some
            &&& match self.find(base.controller->0, base.controller_type->0) {
                None => false,
                Some(controller) => {
                    ||| before is Some && priority > before->0 && waits_for_controller(
                        keymap::lookup(self.kernel_ifaces, base.controller->0)->0,
                    )
                    ||| controller.priority_settled() && priority
                        > controller.up_priority.unwrap_or(0)
                },
            }
        }
    }

    /// Whether all pending places are as they should be.
    pub open spec fn are_pending_well(self, pending: Seq<(Seq<char>, u32)>) -> bool {
        &&& keymap::unique(pending)
        &&& forall|name: Seq<char>|
            (#[trigger] keymap::lookup(pending, name)) is Some ==> self.is_pending_well(
                pending,
                name,
            )
    }

    /// Whether only interfaces that are in the order before `i` have a pending
    /// place.
    pub open spec fn are_listed_before(self, pending: Seq<(Seq<char>, u32)>, i: int) -> bool {
        forall|name: Seq<char>|
            (#[trigger] keymap::lookup(pending, name)) is Some ==> exists|k: int|
                0 <= k < i && k < self.insert_order.len() && !(
                #[trigger] self.insert_order[k]).1.userspace() && self.insert_order[k].0 == name
    }

    /// Whether every interface in the order before `i` that waits for its
    /// controller has a pending place.
    pub open spec fn are_placed_before(self, pending: Seq<(Seq<char>, u32)>, i: int) -> bool {
        forall|k: int|
            0 <= k < i && k < self.insert_order.len() && !(
            #[trigger] self.insert_order[k]).1.userspace() && is_unsettled(
                self.find(self.insert_order[k].0, self.insert_order[k].1),
            ) && waits_for_controller(
                self.find(self.insert_order[k].0, self.insert_order[k].1)->0,
            ) ==> keymap::lookup(pending, self.insert_order[k].0) is Some
    }
}

/// Interfaces that the kernel does not have wait for none.
proof fn lemma_user_settled(ifaces: MergedInterfacesView, name: Seq<char>, iface_type: InterfaceType)
    requires
        ifaces.is_plain(),
        iface_type.userspace(),
    ensures
        ifaces.find(name, iface_type) is Some ==> ifaces.find(
            name,
            iface_type,
        )->0.up_priority is None && ifaces.find(name, iface_type)->0.priority_settled(),
{
    lemma_lookup(ifaces.user_ifaces, (name, iface_type));
}

/// The places of the ports are after those of their controllers.
proof fn lemma_ports_placed_well(
    ifaces: MergedInterfacesView,
    i: int,
    pending: Seq<(Seq<char>, u32)>,
    all: bool,
    bound: int,
)
    requires
        ifaces.is_plain(),
        ifaces.priorities_within(bound),
        0 <= i <= ifaces.insert_order.len(),
        0 <= bound,
        bound + ifaces.insert_order.len() <= u32::MAX,
        pending_within(pending, bound + i),
        ifaces.are_pending_well(pending),
        ifaces.are_listed_before(pending, i),
        all ==> ifaces.are_placed_before(pending, i),
        forall|name: Seq<char>|
            (#[trigger] keymap::lookup(pending, name)) is Some ==> waits_for_controller(
                keymap::lookup(ifaces.kernel_ifaces, name)->0,
            ),
    ensures
        match ifaces.ports_placed_from(i, pending, all) {
            Ok((places, known)) => {
                &&& ifaces.are_pending_well(places)
                &&& pending_within(places, bound + ifaces.insert_order.len())
                &&& known ==> ifaces.are_placed_before(places, ifaces.insert_order.len() as int)
                &&& forall|name: Seq<char>|
                    (#[trigger] keymap::lookup(places, name)) is Some ==> waits_for_controller(
                        keymap::lookup(ifaces.kernel_ifaces, name)->0,
                    )
            },
            Err(_) => true,
        },
    decreases ifaces.insert_order.len() - i,
{
    if i < ifaces.insert_order.len() {
        let (name, iface_type) = ifaces.insert_order[i];
        let iface = ifaces.find(name, iface_type);
        if iface_type.userspace() {
            lemma_user_settled(ifaces, name, iface_type);
        }
        if !is_unsettled(iface) {
            lemma_ports_placed_well(ifaces, i + 1, pending, all, bound);
        } else {
            match ifaces.port_place(iface->0, pending) {
                Err(_) => {},
                Ok(Place::Free) => {
                    lemma_ports_placed_well(ifaces, i + 1, pending, all, bound);
                },
                Ok(Place::Unknown) => {
                    lemma_ports_placed_well(ifaces, i + 1, pending, false, bound);
                },
                Ok(Place::After(priority)) => {
                    let next = keymap::inserted(pending, name, priority);
                    assert(ifaces.priorities_within(bound + i));
                    lemma_port_place_within(ifaces, iface->0, pending, bound + i);
                    lemma_inserted_within(pending, name, priority, bound + i);
                    lemma_place_added(ifaces, i, pending, priority, bound);
                    lemma_ports_placed_well(ifaces, i + 1, next, all, bound);
                },
            }
        }
    }
}

/// One more place keeps the places as they should be.
proof fn lemma_place_added(
    ifaces: MergedInterfacesView,
    i: int,
    pending: Seq<(Seq<char>, u32)>,
    priority: u32,
    bound: int,
)
    requires
        ifaces.is_plain(),
        ifaces.priorities_within(bound),
        0 <= i < ifaces.insert_order.len(),
        0 <= bound,
        bound + ifaces.insert_order.len() <= u32::MAX,
        pending_within(pending, bound + i),
        !ifaces.insert_order[i].1.userspace(),
        ifaces.are_pending_well(pending),
        ifaces.are_listed_before(pending, i),
        is_unsettled(ifaces.find(ifaces.insert_order[i].0, ifaces.insert_order[i].1)),
        ifaces.port_place(
            ifaces.find(ifaces.insert_order[i].0, ifaces.insert_order[i].1)->0,
            pending,
        ) == Ok::<Place, NipartErrorView>(Place::After(priority)),
        forall|name: Seq<char>|
            (#[trigger] keymap::lookup(pending, name)) is Some ==> waits_for_controller(
                keymap::lookup(ifaces.kernel_ifaces, name)->0,
            ),
    ensures
        ({
            let next = keymap::inserted(pending, ifaces.insert_order[i].0, priority);
            &&& ifaces.are_pending_well(next)
            &&& ifaces.are_listed_before(next, i + 1)
            &&& ifaces.are_placed_before(pending, i) ==> ifaces.are_placed_before(next, i + 1)
            &&& forall|name: Seq<char>|
                (#[trigger] keymap::lookup(next, name)) is Some ==> waits_for_controller(
                    keymap::lookup(ifaces.kernel_ifaces, name)->0,
                )
        }),
{
    let (name, iface_type) = ifaces.insert_order[i];
    let iface = ifaces.find(name, iface_type)->0;
    let base = iface.for_apply->0.base;
    let next = keymap::inserted(pending, name, priority);
    let controller = base.controller->0;
    assert(keymap::lookup(pending, name) is None) by {
        if keymap::lookup(pending, name) is Some {
            let k = choose|k: int|
                0 <= k < i && k < ifaces.insert_order.len() && !(
                #[trigger] ifaces.insert_order[k]).1.userspace() && ifaces.insert_order[k].0
                    == name;
            assert(ifaces.insert_order[k].0 != ifaces.insert_order[i].0);
        }
    }
    lemma_pending_within(pending, controller, bound + i);
    lemma_found_within(ifaces, controller, base.controller_type->0, bound);
    assert forall|other: Seq<char>| (#[trigger] keymap::lookup(next, other)) is Some implies {
        &&& ifaces.is_pending_well(next, other)
        &&& waits_for_controller(keymap::lookup(ifaces.kernel_ifaces, other)->0)
        &&& exists|k: int|
            0 <= k < i + 1 && k < ifaces.insert_order.len() && !(
            #[trigger] ifaces.insert_order[k]).1.userspace() && ifaces.insert_order[k].0 == other
    } by {
        keymap::law_inserted(pending, name, priority, other);
        keymap::law_inserted(pending, name, priority, controller);
        if other == name {
            assert(ifaces.insert_order[i].0 == other);
        } else {
            assert(keymap::lookup(pending, other) is Some);
            assert(ifaces.is_pending_well(pending, other));
            let waited = keymap::lookup(
                ifaces.kernel_ifaces,
                other,
            )->0.for_apply->0.base.controller->0;
            keymap::law_inserted(pending, name, priority, waited);
            let k = choose|k: int|
                0 <= k < i && k < ifaces.insert_order.len() && !(
                #[trigger] ifaces.insert_order[k]).1.userspace() && ifaces.insert_order[k].0
                    == other;
            assert(ifaces.insert_order[k].0 == other);
        }
    }
    keymap::law_inserted(pending, name, priority, name);
    if ifaces.are_placed_before(pending, i) {
        assert forall|k: int|
            0 <= k < i + 1 && k < ifaces.insert_order.len() && !(
            #[trigger] ifaces.insert_order[k]).1.userspace() && is_unsettled(
                ifaces.find(ifaces.insert_order[k].0, ifaces.insert_order[k].1),
            ) && waits_for_controller(
                ifaces.find(ifaces.insert_order[k].0, ifaces.insert_order[k].1)->0,
            ) implies keymap::lookup(next, ifaces.insert_order[k].0) is Some by {
            keymap::law_inserted(pending, name, priority, ifaces.insert_order[k].0);
        }
    }
}

/// Placing the interfaces that run on others moves no port.
proof fn lemma_children_placed_well(
    ifaces: MergedInterfacesView,
    i: int,
    pending: Seq<(Seq<char>, u32)>,
    bound: int,
)
    requires
        ifaces.is_plain(),
        ifaces.priorities_within(bound),
        0 <= i <= ifaces.insert_order.len(),
        0 <= bound,
        bound + ifaces.insert_order.len() <= u32::MAX,
        pending_within(pending, bound + i),
        ifaces.are_pending_well(pending),
    ensures
        ({
            let places = ifaces.children_placed_from(i, pending);
            &&& ifaces.are_pending_well(places)
            &&& pending_within(places, bound + ifaces.insert_order.len())
            &&& forall|name: Seq<char>|
                (#[trigger] keymap::lookup(pending, name)) is Some ==> keymap::lookup(
                    places,
                    name,
                ) is Some
        }),
    decreases ifaces.insert_order.len() - i,
{
    if i < ifaces.insert_order.len() {
        let (name, iface_type) = ifaces.insert_order[i];
        let iface = ifaces.find(name, iface_type);
        if iface_type.userspace() {
            lemma_user_settled(ifaces, name, iface_type);
        }
        if !is_unsettled(iface) {
            lemma_children_placed_well(ifaces, i + 1, pending, bound);
        } else {
            match ifaces.child_place(iface->0, pending) {
                Place::After(priority) => {
                    let next = keymap::inserted(pending, name, priority);
                    assert(ifaces.priorities_within(bound + i));
                    lemma_child_place_within(ifaces, iface->0, pending, bound + i);
                    lemma_inserted_within(pending, name, priority, bound + i);
                    assert(keymap::lookup(ifaces.kernel_ifaces, name) == iface);
                    assert(!iface->0.for_apply->0.base.has_controller());
                    keymap::law_inserted(pending, name, priority, name);
                    assert forall|other: Seq<char>|
                        (#[trigger] keymap::lookup(next, other)) is Some implies
                        ifaces.is_pending_well(next, other) by {
                        keymap::law_inserted(pending, name, priority, other);
                        if other != name {
                            assert(keymap::lookup(pending, other) is Some);
                            assert(ifaces.is_pending_well(pending, other));
                            let base = keymap::lookup(
                                ifaces.kernel_ifaces,
                                other,
                            )->0.for_apply->0.base;
                            let waited = base.controller->0;
                            keymap::law_inserted(pending, name, priority, waited);
                            if waited == name && keymap::lookup(pending, waited) is Some {
                                assert(ifaces.is_pending_well(pending, waited));
                            }
                        }
                    }
                    assert forall|other: Seq<char>|
                        (#[trigger] keymap::lookup(pending, other)) is Some implies keymap::lookup(
                        next,
                        other,
                    ) is Some by {
                        keymap::law_inserted(pending, name, priority, other);
                    }
                    lemma_children_placed_well(ifaces, i + 1, next, bound);
                },
                _ => {
                    lemma_children_placed_well(ifaces, i + 1, pending, bound);
                },
            }
        }
    }
}

/// The interface with a pending place, if there is one.
pub open spec fn with_place(
    iface: MergedInterfaceView,
    pending: Seq<(Seq<char>, u32)>,
    name: Seq<char>,
) -> MergedInterfaceView {
    match keymap::lookup(pending, name) {
        Some(priority) => MergedInterfaceView { up_priority: Some(priority), ..iface },
        None => iface,
    }
}

/// Setting the pending places from `i` on gives each interface its own, and
/// changes nothing else.
proof fn lemma_places_set(
    ifaces: MergedInterfacesView,
    pending: Seq<(Seq<char>, u32)>,
    i: int,
    name: Seq<char>,
)
    requires
        keymap::unique(pending),
        0 <= i <= pending.len(),
    ensures
        ({
            let next = ifaces.with_priorities_from(pending, i);
            &&& next.insert_order == ifaces.insert_order
            &&& next.user_ifaces == ifaces.user_ifaces
            &&& keymap::lookup(next.kernel_ifaces, name) == match keymap::lookup(
                ifaces.kernel_ifaces,
                name,
            ) {
                Some(iface) => Some(
                    if keymap::entry(pending, name) >= i {
                        with_place(iface, pending, name)
                    } else {
                        iface
                    },
                ),
                None => None,
            }
        }),
    decreases pending.len() - i,
{
    keymap::lemma_entry_from(pending, name, 0);
    if i < pending.len() {
        let key = pending[i].0;
        keymap::lemma_entry_is(pending, key, i, 0);
        match keymap::lookup(ifaces.kernel_ifaces, key) {
            Some(iface) => {
                let placed = MergedInterfaceView { up_priority: Some(pending[i].1), ..iface };
                let next = MergedInterfacesView {
                    kernel_ifaces: keymap::inserted(ifaces.kernel_ifaces, key, placed),
                    ..ifaces
                };
                keymap::law_inserted(ifaces.kernel_ifaces, key, placed, name);
                lemma_places_set(next, pending, i + 1, name);
            },
            None => {
                lemma_places_set(ifaces, pending, i + 1, name);
            },
        }
    }
}

/// Setting places that are as they should be leaves every interface that has a
/// place after its controller.
proof fn lemma_places_well(
    ifaces: MergedInterfacesView,
    pending: Seq<(Seq<char>, u32)>,
)
    requires
        ifaces.is_plain(),
        ifaces.is_ranked_well(),
        ifaces.are_pending_well(pending),
    ensures
        ifaces.with_priorities_from(pending, 0).is_plain(),
        ifaces.with_priorities_from(pending, 0).is_ranked_well(),
{
    let next = ifaces.with_priorities_from(pending, 0);
    lemma_places_set(ifaces, pending, 0, Seq::empty());
    assert forall|name: Seq<char>| #[trigger] keymap::has(next.kernel_ifaces, name) implies
        ifaces::is_kernel_listed(next.insert_order, name) by {
        lemma_places_set(ifaces, pending, 0, name);
        assert(keymap::lookup(next.kernel_ifaces, name) is Some);
        assert(keymap::has(ifaces.kernel_ifaces, name));
    }
    assert forall|name: Seq<char>|
        (#[trigger] keymap::lookup(next.kernel_ifaces, name)) is Some implies {
        let iface = keymap::lookup(next.kernel_ifaces, name)->0;
        &&& iface.for_apply is Some && iface.for_apply->0.base.has_controller()
            ==> iface.for_apply->0.parent is None
        &&& waits_for_controller(iface) && iface.up_priority is Some ==> next.is_after_controller(
            iface,
        )
    } by {
        lemma_places_set(ifaces, pending, 0, name);
        keymap::lemma_entry_from(pending, name, 0);
        let before = keymap::lookup(ifaces.kernel_ifaces, name)->0;
        let iface = keymap::lookup(next.kernel_ifaces, name)->0;
        assert(iface == with_place(before, pending, name));
        if waits_for_controller(iface) && iface.up_priority is Some {
            let base = iface.for_apply->0.base;
            let controller = base.controller->0;
            if keymap::lookup(pending, name) is Some {
                assert(ifaces.is_pending_well(pending, name));
            }
            if base.controller_type->0.userspace() {
                lemma_user_settled(ifaces, controller, base.controller_type->0);
            } else {
                lemma_places_set(ifaces, pending, 0, controller);
                keymap::lemma_entry_from(pending, controller, 0);
                if keymap::lookup(pending, controller) is Some {
                    assert(ifaces.is_pending_well(pending, controller));
                }
            }
        }
    }
}

/// One try to set the priorities leaves every interface that has a place after
/// its controller; when all are set, every port has a place.
proof fn lemma_tried_well(ifaces: MergedInterfacesView, bound: int)
    requires
        ifaces.is_plain(),
        ifaces.is_ranked_well(),
        ifaces.priorities_within(bound),
        bound + 2 * ifaces.insert_order.len() <= u32::MAX,
    ensures
        match ifaces.priorities_tried() {
            Ok((next, all)) => {
                &&& next.is_plain()
                &&& next.is_ranked_well()
                &&& next.insert_order == ifaces.insert_order
                &&& next.priorities_within(bound + 2 * ifaces.insert_order.len())
                &&& all ==> forall|name: Seq<char>|
                    (#[trigger] keymap::lookup(next.kernel_ifaces, name)) is Some
                        && waits_for_controller(keymap::lookup(next.kernel_ifaces, name)->0)
                        ==> keymap::lookup(next.kernel_ifaces, name)->0.up_priority is Some
            },
            Err(_) => true,
        },
{
    let n = ifaces.insert_order.len();
    let none = Seq::<(Seq<char>, u32)>::empty();
    lemma_ports_placed_well(ifaces, 0, none, true, bound);
    if let Ok((ports, all)) = ifaces.ports_placed_from(0, none, true) {
        assert(ifaces.priorities_within(bound + n));
        if all {
            lemma_children_placed_well(ifaces, 0, ports, bound + n);
        }
        let pending = if all {
            ifaces.children_placed_from(0, ports)
        } else {
            ports
        };
        lemma_places_well(ifaces, pending);
        let next = ifaces.with_priorities_from(pending, 0);
        lemma_places_set(ifaces, pending, 0, Seq::empty());
        lemma_set_all_within(ifaces, pending, 0, bound + 2 * n);
        if all {
            assert forall|name: Seq<char>|
                (#[trigger] keymap::lookup(next.kernel_ifaces, name)) is Some
                    && waits_for_controller(
                    keymap::lookup(next.kernel_ifaces, name)->0,
                ) implies keymap::lookup(next.kernel_ifaces, name)->0.up_priority is Some by {
                lemma_places_set(ifaces, pending, 0, name);
                keymap::lemma_entry_from(pending, name, 0);
                assert(keymap::has(ifaces.kernel_ifaces, name));
                let before = keymap::lookup(ifaces.kernel_ifaces, name)->0;
                let k = choose|k: int|
                    0 <= k < ifaces.insert_order.len() && !(
                    #[trigger] ifaces.insert_order[k]).1.userspace() && ifaces.insert_order[k].0
                        == name;
                assert(ifaces.find(ifaces.insert_order[k].0, ifaces.insert_order[k].1) == Some(
                    before,
                ));
                if before.up_priority is None {
                    assert(is_unsettled(Some(before)));
                    assert(keymap::lookup(ports, name) is Some);
                    assert(keymap::lookup(pending, name) is Some);
                }
            }
        }
    }
}

/// Setting places within the bound keeps the bound.
proof fn lemma_set_all_within(
    ifaces: MergedInterfacesView,
    pending: Seq<(Seq<char>, u32)>,
    i: int,
    bound: int,
)
    requires
        ifaces.priorities_within(bound),
        pending_within(pending, bound),
        0 <= i,
    ensures
        ifaces.with_priorities_from(pending, i).priorities_within(bound),
    decreases pending.len() - i,
{
    if i < pending.len() {
        assert(pending[i].1 <= bound);
        match keymap::lookup(ifaces.kernel_ifaces, pending[i].0) {
            Some(iface) => {
                let placed = MergedInterfaceView { up_priority: Some(pending[i].1), ..iface };
                let next = MergedInterfacesView {
                    kernel_ifaces: keymap::inserted(ifaces.kernel_ifaces, pending[i].0, placed),
                    ..ifaces
                };
                lemma_set_within(ifaces, next, pending[i].0, placed, bound);
                lemma_set_all_within(next, pending, i + 1, bound);
            },
            None => {
                lemma_set_all_within(ifaces, pending, i + 1, bound);
            },
        }
    }
}

/// Repeated tries leave every port after its controller.
proof fn lemma_prioritized_well(ifaces: MergedInterfacesView, tries: nat, bound: int)
    requires
        ifaces.is_plain(),
        ifaces.is_ranked_well(),
        ifaces.priorities_within(bound),
        bound + 2 * tries * ifaces.insert_order.len() <= u32::MAX,
    ensures
        match ifaces.prioritized(tries) {
            Ok(next) => {
                &&& next.is_ranked_well()
                &&& forall|name: Seq<char>|
                    (#[trigger] keymap::lookup(next.kernel_ifaces, name)) is Some
                        && waits_for_controller(keymap::lookup(next.kernel_ifaces, name)->0)
                        ==> keymap::lookup(next.kernel_ifaces, name)->0.up_priority is Some
            },
            Err(_) => true,
        },
    decreases tries,
{
    if tries > 0 {
        let n = ifaces.insert_order.len();
        assert(2 * tries * n == 2 * (tries - 1) * n + 2 * n && 2 * (tries - 1) * n >= 0)
            by (nonlinear_arith)
            requires
                tries > 0,
        ;
        lemma_tried_well(ifaces, bound);
        if let Ok((next, false)) = ifaces.priorities_tried() {
            lemma_prioritized_well(next, (tries - 1) as nat, bound + 2 * n);
        }
    }
}

/// Every port is brought up after its controller: after the priorities are
/// set, an interface to bring up that has a controller has a priority, and a
/// greater one than its controller. No interface may wait for both a
/// controller and an interface that it runs on.
pub proof fn law_port_after_controller(
    ifaces: MergedInterfacesView,
    tries: nat,
    name: Seq<char>,
)
    requires
        ifaces.is_plain(),
        ifaces.priorities_within(0),
        forall|name: Seq<char>|
            (#[trigger] keymap::lookup(ifaces.kernel_ifaces, name)) is Some ==> keymap::lookup(
                ifaces.kernel_ifaces,
                name,
            )->0.up_priority is None,
        2 * tries * ifaces.insert_order.len() <= u32::MAX,
    ensures
        match ifaces.prioritized(tries) {
            Ok(next) => match keymap::lookup(next.kernel_ifaces, name) {
                Some(iface) => waits_for_controller(iface) ==> next.is_after_controller(iface),
                None => true,
            },
            Err(_) => true,
        },
{
    lemma_prioritized_well(ifaces, tries, 0);
}

impl MergedInterfacesView {
    /// Whether every interface of the kernel stands in the order, and those that
    /// the kernel does not have wait for none.
    pub open spec fn is_listed(self) -> bool {
        &&& forall|name: Seq<char>|
            #[trigger] keymap::has(self.kernel_ifaces, name) ==> ifaces::is_kernel_listed(
                self.insert_order,
                name,
            )
        &&& forall|i: int|
            0 <= i < self.user_ifaces.len() ==> (#[trigger] self.user_ifaces[i]).1.priority_settled()
    }

    /// Whether at most `depth` controllers, each a port of the next, lie between
    /// the interface and one whose place is settled.
    pub open spec fn is_nested(self, name: Seq<char>, iface_type: InterfaceType, depth: nat) -> bool
        decreases depth,
    {
        match self.find(name, iface_type) {
            None => false,
            Some(iface) => {
                ||| iface.priority_settled()
                ||| depth > 0 && waits_for_controller(iface)
                    && iface.for_apply->0.base.controller_type is Some && self.is_nested(
                    iface.for_apply->0.base.controller->0,
                    iface.for_apply->0.base.controller_type->0,
                    (depth - 1) as nat,
                )
            },
        }
    }

    /// Whether no port without a place is nested deeper.
    pub open spec fn are_nested(self, depth: nat) -> bool {
        forall|i: int|
            0 <= i < self.insert_order.len() && is_unsettled(
                self.find((#[trigger] self.insert_order[i]).0, self.insert_order[i].1),
            ) && self.find(
                self.insert_order[i].0,
                self.insert_order[i].1,
            )->0.for_apply->0.base.has_controller() ==> self.is_nested(
                self.insert_order[i].0,
                self.insert_order[i].1,
                depth,
            )
    }

    /// Whether the place of the controller of a port is settled.
    pub open spec fn is_controller_settled(self, port: MergedInterfaceView) -> bool {
        let base = port.for_apply->0.base;
        &&& base.controller_type is Some
        &&& self.find(base.controller->0, base.controller_type->0) is Some
        &&& self.find(base.controller->0, base.controller_type->0)->0.priority_settled()
    }

    /// Whether every port in the order from `i` on whose controller has a place
    /// has a pending one.
    pub open spec fn are_next_placed(self, pending: Seq<(Seq<char>, u32)>, i: int) -> bool {
        forall|k: int|
            0 <= i <= k < self.insert_order.len() && is_unsettled(
                self.find((#[trigger] self.insert_order[k]).0, self.insert_order[k].1),
            ) && waits_for_controller(
                self.find(self.insert_order[k].0, self.insert_order[k].1)->0,
            ) && self.is_controller_settled(
                self.find(self.insert_order[k].0, self.insert_order[k].1)->0,
            ) ==> keymap::lookup(pending, self.insert_order[k].0) is Some
    }
}

/// One try gives a place to every port whose controller has one, and is the
/// last one when that holds of all.
proof fn lemma_next_placed(
    ifaces: MergedInterfacesView,
    i: int,
    pending: Seq<(Seq<char>, u32)>,
    all: bool,
    depth: nat,
)
    requires
        0 <= i <= ifaces.insert_order.len(),
        keymap::unique(pending),
        ifaces.are_nested(depth),
    ensures
        ifaces.ports_placed_from(i, pending, all) is Ok,
        ({
            let (places, known) = ifaces.ports_placed_from(i, pending, all)->Ok_0;
            &&& keymap::unique(places)
            &&& forall|name: Seq<char>|
                (#[trigger] keymap::lookup(pending, name)) is Some ==> keymap::lookup(
                    places,
                    name,
                ) is Some
            &&& ifaces.are_next_placed(places, i)
            &&& all && depth <= 1 ==> known
        }),
    decreases ifaces.insert_order.len() - i,
{
    if i < ifaces.insert_order.len() {
        let (name, iface_type) = ifaces.insert_order[i];
        let iface = ifaces.find(name, iface_type);
        let (next, still) = if !is_unsettled(iface) {
            (pending, all)
        } else {
            let base = iface->0.for_apply->0.base;
            if base.has_controller() {
                assert(ifaces.is_nested(name, iface_type, depth));
                assert(ifaces.is_nested(
                    base.controller->0,
                    base.controller_type->0,
                    (depth - 1) as nat,
                ));
            }
            match ifaces.port_place(iface->0, pending)->Ok_0 {
                Place::Free => (pending, all),
                Place::Unknown => (pending, false),
                Place::After(priority) => (keymap::inserted(pending, name, priority), all),
            }
        };
        assert forall|other: Seq<char>| (#[trigger] keymap::lookup(pending, other)) is Some
            implies keymap::lookup(next, other) is Some by {
            if let Ok(Place::After(priority)) = ifaces.port_place(iface->0, pending) {
                keymap::law_inserted(pending, name, priority, other);
            }
        }
        if let Ok(Place::After(priority)) = ifaces.port_place(iface->0, pending) {
            keymap::law_inserted(pending, name, priority, name);
        }
        lemma_next_placed(ifaces, i + 1, next, still, depth);
        let places = ifaces.ports_placed_from(i, pending, all)->Ok_0.0;
        assert forall|k: int|
            0 <= i <= k < ifaces.insert_order.len() && is_unsettled(
                ifaces.find((#[trigger] ifaces.insert_order[k]).0, ifaces.insert_order[k].1),
            ) && waits_for_controller(
                ifaces.find(ifaces.insert_order[k].0, ifaces.insert_order[k].1)->0,
            ) && ifaces.is_controller_settled(
                ifaces.find(ifaces.insert_order[k].0, ifaces.insert_order[k].1)->0,
            ) implies keymap::lookup(places, ifaces.insert_order[k].0) is Some by {
            if k == i {
                assert(keymap::lookup(next, name) is Some);
            }
        }
    }
}

/// One try brings every port one level closer to an interface whose place is
/// settled.
proof fn lemma_nested_less(
    ifaces: MergedInterfacesView,
    pending: Seq<(Seq<char>, u32)>,
    name: Seq<char>,
    iface_type: InterfaceType,
    depth: nat,
)
    requires
        ifaces.is_listed(),
        keymap::unique(pending),
        ifaces.are_next_placed(pending, 0),
        depth > 0,
        ifaces.is_nested(name, iface_type, depth),
    ensures
        ifaces.with_priorities_from(pending, 0).is_nested(
            name,
            iface_type,
            (depth - 1) as nat,
        ),
    decreases depth,
{
    reveal_with_fuel(MergedInterfacesView::is_nested, 2);
    let next = ifaces.with_priorities_from(pending, 0);
    let iface = ifaces.find(name, iface_type)->0;
    lemma_places_set(ifaces, pending, 0, name);
    keymap::lemma_entry_from(pending, name, 0);
    keymap::lemma_entry_from(ifaces.user_ifaces, (name, iface_type), 0);
    if iface_type.userspace() {
        let k = keymap::entry(ifaces.user_ifaces, (name, iface_type));
        assert(ifaces.user_ifaces[k].1.priority_settled());
        assert(next.find(name, iface_type) == Some(iface));
    } else {
        assert(next.find(name, iface_type) == Some(with_place(iface, pending, name)));
        if !iface.priority_settled() {
            let base = iface.for_apply->0.base;
            let controller = base.controller->0;
            if ifaces.is_controller_settled(iface) {
                assert(keymap::has(ifaces.kernel_ifaces, name));
                let k = choose|k: int|
                    0 <= k < ifaces.insert_order.len() && !(
                    #[trigger] ifaces.insert_order[k]).1.userspace() && ifaces.insert_order[k].0
                        == name;
                assert(ifaces.find(ifaces.insert_order[k].0, ifaces.insert_order[k].1) == Some(
                    iface,
                ));
                assert(keymap::lookup(pending, name) is Some);
            } else {
                lemma_nested_less(
                    ifaces,
                    pending,
                    controller,
                    base.controller_type->0,
                    (depth - 1) as nat,
                );
            }
        }
    }
}

/// Interfaces of as many nested levels as there are tries are brought up in any
/// order: a place is found for all of them.
pub proof fn law_nested_levels(ifaces: MergedInterfacesView, tries: nat)
    requires
        tries > 0,
        ifaces.is_listed(),
        ifaces.are_nested(tries),
    ensures
        ifaces.prioritized(tries) is Ok,
    decreases tries,
{
    let none = Seq::<(Seq<char>, u32)>::empty();
    lemma_next_placed(ifaces, 0, none, true, tries);
    let (pending, all) = ifaces.ports_placed_from(0, none, true)->Ok_0;
    if !all {
        let next = ifaces.with_priorities_from(pending, 0);
        let less = (tries - 1) as nat;
        lemma_places_set(ifaces, pending, 0, Seq::empty());
        assert forall|name: Seq<char>| #[trigger] keymap::has(next.kernel_ifaces, name) implies
            ifaces::is_kernel_listed(next.insert_order, name) by {
            lemma_places_set(ifaces, pending, 0, name);
            assert(keymap::lookup(next.kernel_ifaces, name) is Some);
            assert(keymap::has(ifaces.kernel_ifaces, name));
        }
        assert forall|i: int|
            0 <= i < next.insert_order.len() && is_unsettled(
                next.find((#[trigger] next.insert_order[i]).0, next.insert_order[i].1),
            ) && next.find(
                next.insert_order[i].0,
                next.insert_order[i].1,
            )->0.for_apply->0.base.has_controller() implies next.is_nested(
            next.insert_order[i].0,
            next.insert_order[i].1,
            less,
        ) by {
            let (name, iface_type) = ifaces.insert_order[i];
            lemma_places_set(ifaces, pending, 0, name);
            keymap::lemma_entry_from(pending, name, 0);
            assert(is_unsettled(ifaces.find(name, iface_type)));
            assert(ifaces.is_nested(name, iface_type, tries));
            lemma_nested_less(ifaces, pending, name, iface_type, tries);
        }
        law_nested_levels(next, less);
    }
}

/// Whether the interface is one to bring up that runs on another one.
pub open spec fn runs_on_another(iface: MergedInterfaceView) -> bool {
    &&& iface.for_apply is Some
    &&& iface.for_apply->0.base.state is Up
    &&& iface.for_apply->0.parent is Some
}

impl MergedInterfacesView {
    /// Whether one interface of the kernel stands in the order before another.
    pub open spec fn stands_before(self, first: Seq<char>, second: Seq<char>) -> bool {
        exists|i: int, j: int|
            0 <= i < j < self.insert_order.len() && !(
            #[trigger] self.insert_order[i]).1.userspace() && !(
            #[trigger] self.insert_order[j]).1.userspace() && self.insert_order[i].0 == first
                && self.insert_order[j].0 == second
    }

    /// Whether the chain of interfaces that each run on the next ends within
    /// `depth` steps, at one that waits for none or for its controller only,
    /// and each one that runs on another stands in the order before those that
    /// run on it.
    pub open spec fn is_founded(self, name: Seq<char>, depth: nat) -> bool
        decreases depth,
    {
        match keymap::lookup(self.kernel_ifaces, name) {
            None => false,
            Some(iface) => if runs_on_another(iface) {
                let parent = iface.for_apply->0.parent->0;
                let base = keymap::lookup(self.kernel_ifaces, parent);
                &&& depth > 0
                &&& self.is_founded(parent, (depth - 1) as nat)
                &&& base is Some && runs_on_another(base->0) ==> self.stands_before(parent, name)
            } else {
                ||| iface.for_apply is None
                ||| iface.for_apply->0.parent is None && !iface.for_apply->0.base.has_controller()
                ||| waits_for_controller(iface)
            },
        }
    }

    /// Whether the chain of interfaces that each run on the next ends.
    pub open spec fn has_footing(self, name: Seq<char>) -> bool {
        exists|depth: nat| #[trigger] self.is_founded(name, depth)
    }

    /// Whether no interface that runs on another has a place yet.
    pub open spec fn are_children_free(self) -> bool {
        forall|name: Seq<char>|
            (#[trigger] keymap::lookup(self.kernel_ifaces, name)) is Some && runs_on_another(
                keymap::lookup(self.kernel_ifaces, name)->0,
            ) ==> keymap::lookup(self.kernel_ifaces, name)->0.up_priority is None
    }

    /// Whether the pending place of an interface is after that of the one that
    /// it runs on.
    pub open spec fn is_child_placed(
        self,
        pending: Seq<(Seq<char>, u32)>,
        name: Seq<char>,
    ) -> bool {
        let parent = keymap::lookup(self.kernel_ifaces, name)->0.for_apply->0.parent->0;
        let base = keymap::lookup(self.kernel_ifaces, parent);
        &&& keymap::lookup(pending, name) is Some
        &&& base is Some
        &&& match keymap::lookup(pending, parent) {
            Some(priority) => keymap::lookup(pending, name)->0 > priority,
            None => base->0.priority_settled() && keymap::lookup(pending, name)->0
                > base->0.up_priority.unwrap_or(0),
        }
    }

    /// Whether the interfaces in the order before `i` that run on others have
    /// their pending places.
    pub open spec fn are_children_placed(self, pending: Seq<(Seq<char>, u32)>, i: int) -> bool {
        forall|k: int|
            0 <= k < i && k < self.insert_order.len() && !(
            #[trigger] self.insert_order[k]).1.userspace() && keymap::lookup(
                self.kernel_ifaces,
                self.insert_order[k].0,
            ) is Some && runs_on_another(
                keymap::lookup(self.kernel_ifaces, self.insert_order[k].0)->0,
            ) && self.has_footing(self.insert_order[k].0) ==> self.is_child_placed(
                pending,
                self.insert_order[k].0,
            )
    }

    /// Whether every port without a place has a pending one.
    pub open spec fn are_ports_pending(self, pending: Seq<(Seq<char>, u32)>) -> bool {
        forall|name: Seq<char>|
            (#[trigger] keymap::lookup(self.kernel_ifaces, name)) is Some && waits_for_controller(
                keymap::lookup(self.kernel_ifaces, name)->0,
            ) && keymap::lookup(self.kernel_ifaces, name)->0.up_priority is None
                ==> keymap::lookup(pending, name) is Some
    }
}

/// An interface with a footing runs on one that has a footing.
proof fn lemma_footing(ifaces: MergedInterfacesView, name: Seq<char>)
    requires
        ifaces.has_footing(name),
    ensures
        keymap::lookup(ifaces.kernel_ifaces, name) is Some,
        ({
            let iface = keymap::lookup(ifaces.kernel_ifaces, name)->0;
            let parent = iface.for_apply->0.parent->0;
            let base = keymap::lookup(ifaces.kernel_ifaces, parent);
            &&& runs_on_another(iface) ==> {
                &&& ifaces.has_footing(parent)
                &&& base is Some
                &&& runs_on_another(base->0) ==> ifaces.stands_before(parent, name)
            }
            &&& !runs_on_another(iface) ==> iface.priority_settled() || waits_for_controller(iface)
        }),
{
    let depth = choose|depth: nat| #[trigger] ifaces.is_founded(name, depth);
    assert(ifaces.is_founded(name, depth));
    let iface = keymap::lookup(ifaces.kernel_ifaces, name)->0;
    if runs_on_another(iface) {
        let parent = iface.for_apply->0.parent->0;
        assert(ifaces.is_founded(parent, (depth - 1) as nat));
        reveal_with_fuel(MergedInterfacesView::is_founded, 2);
    }
}

/// The interface at a place in the order stands in no other place.
proof fn lemma_one_place(ifaces: MergedInterfacesView, i: int, name: Seq<char>)
    requires
        ifaces.is_plain(),
        0 <= i < ifaces.insert_order.len(),
        !ifaces.insert_order[i].1.userspace(),
    ensures
        ifaces.stands_before(name, ifaces.insert_order[i].0) ==> exists|k: int|
            0 <= k < i && !(#[trigger] ifaces.insert_order[k]).1.userspace()
                && ifaces.insert_order[k].0 == name,
{
    let own = ifaces.insert_order[i].0;
    if ifaces.stands_before(name, own) {
        let (k, j) = choose|k: int, j: int|
            0 <= k < j < ifaces.insert_order.len() && !(
            #[trigger] ifaces.insert_order[k]).1.userspace() && !(
            #[trigger] ifaces.insert_order[j]).1.userspace() && ifaces.insert_order[k].0 == name
                && ifaces.insert_order[j].0 == own;
        if j < i {
            assert(ifaces.insert_order[j].0 != ifaces.insert_order[i].0);
        } else if i < j {
            assert(ifaces.insert_order[i].0 != ifaces.insert_order[j].0);
        }
        assert(0 <= k < i);
    }
}

/// The interfaces that run on others get places after them.
proof fn lemma_children_after(
    ifaces: MergedInterfacesView,
    i: int,
    pending: Seq<(Seq<char>, u32)>,
    bound: int,
)
    requires
        ifaces.is_plain(),
        ifaces.are_children_free(),
        ifaces.priorities_within(bound),
        0 <= i <= ifaces.insert_order.len(),
        0 <= bound,
        bound + ifaces.insert_order.len() <= u32::MAX,
        pending_within(pending, bound + i),
        keymap::unique(pending),
        ifaces.are_children_placed(pending, i),
        ifaces.are_ports_pending(pending),
    ensures
        ({
            let places = ifaces.children_placed_from(i, pending);
            &&& keymap::unique(places)
            &&& ifaces.are_children_placed(places, ifaces.insert_order.len() as int)
        }),
    decreases ifaces.insert_order.len() - i,
{
    if i < ifaces.insert_order.len() {
        let (name, iface_type) = ifaces.insert_order[i];
        let found = ifaces.find(name, iface_type);
        if iface_type.userspace() {
            lemma_user_settled(ifaces, name, iface_type);
        }
        if !is_unsettled(found) {
            assert(ifaces.are_children_placed(pending, i + 1));
            lemma_children_after(ifaces, i + 1, pending, bound);
        } else {
            assert(ifaces.priorities_within(bound + i));
            lemma_child_place_within(ifaces, found->0, pending, bound + i);
            match ifaces.child_place(found->0, pending) {
                Place::After(priority) => {
                    let next = keymap::inserted(pending, name, priority);
                    lemma_inserted_within(pending, name, priority, bound + i);
                    lemma_child_added(ifaces, i, pending, priority, bound);
                    lemma_children_after(ifaces, i + 1, next, bound);
                },
                _ => {
                    if runs_on_another(found->0) && ifaces.has_footing(name) {
                        lemma_parent_known(ifaces, i, pending);
                    }
                    assert(ifaces.are_children_placed(pending, i + 1));
                    lemma_children_after(ifaces, i + 1, pending, bound);
                },
            }
        }
    }
}

/// The one that an interface with a footing runs on has its place when the
/// interface is reached.
proof fn lemma_parent_known(
    ifaces: MergedInterfacesView,
    i: int,
    pending: Seq<(Seq<char>, u32)>,
)
    requires
        ifaces.is_plain(),
        0 <= i < ifaces.insert_order.len(),
        !ifaces.insert_order[i].1.userspace(),
        ifaces.are_children_placed(pending, i),
        ifaces.are_ports_pending(pending),
        keymap::lookup(ifaces.kernel_ifaces, ifaces.insert_order[i].0) is Some,
        runs_on_another(keymap::lookup(ifaces.kernel_ifaces, ifaces.insert_order[i].0)->0),
        ifaces.has_footing(ifaces.insert_order[i].0),
    ensures
        ifaces.child_place(
            keymap::lookup(ifaces.kernel_ifaces, ifaces.insert_order[i].0)->0,
            pending,
        ) is After,
{
    let name = ifaces.insert_order[i].0;
    let iface = keymap::lookup(ifaces.kernel_ifaces, name)->0;
    let parent = iface.for_apply->0.parent->0;
    lemma_footing(ifaces, name);
    lemma_footing(ifaces, parent);
    let base = keymap::lookup(ifaces.kernel_ifaces, parent)->0;
    if runs_on_another(base) {
        lemma_one_place(ifaces, i, parent);
        let k = choose|k: int|
            0 <= k < i && !(#[trigger] ifaces.insert_order[k]).1.userspace()
                && ifaces.insert_order[k].0 == parent;
        assert(ifaces.is_child_placed(pending, ifaces.insert_order[k].0));
    }
}

/// One more place keeps the places of the interfaces that run on others.
proof fn lemma_child_added(
    ifaces: MergedInterfacesView,
    i: int,
    pending: Seq<(Seq<char>, u32)>,
    priority: u32,
    bound: int,
)
    requires
        ifaces.is_plain(),
        ifaces.priorities_within(bound),
        0 <= i < ifaces.insert_order.len(),
        0 <= bound,
        bound + ifaces.insert_order.len() <= u32::MAX,
        pending_within(pending, bound + i),
        keymap::unique(pending),
        !ifaces.insert_order[i].1.userspace(),
        keymap::lookup(ifaces.kernel_ifaces, ifaces.insert_order[i].0) is Some,
        is_unsettled(keymap::lookup(ifaces.kernel_ifaces, ifaces.insert_order[i].0)),
        ifaces.are_children_placed(pending, i),
        ifaces.are_ports_pending(pending),
        ifaces.child_place(
            keymap::lookup(ifaces.kernel_ifaces, ifaces.insert_order[i].0)->0,
            pending,
        ) == Place::After(priority),
    ensures
        ({
            let next = keymap::inserted(pending, ifaces.insert_order[i].0, priority);
            &&& keymap::unique(next)
            &&& ifaces.are_children_placed(next, i + 1)
            &&& ifaces.are_ports_pending(next)
        }),
{
    let name = ifaces.insert_order[i].0;
    let iface = keymap::lookup(ifaces.kernel_ifaces, name)->0;
    let next = keymap::inserted(pending, name, priority);
    keymap::law_inserted(pending, name, priority, name);
    assert(runs_on_another(iface));
    assert forall|other: Seq<char>|
        (#[trigger] keymap::lookup(ifaces.kernel_ifaces, other)) is Some && waits_for_controller(
            keymap::lookup(ifaces.kernel_ifaces, other)->0,
        ) && keymap::lookup(ifaces.kernel_ifaces, other)->0.up_priority is None implies
        keymap::lookup(next, other) is Some by {
        keymap::law_inserted(pending, name, priority, other);
    }
    assert forall|k: int|
        0 <= k < i + 1 && k < ifaces.insert_order.len() && !(
        #[trigger] ifaces.insert_order[k]).1.userspace() && keymap::lookup(
            ifaces.kernel_ifaces,
            ifaces.insert_order[k].0,
        ) is Some && runs_on_another(
            keymap::lookup(ifaces.kernel_ifaces, ifaces.insert_order[k].0)->0,
        ) && ifaces.has_footing(ifaces.insert_order[k].0) implies ifaces.is_child_placed(
        next,
        ifaces.insert_order[k].0,
    ) by {
        let other = ifaces.insert_order[k].0;
        let child = keymap::lookup(ifaces.kernel_ifaces, other)->0;
        let parent = child.for_apply->0.parent->0;
        let base = keymap::lookup(ifaces.kernel_ifaces, parent);
        lemma_footing(ifaces, other);
        lemma_one_place(ifaces, k, parent);
        keymap::law_inserted(pending, name, priority, other);
        keymap::law_inserted(pending, name, priority, parent);
        if parent == name {
            let m = choose|m: int|
                0 <= m < k && !(#[trigger] ifaces.insert_order[m]).1.userspace()
                    && ifaces.insert_order[m].0 == parent;
            assert(ifaces.insert_order[m].0 == ifaces.insert_order[i].0);
            if m < i {
                assert(ifaces.insert_order[m].0 != ifaces.insert_order[i].0);
            }
            assert(false);
        }
        if k < i {
            assert(ifaces.insert_order[k].0 != ifaces.insert_order[i].0);
            assert(ifaces.is_child_placed(pending, other));
        } else {
            lemma_pending_within(pending, parent, bound + i);
            lemma_found_within(ifaces, parent, InterfaceType::Ethernet, bound);
        }
    }
}

impl MergedInterfacesView {
    /// Whether the interface comes after the one that it runs on.
    pub open spec fn is_after_parent(self, iface: MergedInterfaceView) -> bool {
        let base = keymap::lookup(self.kernel_ifaces, iface.for_apply->0.parent->0);
        &&& iface.up_priority is Some
        &&& base is Some
        &&& iface.up_priority->0 > base->0.up_priority.unwrap_or(0)
    }
}

/// Whether two sets of interfaces are to be applied alike: they differ in
/// nothing but the priorities of those of the kernel and in which of them are
/// deleted first.
pub open spec fn is_applied_alike(a: MergedInterfacesView, b: MergedInterfacesView) -> bool {
    &&& a.insert_order == b.insert_order
    &&& a.user_ifaces == b.user_ifaces
    &&& forall|name: Seq<char>|
        {
            let x = #[trigger] keymap::lookup(a.kernel_ifaces, name);
            let y = #[trigger] keymap::lookup(b.kernel_ifaces, name);
            &&& x is Some == y is Some
            &&& x is Some ==> x->0.for_apply == y->0.for_apply
        }
}

/// A footing depends on what is applied only.
pub proof fn lemma_same_footing(
    a: MergedInterfacesView,
    b: MergedInterfacesView,
    name: Seq<char>,
    depth: nat,
)
    requires
        is_applied_alike(a, b),
        a.is_founded(name, depth),
    ensures
        b.is_founded(name, depth),
    decreases depth,
{
    let x = keymap::lookup(a.kernel_ifaces, name);
    let y = keymap::lookup(b.kernel_ifaces, name);
    assert(y is Some && x->0.for_apply == y->0.for_apply);
    if runs_on_another(x->0) {
        let parent = x->0.for_apply->0.parent->0;
        let p = keymap::lookup(a.kernel_ifaces, parent);
        let q = keymap::lookup(b.kernel_ifaces, parent);
        assert(p is Some == q is Some);
        lemma_same_footing(a, b, parent, (depth - 1) as nat);
        if a.stands_before(parent, name) {
            assert(b.stands_before(parent, name));
        }
    }
}

/// Setting places changes nothing of what is applied.
proof fn lemma_places_alike(ifaces: MergedInterfacesView, pending: Seq<(Seq<char>, u32)>)
    requires
        keymap::unique(pending),
    ensures
        is_applied_alike(ifaces, ifaces.with_priorities_from(pending, 0)),
{
    let next = ifaces.with_priorities_from(pending, 0);
    lemma_places_set(ifaces, pending, 0, Seq::empty());
    assert forall|name: Seq<char>| {
        let x = #[trigger] keymap::lookup(ifaces.kernel_ifaces, name);
        let y = #[trigger] keymap::lookup(next.kernel_ifaces, name);
        &&& x is Some == y is Some
        &&& x is Some ==> x->0.for_apply == y->0.for_apply
    } by {
        lemma_places_set(ifaces, pending, 0, name);
    }
}

/// Repeated tries leave every interface with a footing after the one that it
/// runs on.
proof fn lemma_prioritized_children(
    ifaces: MergedInterfacesView,
    tries: nat,
    bound: int,
    name: Seq<char>,
)
    requires
        ifaces.is_plain(),
        ifaces.is_ranked_well(),
        ifaces.are_children_free(),
        ifaces.priorities_within(bound),
        bound + 2 * tries * ifaces.insert_order.len() <= u32::MAX,
        ifaces.has_footing(name),
    ensures
        match ifaces.prioritized(tries) {
            Ok(next) => match keymap::lookup(next.kernel_ifaces, name) {
                Some(iface) => runs_on_another(iface) ==> next.is_after_parent(iface),
                None => false,
            },
            Err(_) => true,
        },
    decreases tries,
{
    if tries > 0 {
        let n = ifaces.insert_order.len();
        assert(2 * tries * n == 2 * (tries - 1) * n + 2 * n && 2 * (tries - 1) * n >= 0)
            by (nonlinear_arith)
            requires
                tries > 0,
        ;
        let none = Seq::<(Seq<char>, u32)>::empty();
        lemma_tried_well(ifaces, bound);
        lemma_ports_placed_well(ifaces, 0, none, true, bound);
        if let Ok((ports, all)) = ifaces.ports_placed_from(0, none, true) {
            if !all {
                let next = ifaces.with_priorities_from(ports, 0);
                let depth = choose|depth: nat| #[trigger] ifaces.is_founded(name, depth);
                lemma_places_alike(ifaces, ports);
                lemma_same_footing(ifaces, next, name, depth);
                assert forall|other: Seq<char>|
                    (#[trigger] keymap::lookup(next.kernel_ifaces, other)) is Some
                        && runs_on_another(
                        keymap::lookup(next.kernel_ifaces, other)->0,
                    ) implies keymap::lookup(next.kernel_ifaces, other)->0.up_priority is None by {
                    lemma_places_set(ifaces, ports, 0, other);
                    keymap::lemma_entry_from(ports, other, 0);
                    let before = keymap::lookup(ifaces.kernel_ifaces, other)->0;
                    if keymap::lookup(ports, other) is Some {
                        assert(waits_for_controller(before));
                        assert(before.for_apply->0.parent is None);
                    }
                }
                lemma_prioritized_children(next, (tries - 1) as nat, bound + 2 * n, name);
            } else {
                lemma_last_try(ifaces, ports, bound, name);
            }
        }
    }
}

/// The last try leaves every interface with a footing after the one that it runs
/// on.
proof fn lemma_last_try(
    ifaces: MergedInterfacesView,
    ports: Seq<(Seq<char>, u32)>,
    bound: int,
    name: Seq<char>,
)
    requires
        ifaces.is_plain(),
        ifaces.are_children_free(),
        ifaces.priorities_within(bound),
        bound + 2 * ifaces.insert_order.len() <= u32::MAX,
        ifaces.has_footing(name),
        ifaces.are_pending_well(ports),
        pending_within(ports, bound + ifaces.insert_order.len()),
        ifaces.are_placed_before(ports, ifaces.insert_order.len() as int),
    ensures
        ({
            let next = ifaces.with_priorities_from(ifaces.children_placed_from(0, ports), 0);
            match keymap::lookup(next.kernel_ifaces, name) {
                Some(iface) => runs_on_another(iface) ==> next.is_after_parent(iface),
                None => false,
            }
        }),
{
    let n = ifaces.insert_order.len() as int;
    assert(ifaces.priorities_within(bound + n));
    assert forall|other: Seq<char>|
        (#[trigger] keymap::lookup(ifaces.kernel_ifaces, other)) is Some && waits_for_controller(
            keymap::lookup(ifaces.kernel_ifaces, other)->0,
        ) && keymap::lookup(ifaces.kernel_ifaces, other)->0.up_priority is None implies
        keymap::lookup(ports, other) is Some by {
        assert(keymap::has(ifaces.kernel_ifaces, other));
        let k = choose|k: int|
            0 <= k < ifaces.insert_order.len() && !(
            #[trigger] ifaces.insert_order[k]).1.userspace() && ifaces.insert_order[k].0 == other;
        assert(is_unsettled(ifaces.find(ifaces.insert_order[k].0, ifaces.insert_order[k].1)));
    }
    lemma_children_after(ifaces, 0, ports, bound + n);
    let places = ifaces.children_placed_from(0, ports);
    let next = ifaces.with_priorities_from(places, 0);
    lemma_footing(ifaces, name);
    lemma_places_set(ifaces, places, 0, name);
    keymap::lemma_entry_from(places, name, 0);
    let iface = keymap::lookup(ifaces.kernel_ifaces, name)->0;
    if runs_on_another(iface) {
        let parent = iface.for_apply->0.parent->0;
        assert(keymap::has(ifaces.kernel_ifaces, name));
        let k = choose|k: int|
            0 <= k < ifaces.insert_order.len() && !(
            #[trigger] ifaces.insert_order[k]).1.userspace() && ifaces.insert_order[k].0 == name;
        assert(ifaces.is_child_placed(places, ifaces.insert_order[k].0));
        lemma_places_set(ifaces, places, 0, parent);
        keymap::lemma_entry_from(places, parent, 0);
    }
}

/// Every interface is brought up after the one that it runs on: after the
/// priorities are set, an interface to bring up that runs on another one has a
/// priority, and a greater one than that. The chain of interfaces that each run
/// on the next has to end, and those in the middle of it have to stand in the
/// order before what runs on them.
pub proof fn law_child_after_parent(
    ifaces: MergedInterfacesView,
    tries: nat,
    name: Seq<char>,
)
    requires
        ifaces.is_plain(),
        ifaces.priorities_within(0),
        forall|name: Seq<char>|
            (#[trigger] keymap::lookup(ifaces.kernel_ifaces, name)) is Some ==> keymap::lookup(
                ifaces.kernel_ifaces,
                name,
            )->0.up_priority is None,
        2 * tries * ifaces.insert_order.len() <= u32::MAX,
        ifaces.has_footing(name),
    ensures
        match ifaces.prioritized(tries) {
            Ok(next) => match keymap::lookup(next.kernel_ifaces, name) {
                Some(iface) => runs_on_another(iface) ==> next.is_after_parent(iface),
                None => false,
            },
            Err(_) => true,
        },
{
    lemma_prioritized_children(ifaces, tries, 0, name);
}

/// No port gets two pending places.
proof fn lemma_ports_unique(
    ifaces: MergedInterfacesView,
    i: int,
    pending: Seq<(Seq<char>, u32)>,
    all: bool,
)
    requires
        0 <= i,
        keymap::unique(pending),
    ensures
        ifaces.ports_placed_from(i, pending, all) is Ok ==> keymap::unique(
            ifaces.ports_placed_from(i, pending, all)->Ok_0.0,
        ),
    decreases ifaces.insert_order.len() - i,
{
    if i < ifaces.insert_order.len() {
        let (name, iface_type) = ifaces.insert_order[i];
        let iface = ifaces.find(name, iface_type);
        if !is_unsettled(iface) {
            lemma_ports_unique(ifaces, i + 1, pending, all);
        } else {
            match ifaces.port_place(iface->0, pending) {
                Err(_) => {},
                Ok(Place::Free) => lemma_ports_unique(ifaces, i + 1, pending, all),
                Ok(Place::Unknown) => lemma_ports_unique(ifaces, i + 1, pending, false),
                Ok(Place::After(priority)) => {
                    keymap::law_inserted(pending, name, priority, name);
                    lemma_ports_unique(
                        ifaces,
                        i + 1,
                        keymap::inserted(pending, name, priority),
                        all,
                    );
                },
            }
        }
    }
}

/// No interface that runs on another gets two pending places.
proof fn lemma_children_unique(
    ifaces: MergedInterfacesView,
    i: int,
    pending: Seq<(Seq<char>, u32)>,
)
    requires
        0 <= i,
        keymap::unique(pending),
    ensures
        keymap::unique(ifaces.children_placed_from(i, pending)),
    decreases ifaces.insert_order.len() - i,
{
    if i < ifaces.insert_order.len() {
        let (name, iface_type) = ifaces.insert_order[i];
        let iface = ifaces.find(name, iface_type);
        if !is_unsettled(iface) {
            lemma_children_unique(ifaces, i + 1, pending);
        } else {
            match ifaces.child_place(iface->0, pending) {
                Place::After(priority) => {
                    keymap::law_inserted(pending, name, priority, name);
                    lemma_children_unique(
                        ifaces,
                        i + 1,
                        keymap::inserted(pending, name, priority),
                    );
                },
                _ => lemma_children_unique(ifaces, i + 1, pending),
            }
        }
    }
}

/// Setting the priorities changes nothing but the priorities of interfaces of
/// the kernel.
pub proof fn law_only_priorities(ifaces: MergedInterfacesView, tries: nat)
    ensures
        match ifaces.prioritized(tries) {
            Ok(next) => is_applied_alike(ifaces, next),
            Err(_) => true,
        },
    decreases tries,
{
    if tries > 0 {
        let none = Seq::<(Seq<char>, u32)>::empty();
        lemma_ports_unique(ifaces, 0, none, true);
        if let Ok((ports, all)) = ifaces.ports_placed_from(0, none, true) {
            if all {
                lemma_children_unique(ifaces, 0, ports);
                lemma_places_alike(ifaces, ifaces.children_placed_from(0, ports));
            } else {
                let next = ifaces.with_priorities_from(ports, 0);
                lemma_places_alike(ifaces, ports);
                law_only_priorities(next, (tries - 1) as nat);
                if let Ok(last) = next.prioritized((tries - 1) as nat) {
                    lemma_alike_transitive(ifaces, next, last);
                }
            }
        }
    }
}

/// What is applied alike to a set that is applied alike is applied alike.
pub proof fn lemma_alike_transitive(
    a: MergedInterfacesView,
    b: MergedInterfacesView,
    c: MergedInterfacesView,
)
    requires
        is_applied_alike(a, b),
        is_applied_alike(b, c),
    ensures
        is_applied_alike(a, c),
{
    assert forall|name: Seq<char>| {
        let x = #[trigger] keymap::lookup(a.kernel_ifaces, name);
        let y = #[trigger] keymap::lookup(c.kernel_ifaces, name);
        &&& x is Some == y is Some
        &&& x is Some ==> x->0.for_apply == y->0.for_apply
    } by {
        let z = keymap::lookup(b.kernel_ifaces, name);
        assert(z is Some == keymap::lookup(a.kernel_ifaces, name) is Some);
    }
}

/// Whether interfaces are plain depends on what is applied only.
pub proof fn lemma_alike_plain(a: MergedInterfacesView, b: MergedInterfacesView)
    requires
        is_applied_alike(a, b),
        b.is_plain(),
    ensures
        a.is_plain(),
{
    assert forall|name: Seq<char>| #[trigger] keymap::has(a.kernel_ifaces, name) implies
        ifaces::is_kernel_listed(a.insert_order, name) by {
        assert(keymap::lookup(a.kernel_ifaces, name) is Some);
        assert(keymap::lookup(b.kernel_ifaces, name) is Some);
        assert(keymap::has(b.kernel_ifaces, name));
    }
    assert forall|name: Seq<char>|
        (#[trigger] keymap::lookup(a.kernel_ifaces, name)) is Some implies {
        let iface = keymap::lookup(a.kernel_ifaces, name)->0;
        iface.for_apply is Some && iface.for_apply->0.base.has_controller()
            ==> iface.for_apply->0.parent is None
    } by {
        assert(keymap::lookup(b.kernel_ifaces, name) is Some);
    }
}

} // verus!
