//! The interfaces of a state, and how they are found.

use vstd::prelude::*;
use vstd::string::*;

use crate::error;
use crate::error::{ErrorKind, NipartError, NipartErrorView};
use crate::iface::{
    BaseInterface, BaseInterfaceView, Interface, InterfaceState, InterfaceType, InterfaceView,
    to_upper,
};
use crate::iface;
use crate::keymap;
use crate::keymap::KeyMap;
use crate::text;
use crate::text::to_ascii_upper;
use crate::value;
use crate::value::{Value, contains, empty_list, push};

verus! {

/// The interfaces of a state.
#[derive(Clone, Debug, PartialEq, Eq)]
pub struct Interfaces {
    /// Interfaces that the kernel has, by their name in the kernel.
    pub kernel_ifaces: KeyMap<String, Interface>,
    /// Interfaces that the kernel does not have, by name and type.
    pub user_ifaces: KeyMap<(String, InterfaceType), Interface>,
    /// The keys of the interfaces in the order in which they were added.
    pub insert_order: Vec<(String, InterfaceType)>,
}

/// What a [Interfaces] stands for.
#[verifier::ext_equal]
pub struct InterfacesView {
    pub kernel_ifaces: Seq<(Seq<char>, InterfaceView)>,
    pub user_ifaces: Seq<((Seq<char>, InterfaceType), InterfaceView)>,
    pub insert_order: Seq<(Seq<char>, InterfaceType)>,
}

impl View for Interfaces {
    type V = InterfacesView;

    open spec fn view(&self) -> InterfacesView {
        InterfacesView {
            kernel_ifaces: self.kernel_ifaces.deep_view(),
            user_ifaces: self.user_ifaces.deep_view(),
            insert_order: self.insert_order.deep_view(),
        }
    }
}

impl DeepView for Interfaces {
    type V = InterfacesView;

    open spec fn deep_view(&self) -> InterfacesView {
        self@
    }
}

impl Value for Interfaces {
    fn dup(&self) -> (res: Self) {
        Interfaces {
            kernel_ifaces: self.kernel_ifaces.dup(),
            user_ifaces: self.user_ifaces.dup(),
            insert_order: self.insert_order.dup(),
        }
    }

    fn same(&self, other: &Self) -> (res: bool) {
        self.kernel_ifaces.same(&other.kernel_ifaces) && self.user_ifaces.same(&other.user_ifaces) && self.insert_order.same(&other.insert_order)
    }
}

/// Where interfaces of the kernel are found by name and MAC address.
#[derive(Clone, Debug, PartialEq, Eq)]
pub struct IfaceSearch {
    /// The name in the kernel for the name of a profile.
    pub profiles: KeyMap<String, String>,
    pub kernel_names: Vec<String>,
    pub permanent_mac_addresses: KeyMap<String, Vec<String>>,
    pub mac_addresses: KeyMap<String, Vec<String>>,
}

/// What a [IfaceSearch] stands for.
#[verifier::ext_equal]
pub struct IfaceSearchView {
    pub profiles: Seq<(Seq<char>, Seq<char>)>,
    pub kernel_names: Seq<Seq<char>>,
    pub permanent_mac_addresses: Seq<(Seq<char>, Seq<Seq<char>>)>,
    pub mac_addresses: Seq<(Seq<char>, Seq<Seq<char>>)>,
}

impl View for IfaceSearch {
    type V = IfaceSearchView;

    open spec fn view(&self) -> IfaceSearchView {
        IfaceSearchView {
            profiles: self.profiles.deep_view(),
            kernel_names: self.kernel_names.deep_view(),
            permanent_mac_addresses: self.permanent_mac_addresses.deep_view(),
            mac_addresses: self.mac_addresses.deep_view(),
        }
    }
}

impl DeepView for IfaceSearch {
    type V = IfaceSearchView;

    open spec fn deep_view(&self) -> IfaceSearchView {
        self@
    }
}

impl Value for IfaceSearch {
    fn dup(&self) -> (res: Self) {
        IfaceSearch {
            profiles: self.profiles.dup(),
            kernel_names: self.kernel_names.dup(),
            permanent_mac_addresses: self.permanent_mac_addresses.dup(),
            mac_addresses: self.mac_addresses.dup(),
        }
    }

    fn same(&self, other: &Self) -> (res: bool) {
        self.profiles.same(&other.profiles) && self.kernel_names.same(&other.kernel_names) && self.permanent_mac_addresses.same(&other.permanent_mac_addresses) && self.mac_addresses.same(&other.mac_addresses)
    }
}

/// The interface with its name in the kernel filled in, where it is not
/// matched by its MAC address.
pub open spec fn registered(iface: InterfaceView) -> InterfaceView {
    if iface.base.iface_type.userspace() || iface.base.by_mac() {
        iface
    } else {
        InterfaceView {
            base: BaseInterfaceView { kernel_iface_name: iface.base.key_name(), ..iface.base },
            ..iface
        }
    }
}

impl InterfacesView {
    /// No interfaces.
    pub open spec fn none() -> InterfacesView {
        InterfacesView {
            kernel_ifaces: Seq::empty(),
            user_ifaces: Seq::empty(),
            insert_order: Seq::empty(),
        }
    }

    /// The interface with the given key.
    pub open spec fn find(self, name: Seq<char>, iface_type: InterfaceType) -> Option<
        InterfaceView,
    > {
        if iface_type.userspace() {
            keymap::lookup(self.user_ifaces, (name, iface_type))
        } else {
            keymap::lookup(self.kernel_ifaces, name)
        }
    }

    /// The interface that is kept where `base` would be.
    pub open spec fn find_same(self, base: BaseInterfaceView) -> Option<InterfaceView> {
        if base.iface_type.userspace() {
            self.find(base.name, base.iface_type)
        } else {
            self.find(base.key_name(), base.iface_type)
        }
    }

    /// The interfaces with one more, which replaces one of the same key.
    pub open spec fn pushed(self, iface: InterfaceView) -> InterfacesView {
        let key = if iface.base.iface_type.userspace() {
            (iface.base.name, iface.base.iface_type)
        } else {
            (iface.base.key_name(), iface.base.iface_type)
        };
        let order = if self.find_same(iface.base) is Some {
            self.insert_order
        } else {
            self.insert_order.push(key)
        };
        if iface.base.iface_type.userspace() {
            InterfacesView {
                user_ifaces: keymap::inserted(self.user_ifaces, key, registered(iface)),
                insert_order: order,
                ..self
            }
        } else {
            InterfacesView {
                kernel_ifaces: keymap::inserted(self.kernel_ifaces, key.0, registered(iface)),
                insert_order: order,
                ..self
            }
        }
    }

    /// The interfaces with those of `list` from `i` on.
    pub open spec fn pushed_from(self, list: Seq<InterfaceView>, i: int) -> InterfacesView
        decreases list.len() - i,
    {
        if i < 0 || i >= list.len() {
            self
        } else {
            self.pushed(list[i]).pushed_from(list, i + 1)
        }
    }

    /// `acc` with the interfaces in order from `i` on.
    pub open spec fn list_from(self, i: int, acc: Seq<InterfaceView>) -> Seq<InterfaceView>
        decreases self.insert_order.len() - i,
    {
        if i < 0 || i >= self.insert_order.len() {
            acc
        } else {
            match self.find(self.insert_order[i].0, self.insert_order[i].1) {
                Some(iface) => self.list_from(i + 1, acc.push(iface)),
                None => self.list_from(i + 1, acc),
            }
        }
    }

    /// The interfaces in the order in which they were added.
    pub open spec fn list(self) -> Seq<InterfaceView> {
        self.list_from(0, Seq::empty())
    }

    /// The interfaces with the virtual cables as Ethernet interfaces.
    pub open spec fn veth_unified(self) -> InterfacesView {
        InterfacesView {
            kernel_ifaces: Seq::new(
                self.kernel_ifaces.len(),
                |i: int| (self.kernel_ifaces[i].0, veth_to_ethernet(self.kernel_ifaces[i].1)),
            ),
            user_ifaces: Seq::new(
                self.user_ifaces.len(),
                |i: int| (self.user_ifaces[i].0, veth_to_ethernet(self.user_ifaces[i].1)),
            ),
            ..self
        }
    }

    /// The interfaces after those of `list` from `i` on are merged into them.
    pub open spec fn merged_from(self, list: Seq<InterfaceView>, i: int) -> InterfacesView
        decreases list.len() - i,
    {
        if i < 0 || i >= list.len() {
            self
        } else {
            match self.find_same(list[i].base) {
                Some(old) => self.replaced(list[i].base, list[i].over(old, old)).merged_from(
                    list,
                    i + 1,
                ),
                None => self.pushed(list[i]).merged_from(list, i + 1),
            }
        }
    }

    /// The interfaces with `iface` where `base` would be kept.
    pub open spec fn replaced(
        self,
        base: BaseInterfaceView,
        iface: InterfaceView,
    ) -> InterfacesView {
        if base.iface_type.userspace() {
            InterfacesView {
                user_ifaces: keymap::inserted(
                    self.user_ifaces,
                    (base.name, base.iface_type),
                    iface,
                ),
                ..self
            }
        } else {
            InterfacesView {
                kernel_ifaces: keymap::inserted(self.kernel_ifaces, base.key_name(), iface),
                ..self
            }
        }
    }

    /// The interfaces with those of `list` from `i` on as far as they differ
    /// from what `old` has.
    pub open spec fn diff_pushed_from(
        self,
        list: Seq<InterfaceView>,
        old_ifaces: InterfacesView,
        i: int,
    ) -> InterfacesView
        decreases list.len() - i,
    {
        if i < 0 || i >= list.len() {
            self
        } else {
            match old_ifaces.find_same(list[i].base) {
                None => self.pushed(list[i]).diff_pushed_from(list, old_ifaces, i + 1),
                Some(old) => if list[i].differs(old) {
                    self.pushed(list[i].change_from(old)).diff_pushed_from(
                        list,
                        old_ifaces,
                        i + 1,
                    )
                } else {
                    self.diff_pushed_from(list, old_ifaces, i + 1)
                },
            }
        }
    }

    /// The interfaces that `old` does not have as they are.
    pub open spec fn diff_from(self, old_ifaces: InterfacesView) -> InterfacesView {
        InterfacesView::none().diff_pushed_from(self.list(), old_ifaces, 0)
    }

    /// The saved configuration that the desired one `base` is about: by MAC
    /// address where it is matched by it, else by key, else by profile name.
    pub open spec fn saved_for(self, base: BaseInterfaceView) -> Option<InterfaceView> {
        if base.by_mac() {
            first_by_mac(self.list(), base.mac_address, 0)
        } else if self.find_same(base) is Some {
            self.find_same(base)
        } else if base.iface_type.userspace() {
            None
        } else {
            first_by_profile(self.list(), base.name, 0)
        }
    }

    /// The current interface that the desired configuration `base` is about.
    /// One that is matched by its MAC address has to be there, unless it is to
    /// be deleted or only saved.
    pub open spec fn current_for(self, base: BaseInterfaceView) -> Result<
        Option<InterfaceView>,
        NipartErrorView,
    > {
        if !base.by_mac() {
            Ok(self.find_same(base))
        } else {
            match base.mac_address {
                None => Err(
                    error::invalid(
                        "The MAC address that identifies interface "@ + base.name
                            + " is not defined"@,
                    ),
                ),
                Some(mac) => match first_of_type(
                    self,
                    search_of(self.list()).macs(mac),
                    base.iface_type,
                    0,
                ) {
                    Some(iface) => Ok(Some(iface)),
                    None => if base.state is Absent || base.state is Saved {
                        Ok(None)
                    } else {
                        Err(
                            error::invalid(
                                "Failed to find interface "@ + base.name + " with MAC address "@
                                    + mac,
                            ),
                        )
                    },
                },
            }
        }
    }
}

/// The interface, as an Ethernet one when it is a virtual cable.
pub open spec fn veth_to_ethernet(iface: InterfaceView) -> InterfaceView {
    if iface.base.iface_type is Veth {
        InterfaceView {
            base: BaseInterfaceView { iface_type: InterfaceType::Ethernet, ..iface.base },
            ..iface
        }
    } else {
        iface
    }
}

/// The first interface from `i` on that is matched by the given MAC address.
pub open spec fn first_by_mac(
    list: Seq<InterfaceView>,
    mac: Option<Seq<char>>,
    i: int,
) -> Option<InterfaceView>
    decreases list.len() - i,
{
    if i < 0 || i >= list.len() {
        None
    } else if list[i].base.by_mac() && list[i].base.mac_address is Some && iface::upper(
        list[i].base.mac_address,
    ) == iface::upper(mac) {
        Some(list[i])
    } else {
        first_by_mac(list, mac, i + 1)
    }
}

/// The first interface of the kernel from `i` on with the profile name.
pub open spec fn first_by_profile(
    list: Seq<InterfaceView>,
    name: Seq<char>,
    i: int,
) -> Option<InterfaceView>
    decreases list.len() - i,
{
    if i < 0 || i >= list.len() {
        None
    } else if !list[i].base.iface_type.userspace() && list[i].base.profile_name == Some(name) {
        Some(list[i])
    } else {
        first_by_profile(list, name, i + 1)
    }
}

/// The interface of the first name from `i` on that has the type; any one for
/// an unknown type.
pub open spec fn first_of_type(
    ifaces: InterfacesView,
    names: Seq<Seq<char>>,
    iface_type: InterfaceType,
    i: int,
) -> Option<InterfaceView>
    decreases names.len() - i,
{
    if i < 0 || i >= names.len() {
        None
    } else {
        match keymap::lookup(ifaces.kernel_ifaces, names[i]) {
            Some(iface) if iface_type is Unknown || iface.base.iface_type == iface_type => Some(
                iface,
            ),
            _ => first_of_type(ifaces, names, iface_type, i + 1),
        }
    }
}

/// A map of lists with `name` added to the list of `key`.
pub open spec fn with_name(
    map: Seq<(Seq<char>, Seq<Seq<char>>)>,
    key: Seq<char>,
    name: Seq<char>,
) -> Seq<(Seq<char>, Seq<Seq<char>>)> {
    keymap::inserted(map, key, keymap::lookup(map, key).unwrap_or(Seq::empty()).push(name))
}

impl IfaceSearchView {
    /// Where nothing is found.
    pub open spec fn none() -> IfaceSearchView {
        IfaceSearchView {
            profiles: Seq::empty(),
            kernel_names: Seq::empty(),
            permanent_mac_addresses: Seq::empty(),
            mac_addresses: Seq::empty(),
        }
    }

    /// Where the interface is found, too. Those without a name in the kernel
    /// are not.
    pub open spec fn pushed(self, iface: InterfaceView) -> IfaceSearchView {
        let base = iface.base;
        let name = base.kernel_iface_name;
        if base.iface_type.userspace() || name.len() == 0 {
            self
        } else {
            IfaceSearchView {
                profiles: if base.profile_name is Some && base.profile_name->0.len() > 0 {
                    keymap::inserted(self.profiles, base.profile_name->0, name)
                } else {
                    self.profiles
                },
                permanent_mac_addresses: if base.permanent_mac_address is Some
                    && base.permanent_mac_address->0.len() > 0 {
                    with_name(
                        self.permanent_mac_addresses,
                        text::ascii_upper(base.permanent_mac_address->0),
                        name,
                    )
                } else {
                    self.permanent_mac_addresses
                },
                mac_addresses: if base.mac_address is Some && base.mac_address->0.len() > 0 {
                    with_name(self.mac_addresses, text::ascii_upper(base.mac_address->0), name)
                } else {
                    self.mac_addresses
                },
                kernel_names: if self.kernel_names.contains(name) {
                    self.kernel_names
                } else {
                    self.kernel_names.push(name)
                },
            }
        }
    }

    /// Where the interfaces of `list` from `i` on are found, too.
    pub open spec fn pushed_from(self, list: Seq<InterfaceView>, i: int) -> IfaceSearchView
        decreases list.len() - i,
    {
        if i < 0 || i >= list.len() {
            self
        } else {
            self.pushed(list[i]).pushed_from(list, i + 1)
        }
    }

    /// The name in the kernel for a name in the kernel or of a profile.
    pub open spec fn kernel_name(self, name: Seq<char>) -> Option<Seq<char>> {
        if self.kernel_names.contains(name) {
            Some(name)
        } else {
            keymap::lookup(self.profiles, name)
        }
    }

    /// The names in the kernel for a MAC address of the hardware, else for one
    /// in use.
    pub open spec fn macs(self, mac: Seq<char>) -> Seq<Seq<char>> {
        let key = text::ascii_upper(mac);
        value::or(
            keymap::lookup(self.permanent_mac_addresses, key),
            keymap::lookup(self.mac_addresses, key),
        ).unwrap_or(Seq::empty())
    }
}

/// Where the interfaces of `list` are found.
pub open spec fn search_of(list: Seq<InterfaceView>) -> IfaceSearchView {
    IfaceSearchView::none().pushed_from(list, 0)
}

/// Adds `name` to the list of `key`.
fn add_name(map: &mut KeyMap<String, Vec<String>>, key: String, name: String)
    ensures
        final(map)@ == with_name(old(map)@, key@, name@),
{
    let mut names = match map.get(&key) {
        Some(names) => names.dup(),
        None => empty_list(),
    };
    push(&mut names, name);
    map.insert(key, names);
}

impl IfaceSearch {
    /// Where nothing is found.
    pub fn empty() -> (res: Self)
        ensures
            res@ == IfaceSearchView::none(),
    {
        IfaceSearch {
            profiles: KeyMap::new(),
            kernel_names: empty_list(),
            permanent_mac_addresses: KeyMap::new(),
            mac_addresses: KeyMap::new(),
        }
    }

    /// Where the interfaces are found.
    pub fn new(list: &Vec<Interface>) -> (res: Self)
        ensures
            res@ == search_of(list.deep_view()),
    {
        let ghost views = list.deep_view();
        let mut res = Self::empty();
        let mut i: usize = 0;
        while i < list.len()
            invariant
                i <= list.len(),
                views == list.deep_view(),
                search_of(views) == res@.pushed_from(views, i as int),
            decreases list.len() - i,
        {
            assert(views[i as int] == list[i as int]@);
            res.push(&list[i]);
            i = i + 1;
        }
        res
    }

    /// Makes the interface be found.
    pub fn push(&mut self, iface: &Interface)
        ensures
            final(self)@ == old(self)@.pushed(iface@),
    {
        if iface.is_userspace() || iface.kernel_iface_name().is_empty() {
            return ;
        }
        let name = &iface.base.kernel_iface_name;
        if let Some(profile_name) = &iface.base.profile_name {
            if !profile_name.as_str().is_empty() {
                self.profiles.insert(profile_name.dup(), name.dup());
            }
        }
        if let Some(mac) = &iface.base.permanent_mac_address {
            if !mac.as_str().is_empty() {
                add_name(
                    &mut self.permanent_mac_addresses,
                    to_ascii_upper(mac.as_str()),
                    name.dup(),
                );
            }
        }
        if let Some(mac) = &iface.base.mac_address {
            if !mac.as_str().is_empty() {
                add_name(&mut self.mac_addresses, to_ascii_upper(mac.as_str()), name.dup());
            }
        }
        if !contains(&self.kernel_names, name) {
            push(&mut self.kernel_names, name.dup());
        }
    }

    /// The name in the kernel for a name in the kernel or of a profile.
    pub fn search_name(&self, name: &String) -> (res: Option<String>)
        ensures
            res.deep_view() == self@.kernel_name(name@),
    {
        if contains(&self.kernel_names, name) {
            Some(name.dup())
        } else {
            match self.profiles.get(name) {
                Some(name) => Some(name.dup()),
                None => None,
            }
        }
    }

    /// The names in the kernel for a MAC address of the hardware, else for one
    /// in use.
    pub fn search_mac(&self, mac: &str) -> (res: Vec<String>)
        ensures
            res.deep_view() == self@.macs(mac@),
    {
        let key = to_ascii_upper(mac);
        match self.permanent_mac_addresses.get(&key) {
            Some(names) => names.dup(),
            None => match self.mac_addresses.get(&key) {
                Some(names) => names.dup(),
                None => empty_list(),
            },
        }
    }
}

impl Default for Interfaces {
    fn default() -> (res: Self)
        ensures
            res@ == InterfacesView::none(),
    {
        Interfaces {
            kernel_ifaces: KeyMap::new(),
            user_ifaces: KeyMap::new(),
            insert_order: empty_list(),
        }
    }
}

impl Interfaces {
    /// The interfaces of the list.
    pub fn new(list: Vec<Interface>) -> (res: Self)
        ensures
            res@ == InterfacesView::none().pushed_from(list.deep_view(), 0),
    {
        let ghost views = list.deep_view();
        let mut res = Self::default();
        let mut i: usize = 0;
        while i < list.len()
            invariant
                i <= list.len(),
                views == list.deep_view(),
                InterfacesView::none().pushed_from(views, 0) == res@.pushed_from(views, i as int),
            decreases list.len() - i,
        {
            assert(views[i as int] == list[i as int]@);
            res.push(list[i].dup());
            i = i + 1;
        }
        res
    }

    /// Whether there are no interfaces.
    pub fn is_empty(&self) -> (res: bool)
        ensures
            res == (self@.kernel_ifaces.len() == 0 && self@.user_ifaces.len() == 0),
    {
        self.kernel_ifaces.is_empty() && self.user_ifaces.is_empty()
    }

    /// The interface with the given key.
    pub fn find(&self, name: &String, iface_type: InterfaceType) -> (res: Option<&Interface>)
        ensures
            match res {
                Some(iface) => self@.find(name@, iface_type) == Some(iface@),
                None => self@.find(name@, iface_type) is None,
            },
    {
        if iface_type.is_userspace() {
            self.user_ifaces.get(&(name.dup(), iface_type))
        } else {
            self.kernel_ifaces.get(name)
        }
    }

    /// The interface that is kept where `base` would be.
    pub fn find_same(&self, base: &BaseInterface) -> (res: Option<&Interface>)
        ensures
            match res {
                Some(iface) => self@.find_same(base@) == Some(iface@),
                None => self@.find_same(base@) is None,
            },
    {
        if base.iface_type.is_userspace() {
            self.find(&base.name, base.iface_type)
        } else {
            self.find(base.key_name(), base.iface_type)
        }
    }

    /// Adds an interface, which replaces one of the same key.
    pub fn push(&mut self, iface: Interface)
        ensures
            final(self)@ == old(self)@.pushed(iface@),
    {
        let mut iface = iface;
        let ghost original = iface@;
        let is_new = self.find_same(&iface.base).is_none();
        let iface_type = iface.base.iface_type;
        if iface_type.is_userspace() {
            let key = (iface.base.name.dup(), iface_type);
            if is_new {
                push(&mut self.insert_order, key.dup());
            }
            self.user_ifaces.insert(key, iface);
        } else {
            let key = iface.base.key_name().dup();
            if is_new {
                push(&mut self.insert_order, (key.dup(), iface_type));
            }
            if !iface.base.is_by_mac() {
                iface.base.kernel_iface_name = key.dup();
            }
            assert(iface@ == registered(original));
            self.kernel_ifaces.insert(key, iface);
        }
    }

    /// The interfaces in the order in which they were added.
    pub fn to_list(&self) -> (res: Vec<Interface>)
        ensures
            res.deep_view() == self@.list(),
    {
        let ghost order = self.insert_order.deep_view();
        let mut res: Vec<Interface> = empty_list();
        let mut i: usize = 0;
        while i < self.insert_order.len()
            invariant
                i <= self.insert_order.len(),
                order == self.insert_order.deep_view(),
                self@.list() == self@.list_from(i as int, res.deep_view()),
            decreases self.insert_order.len() - i,
        {
            assert(order[i as int] == self.insert_order[i as int].deep_view());
            if let Some(iface) = self.find(&self.insert_order[i].0, self.insert_order[i].1) {
                push(&mut res, iface.dup());
            }
            i = i + 1;
        }
        res
    }

    /// Makes virtual cables Ethernet interfaces.
    pub fn unify_veth_and_ethernet(&mut self)
        ensures
            final(self)@ == old(self)@.veth_unified(),
    {
        unify_map(&mut self.kernel_ifaces);
        unify_map(&mut self.user_ifaces);
    }

    /// Puts `iface` where `base` would be kept.
    fn replace(&mut self, base: &BaseInterface, iface: Interface)
        ensures
            final(self)@ == old(self)@.replaced(base@, iface@),
    {
        if base.iface_type.is_userspace() {
            self.user_ifaces.insert((base.name.dup(), base.iface_type), iface);
        } else {
            self.kernel_ifaces.insert(base.key_name().dup(), iface);
        }
    }

    /// Merges the interfaces into these, preferring the new properties.
    pub fn merge(&mut self, new_ifaces: &Self) -> (res: Result<(), NipartError>)
        ensures
            res is Ok,
            final(self)@ == old(self)@.merged_from(new_ifaces@.list(), 0),
    {
        let list = new_ifaces.to_list();
        let ghost views = list.deep_view();
        let mut i: usize = 0;
        while i < list.len()
            invariant
                i <= list.len(),
                views == list.deep_view(),
                old(self)@.merged_from(views, 0) == self@.merged_from(views, i as int),
            decreases list.len() - i,
        {
            let new_iface = &list[i];
            assert(views[i as int] == new_iface@);
            let merged = match self.find_same(&new_iface.base) {
                Some(old_iface) => Some(new_iface.merge_over(old_iface, old_iface)),
                None => None,
            };
            match merged {
                Some(merged) => self.replace(&new_iface.base, merged),
                None => self.push(new_iface.dup()),
            }
            i = i + 1;
        }
        Ok(())
    }

    /// The interfaces that `old` does not have as they are.
    pub fn gen_diff(&self, old_ifaces: &Self) -> (res: Result<Self, NipartError>)
        ensures
            error::same_result(res, Ok(self@.diff_from(old_ifaces@))),
    {
        let list = self.to_list();
        let ghost views = list.deep_view();
        let mut res = Self::default();
        let mut i: usize = 0;
        while i < list.len()
            invariant
                i <= list.len(),
                views == list.deep_view(),
                InterfacesView::none().diff_pushed_from(views, old_ifaces@, 0)
                    == res@.diff_pushed_from(views, old_ifaces@, i as int),
            decreases list.len() - i,
        {
            let iface = &list[i];
            assert(views[i as int] == iface@);
            match old_ifaces.find_same(&iface.base) {
                None => res.push(iface.dup()),
                Some(old_iface) => {
                    if iface.is_changed(old_iface) {
                        res.push(iface.gen_change(old_iface));
                    }
                },
            }
            i = i + 1;
        }
        Ok(res)
    }

    /// The saved configuration that the desired one `base` is about.
    pub fn get_matched_iface_from_save(&self, base: &BaseInterface) -> (res: Option<Interface>)
        ensures
            res.deep_view() == self@.saved_for(base@),
    {
        if base.is_by_mac() {
            return find_by_mac(&self.to_list(), &base.mac_address);
        }
        if let Some(iface) = self.find_same(base) {
            return Some(iface.dup());
        }
        if base.iface_type.is_userspace() {
            return None;
        }
        find_by_profile(&self.to_list(), &base.name)
    }

    /// The current interface that the desired configuration `base` is about.
    pub fn get_matched_iface_from_current(&self, base: &BaseInterface) -> (res: Result<
        Option<Interface>,
        NipartError,
    >)
        ensures
            error::same_result(res, self@.current_for(base@)),
    {
        if !base.is_by_mac() {
            return match self.find_same(base) {
                Some(iface) => Ok(Some(iface.dup())),
                None => Ok(None),
            };
        }
        let mac = match &base.mac_address {
            Some(mac) => mac,
            None => {
                return Err(
                    NipartError::new(
                        ErrorKind::InvalidArgument,
                        String::from_str("The MAC address that identifies interface ").concat(
                            base.name.as_str(),
                        ).concat(" is not defined"),
                    ),
                );
            },
        };
        let names = IfaceSearch::new(&self.to_list()).search_mac(mac.as_str());
        match self.find_of_type(&names, base.iface_type) {
            Some(iface) => Ok(Some(iface)),
            None => if matches!(base.state, InterfaceState::Absent | InterfaceState::Saved) {
                Ok(None)
            } else {
                Err(
                    NipartError::new(
                        ErrorKind::InvalidArgument,
                        String::from_str("Failed to find interface ").concat(
                            base.name.as_str(),
                        ).concat(" with MAC address ").concat(mac.as_str()),
                    ),
                )
            },
        }
    }

    /// The interface of the first name that has the type.
    fn find_of_type(&self, names: &Vec<String>, iface_type: InterfaceType) -> (res: Option<
        Interface,
    >)
        ensures
            res.deep_view() == first_of_type(self@, names.deep_view(), iface_type, 0),
    {
        let ghost views = names.deep_view();
        let mut i: usize = 0;
        while i < names.len()
            invariant
                i <= names.len(),
                views == names.deep_view(),
                first_of_type(self@, views, iface_type, 0) == first_of_type(
                    self@,
                    views,
                    iface_type,
                    i as int,
                ),
            decreases names.len() - i,
        {
            assert(views[i as int] == names[i as int]@);
            if let Some(iface) = self.kernel_ifaces.get(&names[i]) {
                if iface_type == InterfaceType::Unknown || iface.base.iface_type == iface_type {
                    return Some(iface.dup());
                }
            }
            i = i + 1;
        }
        None
    }
}

/// Makes virtual cables Ethernet interfaces.
fn unify_map<K: Value>(map: &mut KeyMap<K, Interface>)
    ensures
        final(map)@ == Seq::new(
            old(map)@.len(),
            |i: int| (old(map)@[i].0, veth_to_ethernet(old(map)@[i].1)),
        ),
{
    let ghost start = map@;
    let mut i: usize = 0;
    while i < map.len()
        invariant
            i <= map@.len(),
            map@.len() == start.len(),
            start == old(map)@,
            forall|j: int|
                0 <= j < i ==> #[trigger] map@[j] == (start[j].0, veth_to_ethernet(start[j].1)),
            forall|j: int| i <= j < start.len() ==> #[trigger] map@[j] == start[j],
        decreases map@.len() - i,
    {
        let iface = map.value_at(i);
        if iface.base.iface_type == InterfaceType::Veth {
            let mut iface = iface.dup();
            iface.base.iface_type = InterfaceType::Ethernet;
            map.set_value(i, iface);
        }
        i = i + 1;
    }
    assert(map@ =~= Seq::new(start.len(), |i: int| (start[i].0, veth_to_ethernet(start[i].1))));
}

/// The first interface that is matched by the given MAC address.
fn find_by_mac(list: &Vec<Interface>, mac: &Option<String>) -> (res: Option<Interface>)
    ensures
        res.deep_view() == first_by_mac(list.deep_view(), mac.deep_view(), 0),
{
    let ghost views = list.deep_view();
    let mut i: usize = 0;
    while i < list.len()
        invariant
            i <= list.len(),
            views == list.deep_view(),
            first_by_mac(views, mac.deep_view(), 0) == first_by_mac(
                views,
                mac.deep_view(),
                i as int,
            ),
        decreases list.len() - i,
    {
        assert(views[i as int] == list[i as int]@);
        let base = &list[i].base;
        if base.is_by_mac() && base.mac_address.is_some() && to_upper(&base.mac_address).same(
            &to_upper(mac),
        ) {
            return Some(list[i].dup());
        }
        i = i + 1;
    }
    None
}

/// The first interface of the kernel with the profile name.
fn find_by_profile(list: &Vec<Interface>, name: &String) -> (res: Option<Interface>)
    ensures
        res.deep_view() == first_by_profile(list.deep_view(), name@, 0),
{
    let ghost views = list.deep_view();
    let profile = Some(name.dup());
    let mut i: usize = 0;
    while i < list.len()
        invariant
            i <= list.len(),
            views == list.deep_view(),
            profile.deep_view() == Some(name@),
            first_by_profile(views, name@, 0) == first_by_profile(views, name@, i as int),
        decreases list.len() - i,
    {
        assert(views[i as int] == list[i as int]@);
        if !list[i].is_userspace() && list[i].base.profile_name.same(&profile) {
            return Some(list[i].dup());
        }
        i = i + 1;
    }
    None
}

/// Whether two keys are kept in the same place: those of the kernel share
/// their names, whatever their types.
pub open spec fn same_place(
    a: (Seq<char>, InterfaceType),
    b: (Seq<char>, InterfaceType),
) -> bool {
    if a.1.userspace() || b.1.userspace() {
        a == b
    } else {
        a.0 == b.0
    }
}

/// Whether an interface of the kernel with that name is in the order.
pub open spec fn is_kernel_listed(
    order: Seq<(Seq<char>, InterfaceType)>,
    name: Seq<char>,
) -> bool {
    exists|i: int|
        0 <= i < order.len() && !(#[trigger] order[i]).1.userspace() && order[i].0 == name
}

impl InterfacesView {
    /// Whether every key has one entry and one place in the order, and every
    /// place in the order has an entry.
    pub open spec fn valid(self) -> bool {
        &&& keymap::unique(self.kernel_ifaces)
        &&& keymap::unique(self.user_ifaces)
        &&& forall|i: int|
            0 <= i < self.insert_order.len() ==> self.find(
                (#[trigger] self.insert_order[i]).0,
                self.insert_order[i].1,
            ) is Some
        &&& forall|i: int, j: int|
            0 <= i < j < self.insert_order.len() ==> !same_place(
                #[trigger] self.insert_order[i],
                #[trigger] self.insert_order[j],
            )
        &&& forall|i: int|
            0 <= i < self.kernel_ifaces.len() ==> is_kernel_listed(
                self.insert_order,
                (#[trigger] self.kernel_ifaces[i]).0,
            )
        &&& forall|i: int|
            0 <= i < self.user_ifaces.len() ==> (#[trigger] self.user_ifaces[i]).0.1.userspace()
                && self.insert_order.contains(self.user_ifaces[i].0)
    }

    /// Whether every interface is kept under its own key.
    pub open spec fn keyed(self) -> bool {
        &&& forall|i: int|
            0 <= i < self.kernel_ifaces.len() ==> {
                let base = (#[trigger] self.kernel_ifaces[i]).1.base;
                !base.iface_type.userspace() && base.key_name() == self.kernel_ifaces[i].0
            }
        &&& forall|i: int|
            0 <= i < self.user_ifaces.len() ==> {
                let base = (#[trigger] self.user_ifaces[i]).1.base;
                base.iface_type.userspace() && (base.name, base.iface_type)
                    == self.user_ifaces[i].0
            }
    }
}

/// What a map holds is the value of one of its entries.
proof fn lemma_lookup_entry<K, V>(map: Seq<(K, V)>, key: K)
    ensures
        keymap::lookup(map, key) is Some ==> 0 <= keymap::entry(map, key) < map.len()
            && map[keymap::entry(map, key)] == (key, keymap::lookup(map, key)->0),
{
    keymap::lemma_entry_from(map, key, 0);
}

/// Adding an interface puts it where its key says and moves no other one, and
/// the interfaces stay valid.
pub proof fn law_pushed(
    ifaces: InterfacesView,
    iface: InterfaceView,
    name: Seq<char>,
    iface_type: InterfaceType,
)
    requires
        ifaces.valid(),
    ensures
        ifaces.pushed(iface).valid(),
        ifaces.pushed(iface).find_same(iface.base) == Some(registered(iface)),
        !same_place(
            (name, iface_type),
            if iface.base.iface_type.userspace() {
                (iface.base.name, iface.base.iface_type)
            } else {
                (iface.base.key_name(), iface.base.iface_type)
            },
        ) ==> ifaces.pushed(iface).find(name, iface_type) == ifaces.find(name, iface_type),
{
    let key = if iface.base.iface_type.userspace() {
        (iface.base.name, iface.base.iface_type)
    } else {
        (iface.base.key_name(), iface.base.iface_type)
    };
    let next = ifaces.pushed(iface);
    let value = registered(iface);
    let was = ifaces.find_same(iface.base) is Some;
    keymap::law_inserted(ifaces.kernel_ifaces, key.0, value, name);
    keymap::law_inserted(ifaces.user_ifaces, key, value, (name, iface_type));
    assert forall|i: int| 0 <= i < next.insert_order.len() implies next.find(
        (#[trigger] next.insert_order[i]).0,
        next.insert_order[i].1,
    ) is Some by {
        let other = next.insert_order[i];
        keymap::law_inserted(ifaces.kernel_ifaces, key.0, value, other.0);
        keymap::law_inserted(ifaces.user_ifaces, key, value, other);
        if i < ifaces.insert_order.len() {
            assert(ifaces.find(ifaces.insert_order[i].0, ifaces.insert_order[i].1) is Some);
        }
    }
    assert forall|i: int, j: int| 0 <= i < j < next.insert_order.len() implies !same_place(
        #[trigger] next.insert_order[i],
        #[trigger] next.insert_order[j],
    ) by {
        if j < ifaces.insert_order.len() {
            assert(!same_place(ifaces.insert_order[i], ifaces.insert_order[j]));
        } else {
            assert(ifaces.find(ifaces.insert_order[i].0, ifaces.insert_order[i].1) is Some);
        }
    }
    lemma_order_kept(ifaces, iface);
}

/// Adding an interface leaves every entry in the order.
proof fn lemma_order_kept(ifaces: InterfacesView, iface: InterfaceView)
    requires
        ifaces.valid(),
    ensures
        ({
            let next = ifaces.pushed(iface);
            &&& forall|i: int|
                0 <= i < next.kernel_ifaces.len() ==> is_kernel_listed(
                    next.insert_order,
                    (#[trigger] next.kernel_ifaces[i]).0,
                )
            &&& forall|i: int|
                0 <= i < next.user_ifaces.len() ==> (#[trigger] next.user_ifaces[i]).0.1.userspace()
                    && next.insert_order.contains(next.user_ifaces[i].0)
        }),
{
    let key = if iface.base.iface_type.userspace() {
        (iface.base.name, iface.base.iface_type)
    } else {
        (iface.base.key_name(), iface.base.iface_type)
    };
    let next = ifaces.pushed(iface);
    lemma_lookup_entry(ifaces.kernel_ifaces, key.0);
    lemma_lookup_entry(ifaces.user_ifaces, key);
    let last = next.insert_order.len() - 1;
    assert forall|i: int| 0 <= i < next.kernel_ifaces.len() implies is_kernel_listed(
        next.insert_order,
        (#[trigger] next.kernel_ifaces[i]).0,
    ) by {
        if i < ifaces.kernel_ifaces.len() {
            assert(next.kernel_ifaces[i].0 == ifaces.kernel_ifaces[i].0);
            assert(is_kernel_listed(ifaces.insert_order, ifaces.kernel_ifaces[i].0));
            let j = choose|j: int|
                0 <= j < ifaces.insert_order.len() && !(
                #[trigger] ifaces.insert_order[j]).1.userspace() && ifaces.insert_order[j].0
                    == ifaces.kernel_ifaces[i].0;
            assert(next.insert_order[j] == ifaces.insert_order[j]);
        } else {
            assert(next.insert_order[last] == key);
        }
    }
    assert forall|i: int| 0 <= i < next.user_ifaces.len() implies (
    #[trigger] next.user_ifaces[i]).0.1.userspace() && next.insert_order.contains(
        next.user_ifaces[i].0,
    ) by {
        if i < ifaces.user_ifaces.len() {
            assert(next.user_ifaces[i].0 == ifaces.user_ifaces[i].0);
            assert(ifaces.insert_order.contains(ifaces.user_ifaces[i].0));
            let j = choose|j: int|
                0 <= j < ifaces.insert_order.len() && ifaces.insert_order[j]
                    == ifaces.user_ifaces[i].0;
            assert(next.insert_order[j] == ifaces.insert_order[j]);
        } else {
            assert(next.insert_order[last] == key);
        }
    }
}

/// No interfaces are valid, and adding a list of them to valid ones leaves them
/// valid: whatever [Interfaces::new] is given, its result is.
pub proof fn law_new_valid(ifaces: InterfacesView, list: Seq<InterfaceView>, i: int)
    requires
        ifaces.valid(),
        0 <= i,
    ensures
        InterfacesView::none().valid(),
        ifaces.pushed_from(list, i).valid(),
    decreases list.len() - i,
{
    if i < list.len() {
        law_pushed(ifaces, list[i], Seq::empty(), InterfaceType::Unknown);
        law_new_valid(ifaces.pushed(list[i]), list, i + 1);
    }
}

/// A value that is replaced under its key keeps interfaces valid.
proof fn lemma_replaced(ifaces: InterfacesView, base: BaseInterfaceView, iface: InterfaceView)
    requires
        ifaces.valid(),
        ifaces.find_same(base) is Some,
    ensures
        ifaces.replaced(base, iface).valid(),
        ifaces.replaced(base, iface).insert_order == ifaces.insert_order,
{
    let key = (base.name, base.iface_type);
    let next = ifaces.replaced(base, iface);
    lemma_lookup_entry(ifaces.kernel_ifaces, base.key_name());
    lemma_lookup_entry(ifaces.user_ifaces, key);
    keymap::law_inserted(ifaces.kernel_ifaces, base.key_name(), iface, Seq::empty());
    keymap::law_inserted(ifaces.user_ifaces, key, iface, key);
    assert forall|i: int| 0 <= i < next.insert_order.len() implies next.find(
        (#[trigger] next.insert_order[i]).0,
        next.insert_order[i].1,
    ) is Some by {
        let other = ifaces.insert_order[i];
        keymap::law_inserted(ifaces.kernel_ifaces, base.key_name(), iface, other.0);
        keymap::law_inserted(ifaces.user_ifaces, key, iface, other);
        assert(ifaces.find(other.0, other.1) is Some);
    }
    assert forall|i: int| 0 <= i < next.kernel_ifaces.len() implies is_kernel_listed(
        next.insert_order,
        (#[trigger] next.kernel_ifaces[i]).0,
    ) by {
        assert(is_kernel_listed(ifaces.insert_order, ifaces.kernel_ifaces[i].0));
    }
    assert forall|i: int| 0 <= i < next.user_ifaces.len() implies (
    #[trigger] next.user_ifaces[i]).0.1.userspace() && next.insert_order.contains(
        next.user_ifaces[i].0,
    ) by {
        assert(ifaces.insert_order.contains(ifaces.user_ifaces[i].0));
    }
}

/// Merging interfaces into valid ones leaves them valid, and none of them is
/// lost: what was found under a key before is found there afterwards.
pub proof fn law_merged_valid(
    ifaces: InterfacesView,
    list: Seq<InterfaceView>,
    i: int,
    name: Seq<char>,
    iface_type: InterfaceType,
)
    requires
        ifaces.valid(),
        0 <= i,
    ensures
        ifaces.merged_from(list, i).valid(),
        ifaces.find(name, iface_type) is Some ==> ifaces.merged_from(list, i).find(
            name,
            iface_type,
        ) is Some,
    decreases list.len() - i,
{
    if i < list.len() {
        let base = list[i].base;
        match ifaces.find_same(base) {
            Some(old) => {
                let iface = list[i].over(old, old);
                let key = (base.name, base.iface_type);
                lemma_replaced(ifaces, base, iface);
                keymap::law_inserted(ifaces.kernel_ifaces, base.key_name(), iface, name);
                keymap::law_inserted(ifaces.user_ifaces, key, iface, (name, iface_type));
                law_merged_valid(ifaces.replaced(base, iface), list, i + 1, name, iface_type);
            },
            None => {
                law_pushed(ifaces, list[i], name, iface_type);
                law_merged_valid(ifaces.pushed(list[i]), list, i + 1, name, iface_type);
            },
        }
    }
}

/// Listing valid interfaces gives each of them once, in the order in which
/// they were added.
pub proof fn law_list(ifaces: InterfacesView)
    requires
        ifaces.valid(),
    ensures
        ifaces.list().len() == ifaces.insert_order.len(),
        forall|i: int|
            0 <= i < ifaces.insert_order.len() ==> ifaces.find(
                (#[trigger] ifaces.insert_order[i]).0,
                ifaces.insert_order[i].1,
            ) == Some(ifaces.list()[i]),
{
    lemma_list_from(ifaces, 0, Seq::empty());
    assert forall|i: int| 0 <= i < ifaces.insert_order.len() implies ifaces.find(
        (#[trigger] ifaces.insert_order[i]).0,
        ifaces.insert_order[i].1,
    ) == Some(ifaces.list()[i]) by {
        assert(ifaces.list()[0 + i] == ifaces.find(
            ifaces.insert_order[0 + i].0,
            ifaces.insert_order[0 + i].1,
        )->0);
    }
}

/// Listing valid interfaces from `i` on appends each of them to `acc`.
proof fn lemma_list_from(ifaces: InterfacesView, i: int, acc: Seq<InterfaceView>)
    requires
        ifaces.valid(),
        0 <= i <= ifaces.insert_order.len(),
    ensures
        ifaces.list_from(i, acc).len() == acc.len() + ifaces.insert_order.len() - i,
        forall|j: int| 0 <= j < acc.len() ==> ifaces.list_from(i, acc)[j] == acc[j],
        forall|j: int|
            0 <= j < ifaces.insert_order.len() - i ==> #[trigger] ifaces.list_from(
                i,
                acc,
            )[acc.len() + j] == ifaces.find(
                ifaces.insert_order[i + j].0,
                ifaces.insert_order[i + j].1,
            )->0,
    decreases ifaces.insert_order.len() - i,
{
    if i < ifaces.insert_order.len() {
        let key = ifaces.insert_order[i];
        assert(ifaces.find(key.0, key.1) is Some);
        let iface = ifaces.find(key.0, key.1)->0;
        lemma_list_from(ifaces, i + 1, acc.push(iface));
        let all = ifaces.list_from(i, acc);
        assert(all == ifaces.list_from(i + 1, acc.push(iface)));
        assert forall|j: int| 0 <= j < acc.len() implies all[j] == acc[j] by {
            assert(acc.push(iface)[j] == acc[j]);
        }
        assert forall|j: int|
            0 <= j < ifaces.insert_order.len() - i implies #[trigger] all[acc.len() + j]
            == ifaces.find(ifaces.insert_order[i + j].0, ifaces.insert_order[i + j].1)->0 by {
            if j > 0 {
                assert(all[acc.push(iface).len() + (j - 1)] == ifaces.find(
                    ifaces.insert_order[i + 1 + (j - 1)].0,
                    ifaces.insert_order[i + 1 + (j - 1)].1,
                )->0);
            } else {
                assert(all[acc.len() as int] == acc.push(iface)[acc.len() as int]);
            }
        }
    }
}

/// Taking virtual cables as Ethernet interfaces twice is the same as once.
pub proof fn law_veth_unified(ifaces: InterfacesView)
    ensures
        ifaces.veth_unified().veth_unified() == ifaces.veth_unified(),
{
    let once = ifaces.veth_unified();
    assert(once.veth_unified().kernel_ifaces =~= once.kernel_ifaces);
    assert(once.veth_unified().user_ifaces =~= once.user_ifaces);
}

/// A MAC address finds the same interfaces however its letters are cased.
pub proof fn law_mac_case(search: IfaceSearchView, a: Seq<char>, b: Seq<char>)
    requires
        text::ascii_upper(a) == text::ascii_upper(b),
    ensures
        search.macs(a) == search.macs(b),
{
}

/// Adding an interface keeps every interface under its own key.
proof fn lemma_pushed_keyed(ifaces: InterfacesView, iface: InterfaceView)
    requires
        ifaces.keyed(),
    ensures
        ifaces.pushed(iface).keyed(),
{
    let next = ifaces.pushed(iface);
    lemma_lookup_entry(ifaces.kernel_ifaces, iface.base.key_name());
    lemma_lookup_entry(ifaces.user_ifaces, (iface.base.name, iface.base.iface_type));
    assert forall|i: int| 0 <= i < next.kernel_ifaces.len() implies {
        let base = (#[trigger] next.kernel_ifaces[i]).1.base;
        !base.iface_type.userspace() && base.key_name() == next.kernel_ifaces[i].0
    } by {
        if i < ifaces.kernel_ifaces.len() {
            let base = ifaces.kernel_ifaces[i].1.base;
            assert(!base.iface_type.userspace());
        }
    }
    assert forall|i: int| 0 <= i < next.user_ifaces.len() implies {
        let base = (#[trigger] next.user_ifaces[i]).1.base;
        base.iface_type.userspace() && (base.name, base.iface_type) == next.user_ifaces[i].0
    } by {
        if i < ifaces.user_ifaces.len() {
            let base = ifaces.user_ifaces[i].1.base;
            assert(base.iface_type.userspace());
        }
    }
}

/// Whatever list [Interfaces::new] is given, it keeps every interface under its
/// own key.
pub proof fn law_new_keyed(ifaces: InterfacesView, list: Seq<InterfaceView>, i: int)
    requires
        ifaces.keyed(),
        0 <= i,
    ensures
        InterfacesView::none().keyed(),
        ifaces.pushed_from(list, i).keyed(),
    decreases list.len() - i,
{
    if i < list.len() {
        lemma_pushed_keyed(ifaces, list[i]);
        law_new_keyed(ifaces.pushed(list[i]), list, i + 1);
    }
}

/// Interfaces of which each is found as it is differ in nothing.
proof fn lemma_no_diff_from(
    acc: InterfacesView,
    list: Seq<InterfaceView>,
    old_ifaces: InterfacesView,
    i: int,
)
    requires
        0 <= i,
        forall|j: int|
            0 <= j < list.len() ==> old_ifaces.find_same((#[trigger] list[j]).base) == Some(
                list[j],
            ),
    ensures
        acc.diff_pushed_from(list, old_ifaces, i) == acc,
    decreases list.len() - i,
{
    if i < list.len() {
        assert(old_ifaces.find_same(list[i].base) == Some(list[i]));
        iface::law_no_difference(list[i]);
        lemma_no_diff_from(acc, list, old_ifaces, i + 1);
    }
}

/// Interfaces do not differ from themselves: the difference is empty.
pub proof fn law_no_difference(ifaces: InterfacesView)
    requires
        ifaces.valid(),
        ifaces.keyed(),
    ensures
        ifaces.diff_from(ifaces) == InterfacesView::none(),
{
    let list = ifaces.list();
    law_list(ifaces);
    assert forall|j: int| 0 <= j < list.len() implies ifaces.find_same((#[trigger] list[j]).base)
        == Some(list[j]) by {
        let key = ifaces.insert_order[j];
        assert(ifaces.find(key.0, key.1) == Some(list[j]));
        lemma_lookup_entry(ifaces.kernel_ifaces, key.0);
        lemma_lookup_entry(ifaces.user_ifaces, key);
        if key.1.userspace() {
            let base = ifaces.user_ifaces[keymap::entry(ifaces.user_ifaces, key)].1.base;
            assert(base.iface_type.userspace());
        } else {
            let base = ifaces.kernel_ifaces[keymap::entry(ifaces.kernel_ifaces, key.0)].1.base;
            assert(!base.iface_type.userspace());
        }
    }
    lemma_no_diff_from(InterfacesView::none(), list, ifaces, 0);
}

/// The key that an interface is kept under.
pub open spec fn place_of(iface: InterfaceView) -> (Seq<char>, InterfaceType) {
    if iface.base.iface_type.userspace() {
        (iface.base.name, iface.base.iface_type)
    } else {
        (iface.base.key_name(), iface.base.iface_type)
    }
}

/// Whether every interface of the list has a key of its own.
pub open spec fn places_distinct(list: Seq<InterfaceView>) -> bool {
    forall|i: int, j: int|
        0 <= i < j < list.len() ==> !same_place(
            place_of(#[trigger] list[i]),
            place_of(#[trigger] list[j]),
        )
}

/// Interfaces with keys of their own are added one after the other.
proof fn lemma_pushed_order(ifaces: InterfacesView, list: Seq<InterfaceView>, i: int)
    requires
        0 <= i <= list.len(),
        places_distinct(list),
        ifaces.valid(),
        ifaces.insert_order.len() == i,
        forall|j: int|
            0 <= j < i ==> (#[trigger] ifaces.insert_order[j]) == place_of(list[j])
                && ifaces.find(ifaces.insert_order[j].0, ifaces.insert_order[j].1) == Some(
                registered(list[j]),
            ),
    ensures
        ({
            let all = ifaces.pushed_from(list, i);
            &&& all.valid()
            &&& all.insert_order.len() == list.len()
            &&& forall|j: int|
                0 <= j < list.len() ==> (#[trigger] all.insert_order[j]) == place_of(list[j])
                    && all.find(all.insert_order[j].0, all.insert_order[j].1) == Some(
                    registered(list[j]),
                )
        }),
    decreases list.len() - i,
{
    if i < list.len() {
        let next = ifaces.pushed(list[i]);
        let place = place_of(list[i]);
        assert(ifaces.find(place.0, place.1) is None) by {
            lemma_lookup_entry(ifaces.kernel_ifaces, place.0);
            lemma_lookup_entry(ifaces.user_ifaces, place);
            if ifaces.find(place.0, place.1) is Some {
                if place.1.userspace() {
                    let k = keymap::entry(ifaces.user_ifaces, place);
                    assert(ifaces.insert_order.contains(ifaces.user_ifaces[k].0));
                    let j = ifaces.insert_order.index_of(place);
                    assert(ifaces.insert_order[j] == place_of(list[j]));
                } else {
                    let k = keymap::entry(ifaces.kernel_ifaces, place.0);
                    assert(is_kernel_listed(ifaces.insert_order, ifaces.kernel_ifaces[k].0));
                    let j = choose|j: int|
                        0 <= j < ifaces.insert_order.len() && !(
                        #[trigger] ifaces.insert_order[j]).1.userspace()
                            && ifaces.insert_order[j].0 == place.0;
                    assert(ifaces.insert_order[j] == place_of(list[j]));
                }
            }
        }
        law_pushed(ifaces, list[i], place.0, place.1);
        assert forall|j: int| 0 <= j < i + 1 implies (#[trigger] next.insert_order[j])
            == place_of(list[j]) && next.find(next.insert_order[j].0, next.insert_order[j].1)
            == Some(registered(list[j])) by {
            if j < i {
                let other = ifaces.insert_order[j];
                assert(other == place_of(list[j]));
                law_pushed(ifaces, list[i], other.0, other.1);
                assert(!same_place(place_of(list[j]), place_of(list[i])));
            }
        }
        lemma_pushed_order(next, list, i + 1);
    }
}

/// A list of interfaces with keys of their own is kept in its order: they are
/// listed again one by one.
pub proof fn law_new_keeps_order(list: Seq<InterfaceView>)
    requires
        places_distinct(list),
    ensures
        ({
            let all = InterfacesView::none().pushed_from(list, 0).list();
            &&& all.len() == list.len()
            &&& forall|i: int| 0 <= i < list.len() ==> all[i] == registered(#[trigger] list[i])
        }),
{
    let none = InterfacesView::none();
    lemma_pushed_order(none, list, 0);
    let ifaces = none.pushed_from(list, 0);
    law_list(ifaces);
    assert forall|i: int| 0 <= i < list.len() implies ifaces.list()[i] == registered(
        #[trigger] list[i],
    ) by {
        let key = ifaces.insert_order[i];
        assert(ifaces.find(key.0, key.1) == Some(ifaces.list()[i]));
    }
}

} // verus!
