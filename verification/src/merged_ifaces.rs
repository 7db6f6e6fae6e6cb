//! All interfaces: desired, current and saved, merged.

use vstd::prelude::*;

use crate::iface::{Interface, InterfaceType, InterfaceView};
use crate::ifaces;
use crate::ifaces::{IfaceSearch, IfaceSearchView, Interfaces, InterfacesView};
use crate::keymap;
use crate::keymap::KeyMap;
use crate::merged_iface;
use crate::merged_iface::{MergedInterface, MergedInterfaceView};
use crate::order;
use crate::order::{Keyed, sort};
use crate::value::{Value, contains, empty_list, push};
use crate::wifi;
use crate::wifi::find_connected_wifi_phy_for_cfg;

verus! {

/// What an apply does with all interfaces.
#[derive(Clone, Debug, PartialEq, Eq)]
pub struct MergedInterfaces {
    /// Interfaces that the kernel has, by their name in the kernel.
    pub kernel_ifaces: KeyMap<String, MergedInterface>,
    /// Interfaces that the kernel does not have, by name and type.
    pub user_ifaces: KeyMap<(String, InterfaceType), MergedInterface>,
    /// The keys of the interfaces in the order in which they were added.
    pub insert_order: Vec<(String, InterfaceType)>,
    /// The interfaces before the apply.
    pub current: Interfaces,
    /// Where the merged interfaces are found.
    pub iface_search: IfaceSearch,
}

/// What a [MergedInterfaces] stands for.
#[verifier::ext_equal]
pub struct MergedInterfacesView {
    pub kernel_ifaces: Seq<(Seq<char>, MergedInterfaceView)>,
    pub user_ifaces: Seq<((Seq<char>, InterfaceType), MergedInterfaceView)>,
    pub insert_order: Seq<(Seq<char>, InterfaceType)>,
    pub current: InterfacesView,
    pub iface_search: IfaceSearchView,
}

impl View for MergedInterfaces {
    type V = MergedInterfacesView;

    open spec fn view(&self) -> MergedInterfacesView {
        MergedInterfacesView {
            kernel_ifaces: self.kernel_ifaces.deep_view(),
            user_ifaces: self.user_ifaces.deep_view(),
            insert_order: self.insert_order.deep_view(),
            current: self.current.deep_view(),
            iface_search: self.iface_search.deep_view(),
        }
    }
}

impl DeepView for MergedInterfaces {
    type V = MergedInterfacesView;

    open spec fn deep_view(&self) -> MergedInterfacesView {
        self@
    }
}

impl Value for MergedInterfaces {
    fn dup(&self) -> (res: Self) {
        MergedInterfaces {
            kernel_ifaces: self.kernel_ifaces.dup(),
            user_ifaces: self.user_ifaces.dup(),
            insert_order: self.insert_order.dup(),
            current: self.current.dup(),
            iface_search: self.iface_search.dup(),
        }
    }

    fn same(&self, other: &Self) -> (res: bool) {
        self.kernel_ifaces.same(&other.kernel_ifaces) && self.user_ifaces.same(&other.user_ifaces) && self.insert_order.same(&other.insert_order) && self.current.same(&other.current) && self.iface_search.same(&other.iface_search)
    }
}

/// An interface with its place in the order of applying.
#[derive(Clone, Debug, PartialEq, Eq)]
pub struct RankedInterface {
    pub absent: bool,
    pub priority: u32,
    pub iface: Interface,
}

/// What a [RankedInterface] stands for.
#[verifier::ext_equal]
pub struct RankedInterfaceView {
    pub absent: bool,
    pub priority: u32,
    pub iface: InterfaceView,
}

impl View for RankedInterface {
    type V = RankedInterfaceView;

    open spec fn view(&self) -> RankedInterfaceView {
        RankedInterfaceView {
            absent: self.absent.deep_view(),
            priority: self.priority.deep_view(),
            iface: self.iface.deep_view(),
        }
    }
}

impl DeepView for RankedInterface {
    type V = RankedInterfaceView;

    open spec fn deep_view(&self) -> RankedInterfaceView {
        self@
    }
}

impl Value for RankedInterface {
    fn dup(&self) -> (res: Self) {
        RankedInterface {
            absent: self.absent.dup(),
            priority: self.priority.dup(),
            iface: self.iface.dup(),
        }
    }

    fn same(&self, other: &Self) -> (res: bool) {
        self.absent.same(&other.absent) && self.priority.same(&other.priority) && self.iface.same(&other.iface)
    }
}

impl Keyed for RankedInterface {
    open spec fn before(a: RankedInterfaceView, b: RankedInterfaceView) -> bool {
        if a.absent != b.absent {
            a.absent
        } else {
            a.priority < b.priority
        }
    }

    open spec fn same_key(a: RankedInterfaceView, b: RankedInterfaceView) -> bool {
        a.absent == b.absent && a.priority == b.priority
    }

    proof fn law_total(a: RankedInterfaceView, b: RankedInterfaceView) {
    }

    proof fn law_transitive(a: RankedInterfaceView, b: RankedInterfaceView, c: RankedInterfaceView) {
    }

    proof fn law_same_key(a: RankedInterfaceView, b: RankedInterfaceView, c: RankedInterfaceView) {
    }

    fn is_before(&self, other: &Self) -> (res: bool) {
        if self.absent != other.absent {
            self.absent
        } else {
            self.priority < other.priority
        }
    }

    fn has_same_key(&self, other: &Self) -> (res: bool) {
        self.absent == other.absent && self.priority == other.priority
    }
}

/// The key of a saved interface of the kernel: its name in the kernel, else
/// the name of its profile, else its name.
pub open spec fn saved_key(saved: InterfaceView) -> Seq<char> {
    if saved.base.kernel_iface_name.len() > 0 {
        saved.base.kernel_iface_name
    } else if saved.base.profile_name is Some {
        saved.base.profile_name->0
    } else {
        saved.base.name
    }
}

/// An interface that is there already keeps what it has, and what is saved
/// when it neither is applied nor saved.
pub open spec fn with_saved(
    existing: MergedInterfaceView,
    saved: Option<InterfaceView>,
) -> MergedInterfaceView {
    if existing.for_apply is None && existing.for_save is None {
        MergedInterfaceView { for_save: saved, ..existing }
    } else {
        existing
    }
}

/// Which part of a merged interface is listed.
pub enum Part {
    /// What is applied.
    Apply,
    /// What is saved.
    Save,
    /// The merged interface.
    Merged,
}

/// The part of a merged interface.
pub open spec fn part_of(iface: MergedInterfaceView, part: Part) -> Option<InterfaceView> {
    match part {
        Part::Apply => iface.for_apply,
        Part::Save => iface.for_save,
        Part::Merged => Some(iface.merged),
    }
}

/// `acc` with the parts of the interfaces from `i` on that have one.
pub open spec fn ranked_from(
    list: Seq<MergedInterfaceView>,
    part: Part,
    i: int,
    acc: Seq<RankedInterfaceView>,
) -> Seq<RankedInterfaceView>
    decreases list.len() - i,
{
    if i < 0 || i >= list.len() {
        acc
    } else {
        match part_of(list[i], part) {
            Some(iface) => ranked_from(
                list,
                part,
                i + 1,
                acc.push(
                    RankedInterfaceView {
                        absent: list[i].merged.base.state is Absent,
                        priority: list[i].up_priority.unwrap_or(0),
                        iface,
                    },
                ),
            ),
            None => ranked_from(list, part, i + 1, acc),
        }
    }
}

/// The interfaces of a ranked list.
pub open spec fn ranked_ifaces(list: Seq<RankedInterfaceView>) -> Seq<InterfaceView> {
    Seq::new(list.len(), |i: int| list[i].iface)
}

/// Whether the merged interface is a WIFI configuration to bring up that is
/// called `name`, or whose network is.
pub open spec fn is_wifi_cfg_called(iface: MergedInterfaceView, name: Seq<char>) -> bool {
    &&& iface.merged.base.iface_type is WifiCfg
    &&& iface.merged.base.state is Up
    &&& iface.merged.base.name == name || (iface.merged.wifi is Some && iface.merged.wifi->0.ssid
        == name)
}

/// The name in the kernel of the WIFI device that is connected to the network
/// of the first WIFI configuration from `i` on that is called `name`.
pub open spec fn wifi_next_hop_from(
    user_ifaces: Seq<((Seq<char>, InterfaceType), MergedInterfaceView)>,
    current: InterfacesView,
    name: Seq<char>,
    i: int,
) -> Option<Seq<char>>
    decreases user_ifaces.len() - i,
{
    if i < 0 || i >= user_ifaces.len() {
        None
    } else {
        match wifi::connected_phy(current, user_ifaces[i].1.merged) {
            Some(phy) if is_wifi_cfg_called(user_ifaces[i].1, name) => Some(
                phy.base.kernel_iface_name,
            ),
            _ => wifi_next_hop_from(user_ifaces, current, name, i + 1),
        }
    }
}

/// The values of a map.
pub open spec fn values<K, V>(map: Seq<(K, V)>) -> Seq<V> {
    Seq::new(map.len(), |i: int| map[i].1)
}

impl MergedInterfacesView {
    /// No interfaces.
    pub open spec fn none() -> MergedInterfacesView {
        MergedInterfacesView {
            kernel_ifaces: Seq::empty(),
            user_ifaces: Seq::empty(),
            insert_order: Seq::empty(),
            current: InterfacesView::none(),
            iface_search: IfaceSearchView::none(),
        }
    }

    /// All merged interfaces, those of the kernel first.
    pub open spec fn all(self) -> Seq<MergedInterfaceView> {
        values(self.kernel_ifaces) + values(self.user_ifaces)
    }

    /// All merged interfaces in the order of verifying: those that the kernel
    /// does not have first.
    pub open spec fn to_verify(self) -> Seq<MergedInterfaceView> {
        values(self.user_ifaces) + values(self.kernel_ifaces)
    }

    /// The merged interface with the given key.
    pub open spec fn find(self, name: Seq<char>, iface_type: InterfaceType) -> Option<
        MergedInterfaceView,
    > {
        if iface_type.userspace() {
            keymap::lookup(self.user_ifaces, (name, iface_type))
        } else {
            keymap::lookup(self.kernel_ifaces, name)
        }
    }

    /// The interfaces with a saved one that is neither desired nor present.
    /// One that is there already keeps what it has.
    pub open spec fn saved_pushed(
        self,
        iface: MergedInterfaceView,
        saved: InterfaceView,
    ) -> MergedInterfacesView {
        if saved.base.iface_type.userspace() {
            let key = (saved.base.name, saved.base.iface_type);
            match keymap::lookup(self.user_ifaces, key) {
                Some(existing) => MergedInterfacesView {
                    user_ifaces: keymap::inserted(
                        self.user_ifaces,
                        key,
                        with_saved(existing, iface.for_save),
                    ),
                    ..self
                },
                None => MergedInterfacesView {
                    user_ifaces: keymap::inserted(self.user_ifaces, key, iface),
                    insert_order: self.insert_order.push(key),
                    ..self
                },
            }
        } else {
            let key = saved_key(saved);
            match keymap::lookup(self.kernel_ifaces, key) {
                Some(existing) => MergedInterfacesView {
                    kernel_ifaces: keymap::inserted(
                        self.kernel_ifaces,
                        key,
                        with_saved(existing, iface.for_save),
                    ),
                    ..self
                },
                None => MergedInterfacesView {
                    kernel_ifaces: keymap::inserted(self.kernel_ifaces, key, iface),
                    insert_order: self.insert_order.push((key, saved.base.iface_type)),
                    ..self
                },
            }
        }
    }

    /// The interfaces with one more.
    pub open spec fn pushed(self, iface: MergedInterfaceView) -> MergedInterfacesView {
        let base = iface.merged.base;
        if base.name.len() == 0 && iface.for_save is Some {
            self.saved_pushed(iface, iface.for_save->0)
        } else if base.iface_type.userspace() {
            let key = (base.name, base.iface_type);
            MergedInterfacesView {
                user_ifaces: keymap::inserted(self.user_ifaces, key, iface),
                insert_order: self.insert_order.push(key),
                ..self
            }
        } else {
            let key = base.kernel_iface_name;
            MergedInterfacesView {
                kernel_ifaces: keymap::inserted(self.kernel_ifaces, key, iface),
                insert_order: self.insert_order.push((key, base.iface_type)),
                ..self
            }
        }
    }

    /// A part of all interfaces in the order of applying: first those to
    /// delete, then by priority.
    pub open spec fn parts(self, part: Part) -> InterfacesView {
        InterfacesView::none().pushed_from(
            ranked_ifaces(
                order::sorted::<RankedInterface>(
                    ranked_from(self.all(), part, 0, Seq::empty()),
                ),
            ),
            0,
        )
    }

    /// The name in the kernel of the interface that a route through `name`
    /// takes: of a kernel interface or a profile, or of the WIFI device that is
    /// connected to the network of a WIFI configuration.
    pub open spec fn next_hop(self, name: Seq<char>) -> Option<Seq<char>> {
        match self.iface_search.kernel_name(name) {
            Some(kernel_name) => Some(kernel_name),
            None => wifi_next_hop_from(self.user_ifaces, self.current, name, 0),
        }
    }

    /// Whether `name` is a WIFI configuration to bring up that no WIFI device
    /// is connected to the network of.
    pub open spec fn pending_wifi(self, name: Seq<char>) -> bool {
        exists|i: int|
            0 <= i < self.user_ifaces.len() && is_wifi_cfg_called(
                (#[trigger] self.user_ifaces[i]).1,
                name,
            ) && wifi::connected_phy(self.current, self.user_ifaces[i].1.merged) is None
    }

    /// With every secret replaced.
    pub open spec fn secrets_hidden(self) -> MergedInterfacesView {
        MergedInterfacesView {
            kernel_ifaces: hidden_values(self.kernel_ifaces),
            user_ifaces: hidden_values(self.user_ifaces),
            ..self
        }
    }

    /// With those marked that are deleted and created again.
    pub open spec fn deletes_marked(self) -> MergedInterfacesView {
        MergedInterfacesView {
            kernel_ifaces: Seq::new(
                self.kernel_ifaces.len(),
                |i: int| (self.kernel_ifaces[i].0, delete_marked(self.kernel_ifaces[i].1)),
            ),
            ..self
        }
    }
}

/// The map with every secret replaced.
pub open spec fn hidden_values<K>(map: Seq<(K, MergedInterfaceView)>) -> Seq<
    (K, MergedInterfaceView),
> {
    Seq::new(map.len(), |i: int| (map[i].0, map[i].1.secrets_hidden()))
}

/// The interface, marked when it is deleted and created again.
pub open spec fn delete_marked(iface: MergedInterfaceView) -> MergedInterfaceView {
    if iface.merged.base.state is Up && iface.recreated() {
        MergedInterfaceView { will_delete: true, ..iface }
    } else {
        iface
    }
}

/// Replaces every secret in the map.
fn hide_values<K: Value>(map: &mut KeyMap<K, MergedInterface>)
    ensures
        final(map)@ == hidden_values(old(map)@),
{
    let ghost start = map@;
    let mut i: usize = 0;
    while i < map.len()
        invariant
            i <= map@.len(),
            map@.len() == start.len(),
            start == old(map)@,
            forall|j: int|
                0 <= j < i ==> #[trigger] map@[j] == (start[j].0, start[j].1.secrets_hidden()),
            forall|j: int| i <= j < start.len() ==> #[trigger] map@[j] == start[j],
        decreases map@.len() - i,
    {
        let mut iface = map.value_at(i).dup();
        iface.hide_secrets();
        map.set_value(i, iface);
        i = i + 1;
    }
    assert(map@ =~= hidden_values(start));
}

/// The interface with what is saved, where it neither is applied nor saved.
fn keep_saved(existing: &MergedInterface, saved: &Option<Interface>) -> (res: MergedInterface)
    ensures
        res@ == with_saved(existing@, saved.deep_view()),
{
    let mut res = existing.dup();
    if res.for_apply.is_none() && res.for_save.is_none() {
        res.for_save = saved.dup();
    }
    res
}

impl Default for MergedInterfaces {
    fn default() -> (res: Self)
        ensures
            res@ == MergedInterfacesView::none(),
    {
        MergedInterfaces {
            kernel_ifaces: KeyMap::new(),
            user_ifaces: KeyMap::new(),
            insert_order: empty_list(),
            current: Interfaces::default(),
            iface_search: IfaceSearch::empty(),
        }
    }
}

impl MergedInterfaces {
    /// Replaces every secret.
    pub fn hide_secrets(&mut self)
        ensures
            final(self)@ == old(self)@.secrets_hidden(),
    {
        hide_values(&mut self.kernel_ifaces);
        hide_values(&mut self.user_ifaces);
    }

    /// All merged interfaces, those of the kernel first.
    pub fn iter(&self) -> (res: Vec<&MergedInterface>)
        ensures
            res.deep_view() == self@.all(),
    {
        let ghost kernel = self.kernel_ifaces@;
        let ghost user = self.user_ifaces@;
        let mut res: Vec<&MergedInterface> = empty_list();
        let mut i: usize = 0;
        assert(res.deep_view() =~= values(kernel).subrange(0, 0));
        while i < self.kernel_ifaces.len()
            invariant
                i <= kernel.len(),
                kernel == self.kernel_ifaces@,
                res.deep_view() == values(kernel).subrange(0, i as int),
            decreases kernel.len() - i,
        {
            push(&mut res, self.kernel_ifaces.value_at(i));
            i = i + 1;
            assert(res.deep_view() =~= values(kernel).subrange(0, i as int));
        }
        assert(values(kernel).subrange(0, i as int) =~= values(kernel));
        let mut i: usize = 0;
        assert(res.deep_view() =~= values(kernel) + values(user).subrange(0, 0));
        while i < self.user_ifaces.len()
            invariant
                i <= user.len(),
                user == self.user_ifaces@,
                res.deep_view() == values(kernel) + values(user).subrange(0, i as int),
            decreases user.len() - i,
        {
            push(&mut res, self.user_ifaces.value_at(i));
            i = i + 1;
            assert(res.deep_view() =~= values(kernel) + values(user).subrange(0, i as int));
        }
        assert(values(user).subrange(0, i as int) =~= values(user));
        res
    }

    /// All merged interfaces, those that the kernel does not have first.
    pub(crate) fn list_to_verify(&self) -> (res: Vec<&MergedInterface>)
        ensures
            res.deep_view() == self@.to_verify(),
    {
        let ghost kernel = self.kernel_ifaces@;
        let ghost user = self.user_ifaces@;
        let mut res: Vec<&MergedInterface> = empty_list();
        let mut i: usize = 0;
        assert(res.deep_view() =~= values(user).subrange(0, 0));
        while i < self.user_ifaces.len()
            invariant
                i <= user.len(),
                user == self.user_ifaces@,
                res.deep_view() == values(user).subrange(0, i as int),
            decreases user.len() - i,
        {
            push(&mut res, self.user_ifaces.value_at(i));
            i = i + 1;
            assert(res.deep_view() =~= values(user).subrange(0, i as int));
        }
        assert(values(user).subrange(0, i as int) =~= values(user));
        let mut i: usize = 0;
        assert(res.deep_view() =~= values(user) + values(kernel).subrange(0, 0));
        while i < self.kernel_ifaces.len()
            invariant
                i <= kernel.len(),
                kernel == self.kernel_ifaces@,
                res.deep_view() == values(user) + values(kernel).subrange(0, i as int),
            decreases kernel.len() - i,
        {
            push(&mut res, self.kernel_ifaces.value_at(i));
            i = i + 1;
            assert(res.deep_view() =~= values(user) + values(kernel).subrange(0, i as int));
        }
        assert(values(kernel).subrange(0, i as int) =~= values(kernel));
        res
    }

    /// The merged interface with the given key.
    pub fn find(&self, name: &String, iface_type: InterfaceType) -> (res: Option<&MergedInterface>)
        ensures
            match res {
                Some(iface) => self@.find(name@, iface_type) == Some(iface@),
                None => self@.find(name@, iface_type) is None,
            },
    {
        if iface_type.is_userspace() {
            self.user_ifaces.get(&(name.dup(), iface_type))
        } else {
            self.kernel_ifaces.get(name)
        }
    }

    /// Adds a merged interface.
    ///
    /// An interface that is only saved has no merged state to take its key
    /// from, so the key comes from what is saved of it. When an interface of
    /// that key is there already, that one is kept, since its state is needed
    /// by the apply, and takes over what is saved unless it has it already.
    pub fn push(&mut self, merged_iface: MergedInterface)
        ensures
            final(self)@ == old(self)@.pushed(merged_iface@),
            final(self).insert_order.len() <= old(self).insert_order.len() + 1,
    {
        if merged_iface.name().is_empty() {
            if let Some(saved) = &merged_iface.for_save {
                if saved.is_userspace() {
                    let key = (saved.base.name.dup(), saved.base.iface_type);
                    let kept = match self.user_ifaces.get(&key) {
                        Some(existing) => Some(keep_saved(existing, &merged_iface.for_save)),
                        None => None,
                    };
                    match kept {
                        Some(kept) => self.user_ifaces.insert(key, kept),
                        None => {
                            push(&mut self.insert_order, key.dup());
                            self.user_ifaces.insert(key, merged_iface);
                        },
                    }
                } else {
                    let key = if !saved.base.kernel_iface_name.as_str().is_empty() {
                        saved.base.kernel_iface_name.dup()
                    } else if let Some(profile_name) = &saved.base.profile_name {
                        profile_name.dup()
                    } else {
                        saved.base.name.dup()
                    };
                    let kept = match self.kernel_ifaces.get(&key) {
                        Some(existing) => Some(keep_saved(existing, &merged_iface.for_save)),
                        None => None,
                    };
                    match kept {
                        Some(kept) => self.kernel_ifaces.insert(key, kept),
                        None => {
                            let iface_type = saved.base.iface_type;
                            push(&mut self.insert_order, (key.dup(), iface_type));
                            self.kernel_ifaces.insert(key, merged_iface);
                        },
                    }
                }
                return ;
            }
        }
        if merged_iface.is_userspace() {
            let key = merged_iface.merged.name_and_type();
            push(&mut self.insert_order, key.dup());
            self.user_ifaces.insert(key, merged_iface);
        } else {
            let key = merged_iface.merged.base.kernel_iface_name.dup();
            push(&mut self.insert_order, (key.dup(), merged_iface.iface_type()));
            self.kernel_ifaces.insert(key, merged_iface);
        }
    }

    /// A part of all interfaces in the order of applying.
    fn gen_parts(&self, part: Part) -> (res: Interfaces)
        ensures
            res@ == self@.parts(part),
    {
        let list = self.iter();
        let ghost views = list.deep_view();
        let mut ranked: Vec<RankedInterface> = empty_list();
        let mut i: usize = 0;
        while i < list.len()
            invariant
                i <= list.len(),
                views == list.deep_view(),
                ranked_from(views, part, 0, Seq::empty()) == ranked_from(
                    views,
                    part,
                    i as int,
                    ranked.deep_view(),
                ),
            decreases list.len() - i,
        {
            let merged_iface = list[i];
            assert(views[i as int] == merged_iface@);
            let iface = match part {
                Part::Apply => merged_iface.for_apply.dup(),
                Part::Save => merged_iface.for_save.dup(),
                Part::Merged => Some(merged_iface.merged.dup()),
            };
            if let Some(iface) = iface {
                push(
                    &mut ranked,
                    RankedInterface {
                        absent: merged_iface.is_absent(),
                        priority: merged_iface.up_priority.unwrap_or(0),
                        iface,
                    },
                );
            }
            i = i + 1;
        }
        let sorted = sort(&ranked);
        let ghost sorted_views = sorted.deep_view();
        let mut ifaces: Vec<Interface> = empty_list();
        let mut i: usize = 0;
        assert(ifaces.deep_view() =~= ranked_ifaces(sorted_views).subrange(0, 0));
        while i < sorted.len()
            invariant
                i <= sorted.len(),
                sorted_views == sorted.deep_view(),
                ifaces.deep_view() == ranked_ifaces(sorted_views).subrange(0, i as int),
            decreases sorted.len() - i,
        {
            assert(sorted_views[i as int] == sorted[i as int]@);
            push(&mut ifaces, sorted[i].iface.dup());
            i = i + 1;
            assert(ifaces.deep_view() =~= ranked_ifaces(sorted_views).subrange(0, i as int));
        }
        assert(ranked_ifaces(sorted_views).subrange(0, i as int) =~= ranked_ifaces(sorted_views));
        Interfaces::new(ifaces)
    }

    /// The interfaces to apply, those to delete first.
    pub fn gen_state_for_apply(&self) -> (res: Interfaces)
        ensures
            res@ == self@.parts(Part::Apply),
    {
        self.gen_parts(Part::Apply)
    }

    /// The interfaces to persist, those to delete first.
    pub fn gen_state_for_save(&self) -> (res: Interfaces)
        ensures
            res@ == self@.parts(Part::Save),
    {
        self.gen_parts(Part::Save)
    }

    /// The interfaces after the apply, those to delete first.
    pub fn gen_merged_state(&self) -> (res: Interfaces)
        ensures
            res@ == self@.parts(Part::Merged),
    {
        self.gen_parts(Part::Merged)
    }

    /// The name in the kernel of the interface that a route through `name`
    /// takes.
    pub fn resolve_route_next_hop_iface(&self, name: &String) -> (res: Option<String>)
        ensures
            res.deep_view() == self@.next_hop(name@),
    {
        if let Some(kernel_name) = self.iface_search.search_name(name) {
            return Some(kernel_name);
        }
        let mut i: usize = 0;
        while i < self.user_ifaces.len()
            invariant
                i <= self.user_ifaces@.len(),
                self@.next_hop(name@) == wifi_next_hop_from(
                    self.user_ifaces@,
                    self.current@,
                    name@,
                    i as int,
                ),
            decreases self.user_ifaces@.len() - i,
        {
            let merged_iface = self.user_ifaces.value_at(i);
            if is_wifi_cfg_named(merged_iface, name) {
                if let Some(phy) = find_connected_wifi_phy_for_cfg(
                    &self.current,
                    &merged_iface.merged,
                ) {
                    return Some(phy.base.kernel_iface_name);
                }
            }
            i = i + 1;
        }
        None
    }

    /// Whether `name` refers to an up `wifi-cfg` profile whose wifi-phy is
    /// not connected yet. Routes to such profiles are persisted and applied
    /// later by the wifi-phy link-up event instead of failing the apply.
    pub fn is_pending_wifi_cfg_route_target(&self, name: &String) -> (res: bool)
        ensures
            res == self@.pending_wifi(name@),
    {
        let ghost user = self.user_ifaces@;
        let mut i: usize = 0;
        while i < self.user_ifaces.len()
            invariant
                i <= user.len(),
                user == self.user_ifaces@,
                forall|j: int|
                    0 <= j < i ==> !(is_wifi_cfg_called((#[trigger] user[j]).1, name@)
                        && wifi::connected_phy(self.current@, user[j].1.merged) is None),
            decreases user.len() - i,
        {
            let merged_iface = self.user_ifaces.value_at(i);
            if is_wifi_cfg_named(merged_iface, name) {
                if find_connected_wifi_phy_for_cfg(&self.current, &merged_iface.merged).is_none() {
                    assert(self@.user_ifaces[i as int] == user[i as int]);
                    return true;
                }
            }
            i = i + 1;
        }
        assert(self@.user_ifaces == user);
        false
    }

    /// Marks the interfaces that are deleted and created again.
    pub fn mark_will_delete(&mut self)
        ensures
            final(self)@ == old(self)@.deletes_marked(),
    {
        let ghost start = self.kernel_ifaces@;
        let mut i: usize = 0;
        while i < self.kernel_ifaces.len()
            invariant
                i <= self.kernel_ifaces@.len(),
                self.kernel_ifaces@.len() == start.len(),
                start == old(self).kernel_ifaces@,
                self@ == (MergedInterfacesView { kernel_ifaces: self.kernel_ifaces@, ..old(self)@ }),
                forall|j: int|
                    0 <= j < i ==> #[trigger] self.kernel_ifaces@[j] == (
                        start[j].0,
                        delete_marked(start[j].1),
                    ),
                forall|j: int|
                    i <= j < start.len() ==> #[trigger] self.kernel_ifaces@[j] == start[j],
            decreases self.kernel_ifaces@.len() - i,
        {
            let iface = self.kernel_ifaces.value_at(i);
            if iface.merged.is_up() && iface.will_delete_before_apply() {
                let mut iface = iface.dup();
                iface.will_delete = true;
                self.kernel_ifaces.set_value(i, iface);
            }
            i = i + 1;
        }
        assert(self.kernel_ifaces@ =~= old(self)@.deletes_marked().kernel_ifaces);
    }
}

/// Whether the merged interface is a WIFI configuration to bring up that is
/// called `name`, or whose network is.
fn is_wifi_cfg_named(merged_iface: &MergedInterface, name: &String) -> (res: bool)
    ensures
        res == is_wifi_cfg_called(merged_iface@, name@),
{
    let iface = &merged_iface.merged;
    if iface.iface_type() != InterfaceType::WifiCfg || !iface.is_up() {
        return false;
    }
    if iface.base.name.same(name) {
        return true;
    }
    match &iface.wifi {
        Some(wifi) => wifi.ssid.same(name),
        None => false,
    }
}

/// Whether an interface is still there and keeps all it has, apart from what
/// is saved of it where nothing was.
pub open spec fn is_kept(
    before: Option<MergedInterfaceView>,
    after: Option<MergedInterfaceView>,
) -> bool {
    before is Some ==> {
        &&& after is Some
        &&& after->0 == MergedInterfaceView { for_save: after->0.for_save, ..before->0 }
        &&& before->0.for_save is Some ==> after->0.for_save == before->0.for_save
    }
}

/// Adding an interface that is only saved overwrites nothing: every interface
/// keeps what it applies, verifies and undoes, and what is saved of it.
pub proof fn law_saved_overwrites_nothing(
    ifaces: MergedInterfacesView,
    saved: InterfaceView,
    name: Seq<char>,
    iface_type: InterfaceType,
)
    ensures
        ({
            let after = ifaces.pushed(merged_iface::untouched(None, Some(saved)));
            is_kept(ifaces.find(name, iface_type), after.find(name, iface_type))
        }),
{
    let iface = merged_iface::untouched(None, Some(saved));
    let key = saved_key(saved);
    let user_key = (saved.base.name, saved.base.iface_type);
    let kernel_value = match keymap::lookup(ifaces.kernel_ifaces, key) {
        Some(existing) => with_saved(existing, Some(saved)),
        None => iface,
    };
    let user_value = match keymap::lookup(ifaces.user_ifaces, user_key) {
        Some(existing) => with_saved(existing, Some(saved)),
        None => iface,
    };
    keymap::law_inserted(ifaces.kernel_ifaces, key, kernel_value, name);
    keymap::law_inserted(ifaces.user_ifaces, user_key, user_value, (name, iface_type));
}

/// Saved configuration is not lost: after adding an interface that is only
/// saved, it is saved under its key, unless an interface is there that is
/// applied or saved itself.
pub proof fn law_saved_is_kept(ifaces: MergedInterfacesView, saved: InterfaceView)
    ensures
        ({
            let name = if saved.base.iface_type.userspace() {
                saved.base.name
            } else {
                saved_key(saved)
            };
            let before = ifaces.find(name, saved.base.iface_type);
            let after = ifaces.pushed(merged_iface::untouched(None, Some(saved))).find(
                name,
                saved.base.iface_type,
            );
            &&& after is Some
            &&& before is None || (before->0.for_apply is None && before->0.for_save is None)
                ==> after->0.for_save == Some(saved)
        }),
{
    let iface = merged_iface::untouched(None, Some(saved));
    let key = saved_key(saved);
    let user_key = (saved.base.name, saved.base.iface_type);
    let kernel_value = match keymap::lookup(ifaces.kernel_ifaces, key) {
        Some(existing) => with_saved(existing, Some(saved)),
        None => iface,
    };
    let user_value = match keymap::lookup(ifaces.user_ifaces, user_key) {
        Some(existing) => with_saved(existing, Some(saved)),
        None => iface,
    };
    keymap::law_inserted(ifaces.kernel_ifaces, key, kernel_value, key);
    keymap::law_inserted(ifaces.user_ifaces, user_key, user_value, user_key);
}

/// An interface with a name is found under its key after it was added, and no
/// other one moves.
pub proof fn law_pushed(
    ifaces: MergedInterfacesView,
    iface: MergedInterfaceView,
    name: Seq<char>,
    iface_type: InterfaceType,
)
    requires
        iface.merged.base.name.len() > 0,
    ensures
        ({
            let base = iface.merged.base;
            let key = if base.iface_type.userspace() {
                (base.name, base.iface_type)
            } else {
                (base.kernel_iface_name, base.iface_type)
            };
            &&& ifaces.pushed(iface).find(key.0, key.1) == Some(iface)
            &&& !ifaces::same_place((name, iface_type), key) ==> ifaces.pushed(iface).find(
                name,
                iface_type,
            ) == ifaces.find(name, iface_type)
        }),
{
    let base = iface.merged.base;
    keymap::law_inserted(ifaces.kernel_ifaces, base.kernel_iface_name, iface, name);
    keymap::law_inserted(
        ifaces.user_ifaces,
        (base.name, base.iface_type),
        iface,
        (name, iface_type),
    );
}

/// Replacing the secrets of all interfaces twice is the same as once.
pub proof fn law_secrets_hidden(ifaces: MergedInterfacesView)
    ensures
        ifaces.secrets_hidden().secrets_hidden() == ifaces.secrets_hidden(),
{
    let once = ifaces.secrets_hidden();
    assert forall|i: int| 0 <= i < once.kernel_ifaces.len() implies #[trigger] hidden_values(
        once.kernel_ifaces,
    )[i] == once.kernel_ifaces[i] by {
        merged_iface::law_secrets_hidden(ifaces.kernel_ifaces[i].1);
    }
    assert forall|i: int| 0 <= i < once.user_ifaces.len() implies #[trigger] hidden_values(
        once.user_ifaces,
    )[i] == once.user_ifaces[i] by {
        merged_iface::law_secrets_hidden(ifaces.user_ifaces[i].1);
    }
    assert(hidden_values(once.kernel_ifaces) =~= once.kernel_ifaces);
    assert(hidden_values(once.user_ifaces) =~= once.user_ifaces);
}

/// A route through the name of a kernel interface takes that interface.
pub proof fn law_next_hop(ifaces: MergedInterfacesView, name: Seq<char>)
    ensures
        ifaces.iface_search.kernel_names.contains(name) ==> ifaces.next_hop(name) == Some(name),
{
}

/// A part of all interfaces is listed in the order of applying, when each has a
/// key of its own: first those to delete, then by priority.
pub proof fn law_order_of_applying(ifaces: MergedInterfacesView, part: Part, i: int, j: int)
    requires
        ({
            let ranked = order::sorted::<RankedInterface>(
                ranked_from(ifaces.all(), part, 0, Seq::empty()),
            );
            ifaces::places_distinct(ranked_ifaces(ranked)) && 0 <= i < j < ranked.len()
        }),
    ensures
        ({
            let ranked = order::sorted::<RankedInterface>(
                ranked_from(ifaces.all(), part, 0, Seq::empty()),
            );
            let list = ifaces.parts(part).list();
            &&& list.len() == ranked.len()
            &&& list[i] == ifaces::registered(ranked[i].iface)
            &&& ranked[j].absent ==> ranked[i].absent
            &&& ranked[i].absent == ranked[j].absent ==> ranked[i].priority <= ranked[j].priority
        }),
{
    let ranked = order::sorted::<RankedInterface>(
        ranked_from(ifaces.all(), part, 0, Seq::empty()),
    );
    order::law_sorted::<RankedInterface>(ranked_from(ifaces.all(), part, 0, Seq::empty()));
    assert(!RankedInterface::before(ranked[j], ranked[i]));
    ifaces::law_new_keeps_order(ranked_ifaces(ranked));
    assert(ranked_ifaces(ranked)[i] == ranked[i].iface);
}

} // verus!
