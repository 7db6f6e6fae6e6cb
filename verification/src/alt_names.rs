//! Alternative names of interfaces: every one belongs to one interface.

use vstd::prelude::*;
use vstd::string::*;

use crate::error;
use crate::error::{ErrorKind, NipartError, NipartErrorView};
use crate::iface::{AltNameEntry, AltNameEntryView, Interface, InterfaceView};
use crate::keymap;
use crate::keymap::KeyMap;
use crate::merged_iface::MergedInterfaceView;
use crate::merged_ifaces::{MergedInterfaces, MergedInterfacesView};
use crate::value::{Value, empty_list};

verus! {

/// The alternative names of an interface, if there is one.
pub open spec fn alt_names_of(iface: Option<InterfaceView>) -> Seq<AltNameEntryView> {
    match iface {
        Some(iface) => iface.base.alt_names.unwrap_or(Seq::empty()),
        None => Seq::empty(),
    }
}

/// `owners` with the alternative names from `i` on for the interface `name`.
pub open spec fn owned_from(
    owners: Seq<(Seq<char>, Seq<char>)>,
    names: Seq<AltNameEntryView>,
    name: Seq<char>,
    i: int,
) -> Seq<(Seq<char>, Seq<char>)>
    decreases names.len() - i,
{
    if i < 0 || i >= names.len() {
        owners
    } else {
        owned_from(keymap::inserted(owners, names[i].name, name), names, name, i + 1)
    }
}

/// `owners` with the current alternative names of the interfaces from `i` on.
pub open spec fn current_owners_from(
    owners: Seq<(Seq<char>, Seq<char>)>,
    ifaces: Seq<(Seq<char>, MergedInterfaceView)>,
    i: int,
) -> Seq<(Seq<char>, Seq<char>)>
    decreases ifaces.len() - i,
{
    if i < 0 || i >= ifaces.len() {
        owners
    } else {
        match ifaces[i].1.current {
            Some(cur) => current_owners_from(
                owned_from(owners, alt_names_of(Some(cur)), cur.base.name, 0),
                ifaces,
                i + 1,
            ),
            None => current_owners_from(owners, ifaces, i + 1),
        }
    }
}

/// Whether the entry `i` names what an entry before it names.
pub open spec fn is_repeated(names: Seq<AltNameEntryView>, i: int) -> bool {
    exists|j: int| 0 <= j < i && (#[trigger] names[j]).name == names[i].name
}

/// The name in the kernel before the apply.
pub open spec fn current_kernel_name(iface: MergedInterfaceView) -> Option<Seq<char>> {
    match iface.current {
        Some(cur) => Some(cur.base.kernel_iface_name),
        None => None,
    }
}

impl MergedInterfacesView {
    /// What the entry `j` of the alternative names to apply to the interface
    /// `i` makes of the owners, or the reason why it cannot be applied.
    pub open spec fn alt_name_applied(
        self,
        i: int,
        j: int,
        owners: Seq<(Seq<char>, Seq<char>)>,
    ) -> Result<Seq<(Seq<char>, Seq<char>)>, NipartErrorView> {
        let iface = self.kernel_ifaces[i].1;
        let des = iface.for_apply->0;
        let names = alt_names_of(iface.for_apply);
        let name = names[j].name;
        if is_repeated(names, j) {
            Err(
                error::invalid(
                    "Duplicate alt-name "@ + name + " on interface "@ + des.base.name,
                ),
            )
        } else if names[j].state is Some {
            Ok(keymap::removed(owners, name))
        } else if name == des.base.kernel_iface_name {
            Err(
                error::invalid(
                    "Alternative name "@ + name + " for interface "@ + des.base.name
                        + " cannot be the same as its kernel interface name"@,
                ),
            )
        } else {
            match keymap::lookup(owners, name) {
                Some(other) => if other == des.base.kernel_iface_name {
                    Ok(owners)
                } else {
                    Err(
                        error::invalid(
                            "Desired alt-name "@ + name + " for interface "@ + des.base.name
                                + " is already used by interface "@ + other,
                        ),
                    )
                },
                None => if keymap::has(self.kernel_ifaces, name) && current_kernel_name(iface)
                    != Some(name) {
                    Err(
                        error::invalid(
                            "Desired alt-name "@ + name + " for interface "@ + des.base.name
                                + " is already an interface name of other NIC"@,
                        ),
                    )
                } else {
                    Ok(keymap::inserted(owners, name, des.base.name))
                },
            }
        }
    }

    /// The owners after the alternative names to apply to the interface `i`
    /// from entry `j` on.
    pub open spec fn alt_names_applied(
        self,
        i: int,
        j: int,
        owners: Seq<(Seq<char>, Seq<char>)>,
    ) -> Result<Seq<(Seq<char>, Seq<char>)>, NipartErrorView>
        decreases alt_names_of(self.kernel_ifaces[i].1.for_apply).len() - j,
    {
        if j < 0 || j >= alt_names_of(self.kernel_ifaces[i].1.for_apply).len() {
            Ok(owners)
        } else {
            match self.alt_name_applied(i, j, owners) {
                Ok(next) => self.alt_names_applied(i, j + 1, next),
                Err(e) => Err(e),
            }
        }
    }

    /// Whether the alternative names to apply to the interfaces from `i` on
    /// can be applied.
    pub open spec fn alt_names_checked_from(
        self,
        i: int,
        owners: Seq<(Seq<char>, Seq<char>)>,
    ) -> Result<(), NipartErrorView>
        decreases self.kernel_ifaces.len() - i,
    {
        if i < 0 || i >= self.kernel_ifaces.len() {
            Ok(())
        } else {
            match self.alt_names_applied(i, 0, owners) {
                Ok(next) => self.alt_names_checked_from(i + 1, next),
                Err(e) => Err(e),
            }
        }
    }

    /// Whether the alternative names can be applied.
    pub open spec fn alt_names_checked(self) -> Result<(), NipartErrorView> {
        self.alt_names_checked_from(
            0,
            current_owners_from(Seq::empty(), self.kernel_ifaces, 0),
        )
    }
}

/// The alternative names of an interface, if there is one.
fn list_alt_names(iface: &Option<Interface>) -> (res: Vec<AltNameEntry>)
    ensures
        res.deep_view() == alt_names_of(iface.deep_view()),
{
    match iface {
        Some(iface) => match &iface.base.alt_names {
            Some(names) => names.dup(),
            None => empty_list(),
        },
        None => empty_list(),
    }
}

/// Makes the interface `name` the owner of the alternative names.
fn add_owned(owners: &mut KeyMap<String, String>, names: &Vec<AltNameEntry>, name: &String)
    ensures
        final(owners)@ == owned_from(old(owners)@, names.deep_view(), name@, 0),
{
    let ghost views = names.deep_view();
    let mut i: usize = 0;
    while i < names.len()
        invariant
            i <= names.len(),
            views == names.deep_view(),
            owned_from(old(owners)@, views, name@, 0) == owned_from(
                owners@,
                views,
                name@,
                i as int,
            ),
        decreases names.len() - i,
    {
        assert(views[i as int] == names[i as int]@);
        owners.insert(names[i].name.dup(), name.dup());
        i = i + 1;
    }
}

/// Whether the entry `i` names what an entry before it names.
fn is_repeated_at(names: &Vec<AltNameEntry>, i: usize) -> (res: bool)
    requires
        i < names.len(),
    ensures
        res == is_repeated(names.deep_view(), i as int),
{
    let ghost views = names.deep_view();
    assert(views[i as int] == names[i as int]@);
    let mut j: usize = 0;
    while j < i
        invariant
            j <= i < names.len(),
            views == names.deep_view(),
            views[i as int] == names[i as int]@,
            forall|k: int| 0 <= k < j ==> (#[trigger] views[k]).name != views[i as int].name,
        decreases i - j,
    {
        assert(views[j as int] == names[j as int]@);
        if names[j].name.same(&names[i].name) {
            return true;
        }
        j = j + 1;
    }
    false
}

/// The error of an alternative name.
fn gen_error(before: &str, name: &String, between: &str, iface: &Interface, after: &str) -> (res:
    NipartError)
    ensures
        res@ == error::invalid(before@ + name@ + between@ + iface@.base.name + after@),
{
    NipartError::new(
        ErrorKind::InvalidArgument,
        String::from_str(before).concat(name.as_str()).concat(between).concat(
            iface.base.name.as_str(),
        ).concat(after),
    )
}

impl MergedInterfaces {
    /// The owners of the current alternative names.
    fn list_alt_name_owners(&self) -> (res: KeyMap<String, String>)
        ensures
            res@ == current_owners_from(Seq::empty(), self@.kernel_ifaces, 0),
    {
        let ghost ifaces = self.kernel_ifaces@;
        let mut owners: KeyMap<String, String> = KeyMap::new();
        let mut i: usize = 0;
        while i < self.kernel_ifaces.len()
            invariant
                i <= ifaces.len(),
                ifaces == self.kernel_ifaces@,
                current_owners_from(Seq::empty(), ifaces, 0) == current_owners_from(
                    owners@,
                    ifaces,
                    i as int,
                ),
            decreases ifaces.len() - i,
        {
            let merged_iface = self.kernel_ifaces.value_at(i);
            if let Some(cur) = &merged_iface.current {
                add_owned(&mut owners, &list_alt_names(&merged_iface.current), &cur.base.name);
            }
            i = i + 1;
        }
        owners
    }

    /// Applies one entry of the alternative names to the owners.
    fn apply_alt_name(
        &self,
        i: usize,
        names: &Vec<AltNameEntry>,
        j: usize,
        owners: &mut KeyMap<String, String>,
    ) -> (res: Result<(), NipartError>)
        requires
            i < self@.kernel_ifaces.len(),
            names.deep_view() == alt_names_of(self@.kernel_ifaces[i as int].1.for_apply),
            j < names.len(),
        ensures
            match self@.alt_name_applied(i as int, j as int, old(owners)@) {
                Ok(next) => res is Ok && final(owners)@ == next,
                Err(e) => res is Err && res->Err_0@ == e,
            },
    {
        let merged_iface = self.kernel_ifaces.value_at(i);
        assert(names.deep_view()[j as int] == names[j as int]@);
        let des = match &merged_iface.for_apply {
            Some(des) => des,
            None => {
                assert(names.deep_view().len() == 0);
                return Ok(());
            },
        };
        let name = &names[j].name;
        if is_repeated_at(names, j) {
            let e = gen_error("Duplicate alt-name ", name, " on interface ", des, "");
            proof {
                reveal_strlit("");
                assert(e@.msg =~= "Duplicate alt-name "@ + name@ + " on interface "@
                    + des@.base.name);
            }
            return Err(e);
        }
        if names[j].is_absent() {
            owners.remove(name);
            return Ok(());
        }
        if name.same(&des.base.kernel_iface_name) {
            return Err(
                gen_error(
                    "Alternative name ",
                    name,
                    " for interface ",
                    des,
                    " cannot be the same as its kernel interface name",
                ),
            );
        }
        if let Some(other) = owners.get(name) {
            if !other.same(&des.base.kernel_iface_name) {
                return Err(
                    NipartError::new(
                        ErrorKind::InvalidArgument,
                        String::from_str("Desired alt-name ").concat(name.as_str()).concat(
                            " for interface ",
                        ).concat(des.base.name.as_str()).concat(
                            " is already used by interface ",
                        ).concat(other.as_str()),
                    ),
                );
            }
            return Ok(());
        }
        let own = match &merged_iface.current {
            Some(cur) => cur.base.kernel_iface_name.same(name),
            None => false,
        };
        if self.kernel_ifaces.contains_key(name) && !own {
            return Err(
                gen_error(
                    "Desired alt-name ",
                    name,
                    " for interface ",
                    des,
                    " is already an interface name of other NIC",
                ),
            );
        }
        owners.insert(name.dup(), des.base.name.dup());
        Ok(())
    }

    /// Validate that no two interfaces share the same alternative name, and
    /// that no alternative name collides with an existing kernel interface
    /// name.
    pub(crate) fn validate_alt_names(&self) -> (res: Result<(), NipartError>)
        ensures
            error::same_result(res, self@.alt_names_checked()),
    {
        let ghost ifaces = self.kernel_ifaces@;
        let mut owners = self.list_alt_name_owners();
        let mut i: usize = 0;
        while i < self.kernel_ifaces.len()
            invariant
                i <= ifaces.len(),
                ifaces == self.kernel_ifaces@,
                ifaces == self@.kernel_ifaces,
                self@.alt_names_checked() == self@.alt_names_checked_from(i as int, owners@),
            decreases ifaces.len() - i,
        {
            let names = list_alt_names(&self.kernel_ifaces.value_at(i).for_apply);
            let ghost start = owners@;
            let mut j: usize = 0;
            while j < names.len()
                invariant
                    j <= names.len(),
                    i < ifaces.len(),
                    ifaces == self@.kernel_ifaces,
                    names.deep_view() == alt_names_of(ifaces[i as int].1.for_apply),
                    self@.alt_names_checked() == self@.alt_names_checked_from(i as int, start),
                    self@.alt_names_applied(i as int, 0, start) == self@.alt_names_applied(
                        i as int,
                        j as int,
                        owners@,
                    ),
                decreases names.len() - j,
            {
                if let Err(e) = self.apply_alt_name(i, &names, j, &mut owners) {
                    return Err(e);
                }
                j = j + 1;
            }
            i = i + 1;
        }
        Ok(())
    }
}

/// What holds of every alternative name of an interface that can be applied.
proof fn lemma_applied_names(
    ifaces: MergedInterfacesView,
    i: int,
    j: int,
    owners: Seq<(Seq<char>, Seq<char>)>,
)
    requires
        0 <= j,
        ifaces.alt_names_applied(i, j, owners) is Ok,
    ensures
        ({
            let iface = ifaces.kernel_ifaces[i].1;
            let names = alt_names_of(iface.for_apply);
            forall|k: int|
                j <= k < names.len() ==> !is_repeated(names, k) && ((
                #[trigger] names[k]).state is None ==> names[k].name
                    != iface.for_apply->0.base.kernel_iface_name)
        }),
    decreases alt_names_of(ifaces.kernel_ifaces[i].1.for_apply).len() - j,
{
    let names = alt_names_of(ifaces.kernel_ifaces[i].1.for_apply);
    if j < names.len() {
        lemma_applied_names(ifaces, i, j + 1, ifaces.alt_name_applied(i, j, owners)->Ok_0);
    }
}

/// The owners with which the names of the interface `k` are checked.
proof fn lemma_checked_at(
    ifaces: MergedInterfacesView,
    i: int,
    owners: Seq<(Seq<char>, Seq<char>)>,
    k: int,
)
    requires
        0 <= i <= k < ifaces.kernel_ifaces.len(),
        ifaces.alt_names_checked_from(i, owners) is Ok,
    ensures
        exists|at: Seq<(Seq<char>, Seq<char>)>| ifaces.alt_names_applied(k, 0, at) is Ok,
    decreases k - i,
{
    if i < k {
        lemma_checked_at(ifaces, i + 1, ifaces.alt_names_applied(i, 0, owners)->Ok_0, k);
    }
}

/// Alternative names that can be applied to an interface name nothing twice,
/// and never the interface itself.
pub proof fn law_alt_names_of_one(ifaces: MergedInterfacesView, i: int, j: int)
    requires
        ifaces.alt_names_checked() is Ok,
        0 <= i < ifaces.kernel_ifaces.len(),
        0 <= j < alt_names_of(ifaces.kernel_ifaces[i].1.for_apply).len(),
    ensures
        ({
            let iface = ifaces.kernel_ifaces[i].1;
            let names = alt_names_of(iface.for_apply);
            &&& !is_repeated(names, j)
            &&& names[j].state is None ==> names[j].name != iface.for_apply->0.base.kernel_iface_name
        }),
{
    let start = current_owners_from(Seq::empty(), ifaces.kernel_ifaces, 0);
    lemma_checked_at(ifaces, 0, start, i);
    let at = choose|at: Seq<(Seq<char>, Seq<char>)>| ifaces.alt_names_applied(i, 0, at) is Ok;
    lemma_applied_names(ifaces, i, 0, at);
    let names = alt_names_of(ifaces.kernel_ifaces[i].1.for_apply);
    assert(names[j].state is None || names[j].state is Some);
}

/// Whether no alternative name to apply removes `name`.
pub open spec fn none_removes(ifaces: MergedInterfacesView, name: Seq<char>) -> bool {
    forall|i: int, j: int|
        0 <= i < ifaces.kernel_ifaces.len() && 0 <= j < alt_names_of(
            ifaces.kernel_ifaces[i].1.for_apply,
        ).len() && (#[trigger] alt_names_of(ifaces.kernel_ifaces[i].1.for_apply)[j]).name == name
            ==> alt_names_of(ifaces.kernel_ifaces[i].1.for_apply)[j].state is None
}

/// Once a name has an owner, it keeps it while further names are applied.
proof fn lemma_owner_stays(
    ifaces: MergedInterfacesView,
    i: int,
    j: int,
    owners: Seq<(Seq<char>, Seq<char>)>,
    name: Seq<char>,
)
    requires
        0 <= i < ifaces.kernel_ifaces.len(),
        0 <= j,
        keymap::unique(owners),
        none_removes(ifaces, name),
        ifaces.alt_names_applied(i, j, owners) is Ok,
    ensures
        keymap::unique(ifaces.alt_names_applied(i, j, owners)->Ok_0),
        keymap::lookup(owners, name) is Some ==> keymap::lookup(
            ifaces.alt_names_applied(i, j, owners)->Ok_0,
            name,
        ) == keymap::lookup(owners, name),
    decreases alt_names_of(ifaces.kernel_ifaces[i].1.for_apply).len() - j,
{
    let names = alt_names_of(ifaces.kernel_ifaces[i].1.for_apply);
    if j < names.len() {
        let next = ifaces.alt_name_applied(i, j, owners)->Ok_0;
        let own = ifaces.kernel_ifaces[i].1.for_apply->0.base.name;
        keymap::law_inserted(owners, names[j].name, own, name);
        keymap::law_removed(owners, names[j].name, name);
        assert(names[j].name == name ==> names[j].state is None);
        lemma_owner_stays(ifaces, i, j + 1, next, name);
    }
}

/// After its names are applied, an interface owns each that it has.
proof fn lemma_owned(
    ifaces: MergedInterfacesView,
    i: int,
    j: int,
    owners: Seq<(Seq<char>, Seq<char>)>,
    k: int,
)
    requires
        0 <= i < ifaces.kernel_ifaces.len(),
        0 <= j <= k < alt_names_of(ifaces.kernel_ifaces[i].1.for_apply).len(),
        keymap::unique(owners),
        none_removes(ifaces, alt_names_of(ifaces.kernel_ifaces[i].1.for_apply)[k].name),
        ifaces.alt_names_applied(i, j, owners) is Ok,
    ensures
        ({
            let base = ifaces.kernel_ifaces[i].1.for_apply->0.base;
            let name = alt_names_of(ifaces.kernel_ifaces[i].1.for_apply)[k].name;
            let owner = keymap::lookup(ifaces.alt_names_applied(i, j, owners)->Ok_0, name);
            &&& owner == Some(base.name) || owner == Some(base.kernel_iface_name)
            &&& keymap::lookup(owners, name) is Some ==> keymap::lookup(owners, name) == Some(
                base.kernel_iface_name,
            ) || exists|l: int|
                j <= l < k && (#[trigger] alt_names_of(
                    ifaces.kernel_ifaces[i].1.for_apply,
                )[l]).name == name
        }),
    decreases k - j,
{
    let names = alt_names_of(ifaces.kernel_ifaces[i].1.for_apply);
    let name = names[k].name;
    let base = ifaces.kernel_ifaces[i].1.for_apply->0.base;
    let next = ifaces.alt_name_applied(i, j, owners)->Ok_0;
    keymap::law_inserted(owners, names[j].name, base.name, name);
    keymap::law_removed(owners, names[j].name, name);
    assert(names[k].state is None);
    assert(names[j].name == name ==> names[j].state is None);
    if j == k {
        lemma_owner_stays(ifaces, i, j + 1, next, name);
    } else {
        lemma_owned(ifaces, i, j + 1, next, k);
    }
}

/// Checking further interfaces keeps the owner of a name, so an interface of
/// another name cannot have it.
proof fn lemma_owner_kept(
    ifaces: MergedInterfacesView,
    i: int,
    owners: Seq<(Seq<char>, Seq<char>)>,
    k: int,
    l: int,
)
    requires
        0 <= i <= k < ifaces.kernel_ifaces.len(),
        0 <= l < alt_names_of(ifaces.kernel_ifaces[k].1.for_apply).len(),
        keymap::unique(owners),
        none_removes(ifaces, alt_names_of(ifaces.kernel_ifaces[k].1.for_apply)[l].name),
        ifaces.alt_names_checked_from(i, owners) is Ok,
        keymap::lookup(
            owners,
            alt_names_of(ifaces.kernel_ifaces[k].1.for_apply)[l].name,
        ) is Some,
    ensures
        keymap::lookup(owners, alt_names_of(ifaces.kernel_ifaces[k].1.for_apply)[l].name) == Some(
            ifaces.kernel_ifaces[k].1.for_apply->0.base.kernel_iface_name,
        ),
    decreases k - i,
{
    let names = alt_names_of(ifaces.kernel_ifaces[k].1.for_apply);
    let name = names[l].name;
    if i < k {
        lemma_owner_stays(ifaces, i, 0, owners, name);
        lemma_owner_kept(ifaces, i + 1, ifaces.alt_names_applied(i, 0, owners)->Ok_0, k, l);
    } else {
        lemma_owned(ifaces, k, 0, owners, l);
        lemma_applied_names(ifaces, k, 0, owners);
        assert(!is_repeated(names, l));
    }
}

/// The owners with which the names of the interface `i` are checked, and what
/// is left to check.
proof fn lemma_checked_from(
    ifaces: MergedInterfacesView,
    start: int,
    owners: Seq<(Seq<char>, Seq<char>)>,
    i: int,
    j: int,
    k: int,
    l: int,
)
    requires
        0 <= start <= i < k < ifaces.kernel_ifaces.len(),
        0 <= j < alt_names_of(ifaces.kernel_ifaces[i].1.for_apply).len(),
        0 <= l < alt_names_of(ifaces.kernel_ifaces[k].1.for_apply).len(),
        alt_names_of(ifaces.kernel_ifaces[i].1.for_apply)[j].name == alt_names_of(
            ifaces.kernel_ifaces[k].1.for_apply,
        )[l].name,
        none_removes(ifaces, alt_names_of(ifaces.kernel_ifaces[i].1.for_apply)[j].name),
        keymap::unique(owners),
        ifaces.alt_names_checked_from(start, owners) is Ok,
    ensures
        ({
            let first = ifaces.kernel_ifaces[i].1.for_apply->0.base;
            let second = ifaces.kernel_ifaces[k].1.for_apply->0.base;
            second.kernel_iface_name == first.name || second.kernel_iface_name
                == first.kernel_iface_name
        }),
    decreases i - start,
{
    let name = alt_names_of(ifaces.kernel_ifaces[i].1.for_apply)[j].name;
    let next = ifaces.alt_names_applied(start, 0, owners)->Ok_0;
    lemma_owner_stays(ifaces, start, 0, owners, name);
    if start < i {
        lemma_checked_from(ifaces, start + 1, next, i, j, k, l);
    } else {
        lemma_owned(ifaces, i, 0, owners, j);
        lemma_owner_kept(ifaces, i + 1, next, k, l);
    }
}

/// Becoming the owner of names gives none of them a second owner.
proof fn lemma_owned_unique(
    owners: Seq<(Seq<char>, Seq<char>)>,
    names: Seq<AltNameEntryView>,
    name: Seq<char>,
    i: int,
)
    requires
        keymap::unique(owners),
        0 <= i,
    ensures
        keymap::unique(owned_from(owners, names, name, i)),
    decreases names.len() - i,
{
    if i < names.len() {
        keymap::law_inserted(owners, names[i].name, name, name);
        lemma_owned_unique(
            keymap::inserted(owners, names[i].name, name),
            names,
            name,
            i + 1,
        );
    }
}

/// No current alternative name has two owners.
proof fn lemma_current_unique(
    owners: Seq<(Seq<char>, Seq<char>)>,
    ifaces: Seq<(Seq<char>, MergedInterfaceView)>,
    i: int,
)
    requires
        keymap::unique(owners),
        0 <= i,
    ensures
        keymap::unique(current_owners_from(owners, ifaces, i)),
    decreases ifaces.len() - i,
{
    if i < ifaces.len() {
        match ifaces[i].1.current {
            Some(cur) => {
                lemma_owned_unique(owners, alt_names_of(Some(cur)), cur.base.name, 0);
                lemma_current_unique(
                    owned_from(owners, alt_names_of(Some(cur)), cur.base.name, 0),
                    ifaces,
                    i + 1,
                );
            },
            None => {
                lemma_current_unique(owners, ifaces, i + 1);
            },
        }
    }
}

/// No two interfaces of different names can be given the same alternative
/// name, when no interface is to lose it.
pub proof fn law_alt_name_of_two(
    ifaces: MergedInterfacesView,
    i: int,
    j: int,
    k: int,
    l: int,
)
    requires
        ifaces.alt_names_checked() is Ok,
        0 <= i < k < ifaces.kernel_ifaces.len(),
        0 <= j < alt_names_of(ifaces.kernel_ifaces[i].1.for_apply).len(),
        0 <= l < alt_names_of(ifaces.kernel_ifaces[k].1.for_apply).len(),
        none_removes(ifaces, alt_names_of(ifaces.kernel_ifaces[i].1.for_apply)[j].name),
        ifaces.kernel_ifaces[k].1.for_apply->0.base.kernel_iface_name
            != ifaces.kernel_ifaces[i].1.for_apply->0.base.name,
        ifaces.kernel_ifaces[k].1.for_apply->0.base.kernel_iface_name
            != ifaces.kernel_ifaces[i].1.for_apply->0.base.kernel_iface_name,
    ensures
        alt_names_of(ifaces.kernel_ifaces[i].1.for_apply)[j].name != alt_names_of(
            ifaces.kernel_ifaces[k].1.for_apply,
        )[l].name,
{
    let start = current_owners_from(Seq::empty(), ifaces.kernel_ifaces, 0);
    lemma_current_unique(Seq::empty(), ifaces.kernel_ifaces, 0);
    if alt_names_of(ifaces.kernel_ifaces[i].1.for_apply)[j].name == alt_names_of(
        ifaces.kernel_ifaces[k].1.for_apply,
    )[l].name {
        lemma_checked_from(ifaces, 0, start, i, j, k, l);
    }
}

} // verus!
