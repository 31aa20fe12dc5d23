//! The profile store: the in-memory map from `(device, profile name)` to
//! the profile's grid of configured instances.
//!
//! Disk I/O stays outside: callers load a file before asking for a store
//! and write one back when an operation reports that it changed something.

use vstd::prelude::*;

use crate::errors::{Error, ErrorKind};
use crate::registry::DeviceInfo;
use crate::shared::{
    action_context_eq, child_as_instance, Action, ActionContext, ActionContextV, ActionInstance, ActionInstanceV, ActionV, ChildInstance,
    Controller, ContextV, Context, Profile, ProfileV, dup_action, dup_action_context,
    dup_action_states, dup_child_instance, dup_instance, wf_profile,
};
use crate::text::{str_eq, vec_contains_str};

verus! {

/// The key a profile is stored under: the device id and the profile name,
/// joined by a slash.
pub open spec fn spec_canonical_id(device: Seq<char>, id: Seq<char>) -> Seq<char> {
    device + seq!['/'] + id
}

/// Build the key a profile is stored under.
pub fn canonical_id(device: &str, id: &str) -> (r: String)
    ensures
        r@ == spec_canonical_id(device@, id@),
{
    let mut s = device.to_owned();
    s.append("/");
    s.append(id);
    proof {
        reveal_strlit("/");
        assert("/"@ =~= seq!['/']);
        assert(s@ =~= spec_canonical_id(device@, id@));
    }
    s
}

/// In-memory profile stores, keyed by canonical id.
pub struct ProfileStores {
    pub stores: Vec<(String, Profile)>,
}

/// Mathematical image of the stores: the keyed entries in insertion order.
pub type StoresV = Seq<(Seq<char>, ProfileV)>;

impl View for ProfileStores {
    type V = StoresV;

    open spec fn view(&self) -> StoresV {
        Seq::new(self.stores@.len(), |i: int| (self.stores@[i].0@, self.stores@[i].1@))
    }
}

/// The first entry with the given key, scanning from a position.
pub open spec fn store_find(s: StoresV, k: Seq<char>, from: int) -> Option<int>
    decreases s.len() - from,
{
    if from < 0 || from >= s.len() {
        None
    } else if s[from].0 == k {
        Some(from)
    } else {
        store_find(s, k, from + 1)
    }
}

/// The profile stored under a key, if any.
pub open spec fn store_of(s: StoresV, k: Seq<char>) -> Option<ProfileV> {
    match store_find(s, k, 0) {
        Some(i) => Some(s[i].1),
        None => None,
    }
}

/// Whether a key is present.
pub open spec fn store_contains(s: StoresV, k: Seq<char>) -> bool {
    store_of(s, k) is Some
}

/// What a successful or failed key search says about the entries.
pub proof fn lemma_store_find(s: StoresV, k: Seq<char>, from: int)
    requires
        0 <= from <= s.len(),
    ensures
        match store_find(s, k, from) {
            Some(i) => from <= i < s.len() && s[i].0 == k && forall|j: int|
                from <= j < i ==> (#[trigger] s[j]).0 != k,
            None => forall|j: int| from <= j < s.len() ==> (#[trigger] s[j]).0 != k,
        },
    decreases s.len() - from,
{
    if from < s.len() && s[from].0 != k {
        lemma_store_find(s, k, from + 1);
    }
}

/// Appending an entry with a fresh key leaves every other lookup alone and
/// makes the new key found.
pub proof fn lemma_store_push(s: StoresV, k: Seq<char>, p: ProfileV)
    requires
        !store_contains(s, k),
    ensures
        store_of(s.push((k, p)), k) == Some(p),
        forall|k2: Seq<char>| k2 != k ==> store_of(s.push((k, p)), k2) == store_of(s, k2),
{
    let t = s.push((k, p));
    lemma_store_find(s, k, 0);
    lemma_store_find_push(s, k, p, k, 0);
    assert(store_of(t, k) == Some(t[s.len() as int].1));
    assert forall|k2: Seq<char>| k2 != k implies store_of(t, k2) == store_of(s, k2) by {
        lemma_store_find_push(s, k, p, k2, 0);
        lemma_store_find(s, k2, 0);
        match store_find(s, k2, 0) {
            Some(j) => {
                assert(s[j].0 == k2);
                assert(t[j].1 == s[j].1);
            },
            None => {},
        }
    }
}

/// How a key search behaves on a sequence with one entry appended.
proof fn lemma_store_find_push(s: StoresV, k: Seq<char>, p: ProfileV, k2: Seq<char>, from: int)
    requires
        0 <= from <= s.len(),
    ensures
        store_find(s.push((k, p)), k2, from) == match store_find(s, k2, from) {
            Some(i) => Some(i),
            None => if k2 == k {
                Some(s.len() as int)
            } else {
                None::<int>
            },
        },
    decreases s.len() - from,
{
    let t = s.push((k, p));
    if from < s.len() {
        assert(t[from] == s[from]);
        if s[from].0 != k2 {
            lemma_store_find_push(s, k, p, k2, from + 1);
        }
    } else {
        assert(t[from].0 == k);
        if k2 != k {
            assert(store_find(t, k2, from + 1) is None);
        }
    }
}

/// Whether all keys are distinct.
pub open spec fn wf_stores(s: StoresV) -> bool {
    forall|i: int, j: int| 0 <= i < j < s.len() ==> (#[trigger] s[i]).0 != (#[trigger] s[j]).0
}

/// Whether every stored profile is well formed for the device its key
/// names. The key is the device id and profile name joined by a slash, so
/// this speaks only of entries whose key has that shape.
pub open spec fn wf_stores_profiles(s: StoresV) -> bool {
    forall|i: int| 0 <= i < s.len() ==> wf_entry(#[trigger] s[i])
}

/// Whether one entry's profile is well formed for its key.
pub open spec fn wf_entry(e: (Seq<char>, ProfileV)) -> bool {
    forall|device: Seq<char>|
        e.0 == spec_canonical_id(device, e.1.id) ==> wf_profile(#[trigger] e.1, device)
}

impl ProfileStores {
    /// An empty set of stores.
    pub fn new() -> (r: Self)
        ensures
            r@ == Seq::<(Seq<char>, ProfileV)>::empty(),
            wf_stores(r@),
    {
        let r = ProfileStores { stores: Vec::new() };
        proof {
            assert(r@ =~= Seq::<(Seq<char>, ProfileV)>::empty());
        }
        r
    }

    /// Find the position of a key.
    fn position_of(&self, key: &str) -> (r: Option<usize>)
        ensures
            match r {
                Some(i) => Some(i as int) == store_find(self@, key@, 0),
                None => store_find(self@, key@, 0) is None,
            },
    {
        let mut i: usize = 0;
        while i < self.stores.len()
            invariant
                0 <= i <= self.stores@.len(),
                self@.len() == self.stores@.len(),
                store_find(self@, key@, 0) == store_find(self@, key@, i as int),
            decreases self.stores@.len() - i,
        {
            proof {
                assert(self@[i as int].0 == self.stores@[i as int].0@);
            }
            if str_eq(self.stores[i].0.as_str(), key) {
                return Some(i);
            }
            i = i + 1;
        }
        None
    }

    /// Look a profile up; absent means not yet materialized.
    pub fn get_profile_store(&self, device: &DeviceInfo, id: &str) -> (r: Result<&Profile, Error>)
        ensures
            match r {
                Ok(p) => store_of(self@, spec_canonical_id(device.id@, id@)) == Some(p@),
                Err(e) => store_of(self@, spec_canonical_id(device.id@, id@)) is None && e.kind
                    == ErrorKind::NotFound,
            },
    {
        let key = canonical_id(device.id.as_str(), id);
        proof {
            lemma_store_find(self@, key@, 0);
        }
        match self.position_of(key.as_str()) {
            Some(i) => Ok(&self.stores[i].1),
            None => Err(Error::from_kind(ErrorKind::NotFound)),
        }
    }
}


/// Whether an instance survives pruning: built-in instances always do; a
/// plugin's instance survives while the plugin's package is still on disk
/// and either the plugin has not registered yet or its action is still in
/// the live catalogue.
pub open spec fn spec_keep_instance(
    a: ActionV,
    on_disk: Seq<Seq<char>>,
    registered: Seq<Seq<char>>,
    catalogue: Seq<Seq<char>>,
) -> bool {
    a.plugin == "opendeck"@ || (on_disk.contains(a.plugin) && (!registered.contains(a.plugin)
        || catalogue.contains(a.uuid)))
}

/// Decide whether an instance survives pruning.
pub fn keep_instance(
    action: &Action,
    on_disk: &Vec<String>,
    registered: &Vec<String>,
    catalogue: &Vec<String>,
) -> (r: bool)
    ensures
        r == spec_keep_instance(
            action@,
            on_disk.deep_view(),
            registered.deep_view(),
            catalogue.deep_view(),
        ),
{
    str_eq(action.plugin.as_str(), "opendeck") || (vec_contains_str(
        on_disk,
        action.plugin.as_str(),
    ) && (!vec_contains_str(registered, action.plugin.as_str()) || vec_contains_str(
        catalogue,
        action.uuid.as_str(),
    )))
}

/// The children that survive pruning, in their original order.
pub open spec fn spec_prune_children(
    cs: Seq<ActionInstanceV>,
    on_disk: Seq<Seq<char>>,
    registered: Seq<Seq<char>>,
    catalogue: Seq<Seq<char>>,
) -> Seq<ActionInstanceV>
    decreases cs.len(),
{
    if cs.len() == 0 {
        Seq::empty()
    } else {
        let rest = spec_prune_children(cs.drop_last(), on_disk, registered, catalogue);
        if spec_keep_instance(cs.last().action, on_disk, registered, catalogue) {
            rest.push(cs.last())
        } else {
            rest
        }
    }
}

/// What pruning leaves of one slot.
pub open spec fn spec_prune_slot(
    o: Option<ActionInstanceV>,
    on_disk: Seq<Seq<char>>,
    registered: Seq<Seq<char>>,
    catalogue: Seq<Seq<char>>,
) -> Option<ActionInstanceV> {
    match o {
        None => None,
        Some(i) => if !spec_keep_instance(i.action, on_disk, registered, catalogue) {
            None
        } else {
            Some(
                ActionInstanceV {
                    children: match i.children {
                        Some(cs) => Some(
                            spec_prune_children(cs, on_disk, registered, catalogue),
                        ),
                        None => None,
                    },
                    ..i
                },
            )
        },
    }
}

/// What pruning leaves of a whole profile.
pub open spec fn spec_prune_profile(
    p: ProfileV,
    on_disk: Seq<Seq<char>>,
    registered: Seq<Seq<char>>,
    catalogue: Seq<Seq<char>>,
) -> ProfileV {
    ProfileV {
        id: p.id,
        keys: Seq::new(
            p.keys.len(),
            |k: int| spec_prune_slot(p.keys[k], on_disk, registered, catalogue),
        ),
        sliders: Seq::new(
            p.sliders.len(),
            |k: int| spec_prune_slot(p.sliders[k], on_disk, registered, catalogue),
        ),
    }
}

/// A slot sequence brought to a length: cut off beyond it, padded with
/// empty slots up to it.
pub open spec fn spec_resize_slots(s: Seq<Option<ActionInstanceV>>, n: int) -> Seq<
    Option<ActionInstanceV>,
> {
    if n <= s.len() {
        s.take(n)
    } else {
        s + Seq::new((n - s.len()) as nat, |i: int| None::<ActionInstanceV>)
    }
}

/// Bring a slot list to a length.
fn resize_slots(v: &mut Vec<Option<ActionInstance>>, n: usize)
    ensures
        final(v).deep_view() == spec_resize_slots(old(v).deep_view(), n as int),
        final(v)@.len() == n,
{
    if n <= v.len() {
        let ghost before = v.deep_view();
        v.truncate(n);
        proof {
            assert(v.deep_view() =~= before.take(n as int));
        }
    } else {
        let ghost before = v.deep_view();
        while v.len() < n
            invariant
                before.len() <= v.deep_view().len() <= n,
                v.deep_view() =~= before + Seq::new(
                    (v.deep_view().len() - before.len()) as nat,
                    |i: int| None::<ActionInstanceV>,
                ),
            decreases n - v@.len(),
        {
            let ghost prev = v.deep_view();
            v.push(None);
            proof {
                assert forall|j: int| 0 <= j < v.deep_view().len() implies #[trigger] v.deep_view()[j]
                    == if j < prev.len() {
                    prev[j]
                } else {
                    None::<ActionInstanceV>
                } by {
                    assert(v.deep_view()[j] == v@[j].deep_view());
                }
                assert(v.deep_view() =~= before + Seq::new(
                    (v.deep_view().len() - before.len()) as nat,
                    |i: int| None::<ActionInstanceV>,
                ));
            }
        }
        proof {
            assert(v.deep_view() =~= spec_resize_slots(before, n as int));
        }
    }
}

/// The children of one slot that survive pruning.
fn prune_children(
    cs: &Vec<ChildInstance>,
    on_disk: &Vec<String>,
    registered: &Vec<String>,
    catalogue: &Vec<String>,
) -> (r: Vec<ChildInstance>)
    ensures
        r.deep_view() == spec_prune_children(
            cs.deep_view(),
            on_disk.deep_view(),
            registered.deep_view(),
            catalogue.deep_view(),
        ),
{
    let ghost d = on_disk.deep_view();
    let ghost g = registered.deep_view();
    let ghost u = catalogue.deep_view();
    let mut out: Vec<ChildInstance> = Vec::new();
    let mut j: usize = 0;
    while j < cs.len()
        invariant
            0 <= j <= cs@.len(),
            d == on_disk.deep_view(),
            g == registered.deep_view(),
            u == catalogue.deep_view(),
            out.deep_view() == spec_prune_children(cs.deep_view().take(j as int), d, g, u),
        decreases cs@.len() - j,
    {
        let ghost t = cs.deep_view().take(j as int + 1);
        proof {
            assert(t.drop_last() =~= cs.deep_view().take(j as int));
            assert(t.last() == cs.deep_view()[j as int]);
            assert(cs.deep_view()[j as int] == cs@[j as int]@);
        }
        let ghost prev = out.deep_view();
        if keep_instance(&cs[j].action, on_disk, registered, catalogue) {
            out.push(dup_child_instance(&cs[j]));
            proof {
                assert forall|m: int| 0 <= m < out.deep_view().len() implies #[trigger] out.deep_view()[m]
                    == if m < prev.len() {
                    prev[m]
                } else {
                    cs.deep_view()[j as int]
                } by {
                    assert(out.deep_view()[m] == out@[m]@);
                }
                assert(out.deep_view() =~= prev.push(cs.deep_view()[j as int]));
            }
        }
        j = j + 1;
    }
    proof {
        assert(cs.deep_view().take(cs@.len() as int) =~= cs.deep_view());
    }
    out
}

/// What is left of a profile after pruning instances whose action is gone.
fn prune_profile(
    p: Profile,
    on_disk: &Vec<String>,
    registered: &Vec<String>,
    catalogue: &Vec<String>,
) -> (r: Profile)
    ensures
        r@ == spec_prune_profile(
            p@,
            on_disk.deep_view(),
            registered.deep_view(),
            catalogue.deep_view(),
        ),
{
    let ghost d = on_disk.deep_view();
    let ghost g = registered.deep_view();
    let ghost u = catalogue.deep_view();
    let ghost pv = p@;
    let mut keys: Vec<Option<ActionInstance>> = Vec::new();
    let mut k: usize = 0;
    while k < p.keys.len()
        invariant
            0 <= k <= p.keys@.len(),
            d == on_disk.deep_view(),
            g == registered.deep_view(),
            u == catalogue.deep_view(),
            pv == p@,
            keys@.len() == k,
            forall|j: int|
                0 <= j < k ==> #[trigger] keys.deep_view()[j] == spec_prune_slot(
                    pv.keys[j],
                    d,
                    g,
                    u,
                ),
        decreases p.keys@.len() - k,
    {
        let ghost prev = keys.deep_view();
        match &p.keys[k] {
            None => keys.push(None),
            Some(i) => {
                if !keep_instance(&i.action, on_disk, registered, catalogue) {
                    keys.push(None);
                } else {
                    let children = match &i.children {
                        Some(cs) => Some(prune_children(cs, on_disk, registered, catalogue)),
                        None => None,
                    };
                    keys.push(
                        Some(
                            ActionInstance {
                                action: dup_action(&i.action),
                                context: dup_action_context(&i.context),
                                states: dup_action_states(&i.states),
                                current_state: i.current_state,
                                settings: i.settings.clone(),
                                children,
                            },
                        ),
                    );
                }
            },
        }
        proof {
            assert forall|j: int| 0 <= j < k + 1 implies #[trigger] keys.deep_view()[j]
                == if j < k {
                prev[j]
            } else {
                spec_prune_slot(pv.keys[k as int], d, g, u)
            } by {
                assert(keys.deep_view()[j] == keys@[j].deep_view());
            }
        }
        k = k + 1;
    }
    let mut sliders: Vec<Option<ActionInstance>> = Vec::new();
    let mut k2: usize = 0;
    while k2 < p.sliders.len()
        invariant
            0 <= k2 <= p.sliders@.len(),
            d == on_disk.deep_view(),
            g == registered.deep_view(),
            u == catalogue.deep_view(),
            pv == p@,
            sliders@.len() == k2,
            forall|j: int|
                0 <= j < k2 ==> #[trigger] sliders.deep_view()[j] == spec_prune_slot(
                    pv.sliders[j],
                    d,
                    g,
                    u,
                ),
        decreases p.sliders@.len() - k2,
    {
        let ghost prev = sliders.deep_view();
        match &p.sliders[k2] {
            None => sliders.push(None),
            Some(i) => {
                if !keep_instance(&i.action, on_disk, registered, catalogue) {
                    sliders.push(None);
                } else {
                    let children = match &i.children {
                        Some(cs) => Some(prune_children(cs, on_disk, registered, catalogue)),
                        None => None,
                    };
                    sliders.push(
                        Some(
                            ActionInstance {
                                action: dup_action(&i.action),
                                context: dup_action_context(&i.context),
                                states: dup_action_states(&i.states),
                                current_state: i.current_state,
                                settings: i.settings.clone(),
                                children,
                            },
                        ),
                    );
                }
            },
        }
        proof {
            assert forall|j: int| 0 <= j < k2 + 1 implies #[trigger] sliders.deep_view()[j]
                == if j < k2 {
                prev[j]
            } else {
                spec_prune_slot(pv.sliders[k2 as int], d, g, u)
            } by {
                assert(sliders.deep_view()[j] == sliders@[j].deep_view());
            }
        }
        k2 = k2 + 1;
    }
    let r = Profile { id: p.id, keys, sliders };
    proof {
        assert(r@.keys =~= spec_prune_profile(pv, d, g, u).keys);
        assert(r@.sliders =~= spec_prune_profile(pv, d, g, u).sliders);
    }
    r
}

/// The profile a fresh store starts from when no file was loaded.
pub open spec fn spec_empty_profile(id: Seq<char>) -> ProfileV {
    ProfileV {
        id,
        keys: Seq::empty(),
        sliders: Seq::empty(),
    }
}

/// The profile a newly materialized store holds: the loaded or empty base,
/// renamed to the asked-for name, sized to the device's grid, and pruned.
pub open spec fn spec_new_profile(
    base: ProfileV,
    id: Seq<char>,
    rows: u8,
    columns: u8,
    encoders: u8,
    on_disk: Seq<Seq<char>>,
    registered: Seq<Seq<char>>,
    catalogue: Seq<Seq<char>>,
) -> ProfileV {
    spec_prune_profile(
        ProfileV {
            id,
            keys: spec_resize_slots(base.keys, rows as int * columns as int),
            sliders: spec_resize_slots(base.sliders, encoders as int),
        },
        on_disk,
        registered,
        catalogue,
    )
}

/// What asking for a store does to the map: nothing when the key is
/// already there, else one new entry at the end.
pub open spec fn spec_get_or_create(s: StoresV, cid: Seq<char>, p: ProfileV) -> StoresV {
    if store_contains(s, cid) {
        s
    } else {
        s.push((cid, p))
    }
}

/// Asking for the same store twice changes nothing the second time: the
/// first call materialized it, so the second finds it and writes no file.
pub proof fn lemma_get_or_create_idempotent(
    s: StoresV,
    cid: Seq<char>,
    p1: ProfileV,
    p2: ProfileV,
)
    ensures
        store_contains(spec_get_or_create(s, cid, p1), cid),
        spec_get_or_create(spec_get_or_create(s, cid, p1), cid, p2) == spec_get_or_create(
            s,
            cid,
            p1,
        ),
{
    if !store_contains(s, cid) {
        lemma_store_push(s, cid, p1);
    }
}

impl ProfileStores {
    /// Look a profile store up, materializing it first when absent: the
    /// caller passes what the store's file held, if anything, and learns
    /// whether a new store was created — only then must the file be
    /// written. A created store is sized to the device's grid and pruned
    /// of instances whose action is gone.
    pub fn get_profile_store_mut(
        &mut self,
        device: &DeviceInfo,
        id: &str,
        loaded: Option<Profile>,
        on_disk: &Vec<String>,
        registered: &Vec<String>,
        catalogue: &Vec<String>,
    ) -> (created: bool)
        ensures
            created == !store_contains(old(self)@, spec_canonical_id(device.id@, id@)),
            final(self)@ == spec_get_or_create(
                old(self)@,
                spec_canonical_id(device.id@, id@),
                spec_new_profile(
                    match loaded {
                        Some(p) => p@,
                        None => spec_empty_profile(id@),
                    },
                    id@,
                    device.rows,
                    device.columns,
                    device.encoders,
                    on_disk.deep_view(),
                    registered.deep_view(),
                    catalogue.deep_view(),
                ),
            ),
            created ==> match store_of(final(self)@, spec_canonical_id(device.id@, id@)) {
                Some(p) => p.keys.len() == device.rows as int * device.columns as int
                    && p.sliders.len() == device.encoders as int,
                None => false,
            },
            !created ==> final(self)@ == old(self)@,
    {
        let key = canonical_id(device.id.as_str(), id);
        proof {
            lemma_store_find(self@, key@, 0);
        }
        match self.position_of(key.as_str()) {
            Some(_) => false,
            None => {
                let ghost base0 = match &loaded {
                    Some(p) => p@,
                    None => spec_empty_profile(id@),
                };
                let mut base = match loaded {
                    Some(p) => p,
                    None => Profile { id: id.to_owned(), keys: Vec::new(), sliders: Vec::new() },
                };
                proof {
                    assert(base@.keys =~= base0.keys);
                    assert(base@.sliders =~= base0.sliders);
                }
                base.id = id.to_owned();
                proof {
                    assert(base@.keys == base0.keys);
                    assert(base@.sliders == base0.sliders);
                    assert(base@.id == id@);
                }
                let slots = crate::key_slot_count(device.rows, device.columns);
                resize_slots(&mut base.keys, slots);
                resize_slots(&mut base.sliders, device.encoders as usize);
                let pruned = prune_profile(base, on_disk, registered, catalogue);
                let ghost before = self@;
                let ghost pv = pruned@;
                self.stores.push((key, pruned));
                proof {
                    assert(self@ =~= before.push((spec_canonical_id(device.id@, id@), pv)));
                    lemma_store_push(before, spec_canonical_id(device.id@, id@), pv);
                }
                true
            },
        }
    }

    /// Drop a store from memory; its file is the caller's to delete.
    pub fn remove_profile(&mut self, device: &str, id: &str)
        ensures
            store_of(final(self)@, spec_canonical_id(device@, id@)) is None,
            forall|k: Seq<char>|
                k != spec_canonical_id(device@, id@) ==> store_of(final(self)@, k) == store_of(
                    old(self)@,
                    k,
                ),
            final(self)@.len() <= old(self)@.len(),
    {
        let key = canonical_id(device, id);
        loop
            invariant
                key@ == spec_canonical_id(device@, id@),
                forall|k: Seq<char>|
                    k != key@ ==> store_of(self@, k) == store_of(old(self)@, k),
                self@.len() <= old(self)@.len(),
            ensures
                store_of(self@, key@) is None,
            decreases self@.len(),
        {
            proof {
                lemma_store_find(self@, key@, 0);
            }
            match self.position_of(key.as_str()) {
                Some(i) => {
                    let ghost before = self@;
                    self.stores.remove(i);
                    proof {
                        assert(self@ =~= before.remove(i as int));
                        lemma_store_remove(before, i as int, key@);
                    }
                },
                None => {
                    return ;
                },
            }
        }
    }
}

/// Removing one entry leaves the lookups of all other keys unchanged.
proof fn lemma_store_remove(s: StoresV, i: int, k: Seq<char>)
    requires
        0 <= i < s.len(),
        s[i].0 == k,
        store_find(s, k, 0) == Some(i),
    ensures
        forall|k2: Seq<char>| k2 != k ==> store_of(s.remove(i), k2) == store_of(s, k2),
        s.remove(i).len() < s.len(),
{
    assert forall|k2: Seq<char>| k2 != k implies store_of(s.remove(i), k2) == store_of(s, k2) by {
        lemma_store_find(s, k2, 0);
        lemma_store_find(s.remove(i), k2, 0);
        let t = s.remove(i);
        match store_find(s, k2, 0) {
            Some(j) => {
                if j < i {
                    assert(t[j] == s[j]);
                    assert(forall|m: int| 0 <= m < j ==> t[m] == s[m]);
                    lemma_store_find_unique(t, k2, 0, j);
                } else {
                    assert(t[j - 1] == s[j]);
                    assert forall|m: int| 0 <= m < j - 1 implies (#[trigger] t[m]).0 != k2 by {
                        if m < i {
                            assert(t[m] == s[m]);
                        } else {
                            assert(t[m] == s[m + 1]);
                        }
                    }
                    lemma_store_find_unique(t, k2, 0, j - 1);
                }
            },
            None => {
                assert forall|m: int| 0 <= m < t.len() implies (#[trigger] t[m]).0 != k2 by {
                    if m < i {
                        assert(t[m] == s[m]);
                    } else {
                        assert(t[m] == s[m + 1]);
                    }
                }
                match store_find(t, k2, 0) {
                    Some(j) => {
                        assert(t[j].0 == k2);
                    },
                    None => {},
                }
            },
        }
    }
}

/// A position holding the key, with none before it, is where the search
/// lands.
proof fn lemma_store_find_unique(s: StoresV, k: Seq<char>, from: int, i: int)
    requires
        0 <= from <= i < s.len(),
        s[i].0 == k,
        forall|j: int| from <= j < i ==> (#[trigger] s[j]).0 != k,
    ensures
        store_find(s, k, from) == Some(i),
    decreases i - from,
{
    if from < i {
        lemma_store_find_unique(s, k, from + 1, i);
    }
}


/// The slot a location addresses: absent when the device's store or the
/// position itself is unknown; otherwise the slot's content, configured or
/// empty.
pub open spec fn spec_slot_of(s: StoresV, ctx: ContextV) -> Option<Option<ActionInstanceV>> {
    match store_of(s, spec_canonical_id(ctx.device, ctx.profile)) {
        None => None,
        Some(p) => {
            let slots = if ctx.controller is Encoder {
                p.sliders
            } else {
                p.keys
            };
            if ctx.position < slots.len() {
                Some(slots[ctx.position as int])
            } else {
                None
            }
        },
    }
}

/// The first child with the given address, scanning from a position.
pub open spec fn child_find(cs: Seq<ActionInstanceV>, ctx: ActionContextV, from: int) -> Option<
    int,
>
    decreases cs.len() - from,
{
    if from < 0 || from >= cs.len() {
        None
    } else if cs[from].context == ctx {
        Some(from)
    } else {
        child_find(cs, ctx, from + 1)
    }
}

/// What a successful or failed child search says about the children.
pub proof fn lemma_child_find(cs: Seq<ActionInstanceV>, ctx: ActionContextV, from: int)
    requires
        0 <= from <= cs.len(),
    ensures
        match child_find(cs, ctx, from) {
            Some(i) => from <= i < cs.len() && cs[i].context == ctx && forall|j: int|
                from <= j < i ==> (#[trigger] cs[j]).context != ctx,
            None => forall|j: int| from <= j < cs.len() ==> (#[trigger] cs[j]).context != ctx,
        },
    decreases cs.len() - from,
{
    if from < cs.len() && cs[from].context != ctx {
        lemma_child_find(cs, ctx, from + 1);
    }
}

/// The slot location an instance address points into.
pub open spec fn spec_slot_ctx(ctx: ActionContextV) -> ContextV {
    ContextV {
        device: ctx.device,
        profile: ctx.profile,
        controller: ctx.controller,
        position: ctx.position,
    }
}

/// The instance an address resolves to: the slot's own instance when the
/// address matches it, else the child carrying the address.
pub open spec fn spec_instance_at(s: StoresV, ctx: ActionContextV) -> Option<ActionInstanceV> {
    match spec_slot_of(s, spec_slot_ctx(ctx)) {
        Some(Some(i)) => if i.context == ctx {
            Some(i)
        } else {
            match i.children {
                Some(cs) => match child_find(cs, ctx, 0) {
                    Some(j) => Some(cs[j]),
                    None => None,
                },
                None => None,
            }
        },
        _ => None,
    }
}

/// Whatever address resolves to an instance, the instance carries that
/// address.
pub proof fn lemma_instance_at_context(s: StoresV, ctx: ActionContextV)
    ensures
        match spec_instance_at(s, ctx) {
            Some(i) => i.context == ctx,
            None => true,
        },
{
    match spec_slot_of(s, spec_slot_ctx(ctx)) {
        Some(Some(i)) => {
            if i.context != ctx {
                match i.children {
                    Some(cs) => {
                        lemma_child_find(cs, ctx, 0);
                    },
                    None => {},
                }
            }
        },
        _ => {},
    }
}

impl ProfileStores {
    /// Read the slot a location addresses.
    pub fn get_slot(&self, context: &Context) -> (r: Result<&Option<ActionInstance>, Error>)
        ensures
            match r {
                Ok(slot) => spec_slot_of(self@, context@) == Some(slot.deep_view()),
                Err(e) => spec_slot_of(self@, context@) is None && e.kind == ErrorKind::NotFound,
            },
    {
        let key = canonical_id(context.device.as_str(), context.profile.as_str());
        proof {
            lemma_store_find(self@, key@, 0);
        }
        match self.position_of(key.as_str()) {
            None => Err(Error::from_kind(ErrorKind::NotFound)),
            Some(si) => {
                let entry = &self.stores[si];
                proof {
                    assert(self@[si as int].1 == entry.1@);
                }
                let slots = if matches!(context.controller, Controller::Encoder) {
                    &entry.1.sliders
                } else {
                    &entry.1.keys
                };
                let pos = context.position as usize;
                if pos < slots.len() {
                    proof {
                        assert(slots.deep_view()[pos as int] == slots@[pos as int].deep_view());
                    }
                    Ok(&slots[pos])
                } else {
                    Err(Error::from_kind(ErrorKind::NotFound))
                }
            },
        }
    }

    /// Read a copy of the instance an address resolves to; an unknown slot
    /// is an error, an empty slot or a missing child is merely no instance.
    pub fn get_instance(&self, context: &ActionContext) -> (r: Result<
        Option<ActionInstance>,
        Error,
    >)
        ensures
            match r {
                Ok(Some(i)) => spec_instance_at(self@, context@) == Some(i@),
                Ok(None) => spec_instance_at(self@, context@) is None && spec_slot_of(
                    self@,
                    spec_slot_ctx(context@),
                ) is Some,
                Err(e) => spec_slot_of(self@, spec_slot_ctx(context@)) is None && e.kind
                    == ErrorKind::NotFound,
            },
    {
        let slot_ctx = context.to_slot_context();
        proof {
            assert(slot_ctx@ == spec_slot_ctx(context@));
        }
        let slot = match self.get_slot(&slot_ctx) {
            Ok(s) => s,
            Err(e) => {
                return Err(e);
            },
        };
        match slot {
            None => Ok(None),
            Some(instance) => {
                if action_context_eq(&instance.context, context) {
                    Ok(Some(dup_instance(instance)))
                } else {
                    match &instance.children {
                        None => Ok(None),
                        Some(cs) => {
                            proof {
                                lemma_child_find(cs.deep_view(), context@, 0);
                            }
                            let mut j: usize = 0;
                            while j < cs.len()
                                invariant
                                    0 <= j <= cs@.len(),
                                    spec_slot_of(self@, spec_slot_ctx(context@)) == Some(
                                        Some(instance@),
                                    ),
                                    instance@.context != context@,
                                    instance@.children == Some(cs.deep_view()),
                                    child_find(cs.deep_view(), context@, 0) == child_find(
                                        cs.deep_view(),
                                        context@,
                                        j as int,
                                    ),
                                decreases cs@.len() - j,
                            {
                                proof {
                                    assert(cs.deep_view()[j as int] == cs@[j as int]@);
                                }
                                if action_context_eq(&cs[j].context, context) {
                                    proof {
                                        assert(cs.deep_view()[j as int].context == context@);
                                        assert(child_find(cs.deep_view(), context@, j as int)
                                            == Some(j as int));
                                        assert(spec_slot_of(self@, spec_slot_ctx(context@))
                                            == Some(Some(instance@)));
                                        assert(instance@.context != context@);
                                        assert(instance@.children == Some(cs.deep_view()));
                                        assert(spec_instance_at(self@, context@) == Some(
                                            cs.deep_view()[j as int],
                                        ));
                                    }
                                    return Ok(Some(child_as_instance(&cs[j])));
                                }
                                j = j + 1;
                            }
                            Ok(None)
                        },
                    }
                }
            },
        }
    }
}


/// A profile with one slot replaced.
pub open spec fn spec_profile_with_slot(
    p: ProfileV,
    encoder: bool,
    pos: int,
    v: Option<ActionInstanceV>,
) -> ProfileV {
    if encoder {
        ProfileV { sliders: p.sliders.update(pos, v), ..p }
    } else {
        ProfileV { keys: p.keys.update(pos, v), ..p }
    }
}

/// The stores with the slot at a location replaced; an unknown store or
/// position changes nothing.
pub open spec fn spec_set_slot(s: StoresV, ctx: ContextV, v: Option<ActionInstanceV>) -> StoresV {
    match store_find(s, spec_canonical_id(ctx.device, ctx.profile), 0) {
        None => s,
        Some(si) => {
            let p = s[si].1;
            let slots = if ctx.controller is Encoder {
                p.sliders
            } else {
                p.keys
            };
            if ctx.position < slots.len() {
                s.update(
                    si,
                    (s[si].0, spec_profile_with_slot(p, ctx.controller is Encoder, ctx.position as int, v)),
                )
            } else {
                s
            }
        },
    }
}

impl ProfileStores {
    /// Replace the slot at a location; reports whether anything was
    /// written.
    pub fn set_slot(&mut self, context: &Context, value: Option<ActionInstance>) -> (r: bool)
        ensures
            final(self)@ == spec_set_slot(old(self)@, context@, value.deep_view()),
            r == (spec_slot_of(old(self)@, context@) is Some),
    {
        let key = canonical_id(context.device.as_str(), context.profile.as_str());
        proof {
            lemma_store_find(self@, key@, 0);
        }
        let ghost vv = value.deep_view();
        match self.position_of(key.as_str()) {
            None => false,
            Some(si) => {
                let ghost before = self@;
                let ghost oldp = self@[si as int].1;
                let ghost oldk = self@[si as int].0;
                let pos = context.position as usize;
                let encoder = matches!(context.controller, Controller::Encoder);
                let mut written = false;
                let entry = &mut self.stores[si];
                proof {
                    assert(entry.1@ == oldp);
                    assert(entry.0@ == oldk);
                }
                if encoder {
                    if pos < entry.1.sliders.len() {
                        entry.1.sliders[pos] = value;
                        written = true;
                    }
                } else {
                    if pos < entry.1.keys.len() {
                        entry.1.keys[pos] = value;
                        written = true;
                    }
                }
                proof {
                    if written {
                        assert(entry.1@.keys =~= spec_profile_with_slot(
                            oldp,
                            encoder,
                            pos as int,
                            vv,
                        ).keys);
                        assert(entry.1@.sliders =~= spec_profile_with_slot(
                            oldp,
                            encoder,
                            pos as int,
                            vv,
                        ).sliders);
                        assert(self@ =~= before.update(
                            si as int,
                            (oldk, spec_profile_with_slot(oldp, encoder, pos as int, vv)),
                        ));
                        assert(self@ =~= spec_set_slot(before, context@, vv));
                    } else {
                        assert(entry.1@ == oldp);
                        assert(self@ =~= before);
                        assert(self@ =~= spec_set_slot(before, context@, vv));
                    }
                }
                written
            },
        }
    }
}


/// Whether a slot holds anything belonging to a plugin: the instance
/// itself, or a child inside a container.
pub open spec fn slot_has_plugin(o: Option<ActionInstanceV>, p: Seq<char>) -> bool {
    match o {
        None => false,
        Some(i) => i.action.plugin == p || (match i.children {
            Some(cs) => exists|j: int| 0 <= j < cs.len() && (#[trigger] cs[j]).action.plugin == p,
            None => false,
        }),
    }
}

/// Whether a profile holds anything belonging to a plugin.
pub open spec fn profile_has_plugin(pr: ProfileV, p: Seq<char>) -> bool {
    (exists|k: int| 0 <= k < pr.keys.len() && slot_has_plugin(#[trigger] pr.keys[k], p)) || (
    exists|k: int| 0 <= k < pr.sliders.len() && slot_has_plugin(#[trigger] pr.sliders[k], p))
}

/// The children of a container that do not belong to a plugin, in order.
pub open spec fn spec_remove_plugin_children(cs: Seq<ActionInstanceV>, p: Seq<char>) -> Seq<
    ActionInstanceV,
>
    decreases cs.len(),
{
    if cs.len() == 0 {
        Seq::empty()
    } else {
        let rest = spec_remove_plugin_children(cs.drop_last(), p);
        if cs.last().action.plugin == p {
            rest
        } else {
            rest.push(cs.last())
        }
    }
}

/// What removing a plugin leaves of one slot.
pub open spec fn spec_remove_plugin_slot(o: Option<ActionInstanceV>, p: Seq<char>) -> Option<
    ActionInstanceV,
> {
    match o {
        None => None,
        Some(i) => if i.action.plugin == p {
            None
        } else {
            Some(
                ActionInstanceV {
                    children: match i.children {
                        Some(cs) => Some(spec_remove_plugin_children(cs, p)),
                        None => None,
                    },
                    ..i
                },
            )
        },
    }
}

/// What removing a plugin leaves of a whole profile.
pub open spec fn spec_remove_plugin_profile(pr: ProfileV, p: Seq<char>) -> ProfileV {
    ProfileV {
        id: pr.id,
        keys: Seq::new(pr.keys.len(), |k: int| spec_remove_plugin_slot(pr.keys[k], p)),
        sliders: Seq::new(pr.sliders.len(), |k: int| spec_remove_plugin_slot(pr.sliders[k], p)),
    }
}

/// The surviving children of a container never belong to the removed
/// plugin.
pub proof fn lemma_remove_children_clean(cs: Seq<ActionInstanceV>, p: Seq<char>)
    ensures
        forall|j: int|
            0 <= j < spec_remove_plugin_children(cs, p).len() ==> (
            #[trigger] spec_remove_plugin_children(cs, p)[j]).action.plugin != p,
    decreases cs.len(),
{
    if cs.len() > 0 {
        lemma_remove_children_clean(cs.drop_last(), p);
    }
}

/// Removing a plugin removes every instance of it, container children
/// included: nothing of the plugin remains anywhere in the profile.
pub proof fn lemma_remove_plugin_removes_all(pr: ProfileV, p: Seq<char>)
    ensures
        !profile_has_plugin(spec_remove_plugin_profile(pr, p), p),
{
    let out = spec_remove_plugin_profile(pr, p);
    assert forall|k: int| 0 <= k < out.keys.len() implies !slot_has_plugin(
        #[trigger] out.keys[k],
        p,
    ) by {
        match pr.keys[k] {
            Some(i) => {
                if i.action.plugin != p {
                    match i.children {
                        Some(cs) => {
                            lemma_remove_children_clean(cs, p);
                        },
                        None => {},
                    }
                }
            },
            None => {},
        }
    }
    assert forall|k: int| 0 <= k < out.sliders.len() implies !slot_has_plugin(
        #[trigger] out.sliders[k],
        p,
    ) by {
        match pr.sliders[k] {
            Some(i) => {
                if i.action.plugin != p {
                    match i.children {
                        Some(cs) => {
                            lemma_remove_children_clean(cs, p);
                        },
                        None => {},
                    }
                }
            },
            None => {},
        }
    }
}

/// The keys of the stores whose profile holds anything of a plugin, in
/// store order.
pub open spec fn affected_keys(s: StoresV, p: Seq<char>) -> Seq<Seq<char>>
    decreases s.len(),
{
    if s.len() == 0 {
        Seq::empty()
    } else {
        let rest = affected_keys(s.drop_last(), p);
        if profile_has_plugin(s.last().1, p) {
            rest.push(s.last().0)
        } else {
            rest
        }
    }
}

/// Every affected key is the key of some affected entry.
pub proof fn lemma_affected_subset(s: StoresV, p: Seq<char>, x: Seq<char>)
    requires
        affected_keys(s, p).contains(x),
    ensures
        exists|i: int| 0 <= i < s.len() && (#[trigger] s[i]).0 == x,
    decreases s.len(),
{
    if s.len() > 0 {
        let rest = affected_keys(s.drop_last(), p);
        if rest.contains(x) {
            lemma_affected_subset(s.drop_last(), p, x);
            let i = choose|i: int| 0 <= i < s.drop_last().len() && (#[trigger] s.drop_last()[i]).0 == x;
            assert(s[i].0 == x);
        } else {
            assert(s[s.len() - 1].0 == x);
        }
    }
}

/// With distinct keys, each store is reported affected at most once.
pub proof fn lemma_affected_no_dup(s: StoresV, p: Seq<char>)
    requires
        wf_stores(s),
    ensures
        affected_keys(s, p).no_duplicates(),
    decreases s.len(),
{
    if s.len() > 0 {
        let front = s.drop_last();
        assert(wf_stores(front)) by {
            assert forall|i: int, j: int| 0 <= i < j < front.len() implies (
            #[trigger] front[i]).0 != (#[trigger] front[j]).0 by {
                assert(front[i] == s[i]);
                assert(front[j] == s[j]);
            }
        }
        lemma_affected_no_dup(front, p);
        if profile_has_plugin(s.last().1, p) {
            let rest = affected_keys(front, p);
            if rest.contains(s.last().0) {
                lemma_affected_subset(front, p, s.last().0);
                let i = choose|i: int| 0 <= i < front.len() && (#[trigger] front[i]).0 == s.last().0;
                assert(s[i].0 == s[s.len() - 1].0);
                assert(false);
            }
        }
    }
}


/// The addresses of a plugin's children inside one container, in order.
pub open spec fn child_plugin_contexts(cs: Seq<ActionInstanceV>, p: Seq<char>) -> Seq<
    ActionContextV,
>
    decreases cs.len(),
{
    if cs.len() == 0 {
        Seq::empty()
    } else {
        let rest = child_plugin_contexts(cs.drop_last(), p);
        if cs.last().action.plugin == p {
            rest.push(cs.last().context)
        } else {
            rest
        }
    }
}

/// The addresses a plugin owns at one slot: the slot's own instance when
/// it belongs to the plugin, then its children that do.
pub open spec fn slot_plugin_contexts(o: Option<ActionInstanceV>, p: Seq<char>) -> Seq<
    ActionContextV,
> {
    match o {
        None => Seq::empty(),
        Some(i) => (if i.action.plugin == p {
            seq![i.context]
        } else {
            Seq::empty()
        }) + (match i.children {
            Some(cs) => child_plugin_contexts(cs, p),
            None => Seq::empty(),
        }),
    }
}

/// The addresses a plugin owns across a row of slots, in slot order.
pub open spec fn slots_plugin_contexts(slots: Seq<Option<ActionInstanceV>>, p: Seq<char>) -> Seq<
    ActionContextV,
>
    decreases slots.len(),
{
    if slots.len() == 0 {
        Seq::empty()
    } else {
        slots_plugin_contexts(slots.drop_last(), p) + slot_plugin_contexts(slots.last(), p)
    }
}

/// The addresses a plugin owns in one profile: keys first, then encoders.
pub open spec fn profile_plugin_contexts(pr: ProfileV, p: Seq<char>) -> Seq<ActionContextV> {
    slots_plugin_contexts(pr.keys, p) + slots_plugin_contexts(pr.sliders, p)
}

/// The addresses a plugin owns across all stores, in store order.
pub open spec fn stores_plugin_contexts(s: StoresV, p: Seq<char>) -> Seq<ActionContextV>
    decreases s.len(),
{
    if s.len() == 0 {
        Seq::empty()
    } else {
        stores_plugin_contexts(s.drop_last(), p) + profile_plugin_contexts(s.last().1, p)
    }
}

/// Collect a plugin's child addresses in one container.
fn child_contexts_vec(cs: &Vec<ChildInstance>, plugin: &str) -> (r: Vec<ActionContext>)
    ensures
        r.deep_view() == child_plugin_contexts(cs.deep_view(), plugin@),
{
    let mut out: Vec<ActionContext> = Vec::new();
    let mut j: usize = 0;
    proof {
        assert(out.deep_view() =~= child_plugin_contexts(cs.deep_view().take(0), plugin@));
    }
    while j < cs.len()
        invariant
            0 <= j <= cs@.len(),
            out.deep_view() == child_plugin_contexts(cs.deep_view().take(j as int), plugin@),
        decreases cs@.len() - j,
    {
        let ghost t = cs.deep_view().take(j as int + 1);
        proof {
            assert(t.drop_last() =~= cs.deep_view().take(j as int));
            assert(t.last() == cs.deep_view()[j as int]);
            assert(cs.deep_view()[j as int] == cs@[j as int]@);
        }
        let ghost prev = out.deep_view();
        if str_eq(cs[j].action.plugin.as_str(), plugin) {
            out.push(dup_action_context(&cs[j].context));
            proof {
                assert forall|m: int| 0 <= m < out.deep_view().len() implies #[trigger] out.deep_view()[m]
                    == if m < prev.len() {
                    prev[m]
                } else {
                    cs.deep_view()[j as int].context
                } by {
                    assert(out.deep_view()[m] == out@[m]@);
                }
                assert(out.deep_view() =~= prev.push(cs.deep_view()[j as int].context));
            }
        }
        j = j + 1;
    }
    proof {
        assert(cs.deep_view().take(cs@.len() as int) =~= cs.deep_view());
    }
    out
}

/// Collect a plugin's addresses at one slot.
fn slot_contexts_vec(o: &Option<ActionInstance>, plugin: &str) -> (r: Vec<ActionContext>)
    ensures
        r.deep_view() == slot_plugin_contexts(o.deep_view(), plugin@),
{
    match o {
        None => {
            let out: Vec<ActionContext> = Vec::new();
            proof {
                assert(out.deep_view() =~= slot_plugin_contexts(o.deep_view(), plugin@));
            }
            out
        },
        Some(i) => {
            let mut out: Vec<ActionContext> = Vec::new();
            if str_eq(i.action.plugin.as_str(), plugin) {
                out.push(dup_action_context(&i.context));
            }
            let ghost own = out.deep_view();
            proof {
                if i@.action.plugin == plugin@ {
                    assert(own =~= seq![i@.context]);
                } else {
                    assert(own =~= Seq::<ActionContextV>::empty());
                }
            }
            match &i.children {
                None => {
                    proof {
                        assert(out.deep_view() =~= slot_plugin_contexts(o.deep_view(), plugin@));
                    }
                    out
                },
                Some(cs) => {
                    let mut kids = child_contexts_vec(cs, plugin);
                    let ghost kv = kids.deep_view();
                    out.append(&mut kids);
                    proof {
                        assert forall|m: int|
                            0 <= m < out.deep_view().len() implies #[trigger] out.deep_view()[m]
                            == if m < own.len() {
                            own[m]
                        } else {
                            kv[m - own.len()]
                        } by {
                            assert(out.deep_view()[m] == out@[m]@);
                        }
                        assert(out.deep_view() =~= own + kv);
                    }
                    out
                },
            }
        },
    }
}

/// Collect a plugin's addresses across a row of slots.
fn slots_contexts_vec(slots: &Vec<Option<ActionInstance>>, plugin: &str) -> (r: Vec<ActionContext>)
    ensures
        r.deep_view() == slots_plugin_contexts(slots.deep_view(), plugin@),
{
    let mut out: Vec<ActionContext> = Vec::new();
    let mut k: usize = 0;
    proof {
        assert(out.deep_view() =~= slots_plugin_contexts(slots.deep_view().take(0), plugin@));
    }
    while k < slots.len()
        invariant
            0 <= k <= slots@.len(),
            out.deep_view() == slots_plugin_contexts(slots.deep_view().take(k as int), plugin@),
        decreases slots@.len() - k,
    {
        let ghost t = slots.deep_view().take(k as int + 1);
        proof {
            assert(t.drop_last() =~= slots.deep_view().take(k as int));
            assert(t.last() == slots.deep_view()[k as int]);
            assert(slots.deep_view()[k as int] == slots@[k as int].deep_view());
        }
        let ghost prev = out.deep_view();
        let mut part = slot_contexts_vec(&slots[k], plugin);
        let ghost pv = part.deep_view();
        out.append(&mut part);
        proof {
            assert forall|m: int| 0 <= m < out.deep_view().len() implies #[trigger] out.deep_view()[m]
                == if m < prev.len() {
                prev[m]
            } else {
                pv[m - prev.len()]
            } by {
                assert(out.deep_view()[m] == out@[m]@);
            }
            assert(out.deep_view() =~= prev + pv);
        }
        k = k + 1;
    }
    proof {
        assert(slots.deep_view().take(slots@.len() as int) =~= slots.deep_view());
    }
    out
}

/// Collect a plugin's addresses in one profile.
fn profile_contexts_vec(pr: &Profile, plugin: &str) -> (r: Vec<ActionContext>)
    ensures
        r.deep_view() == profile_plugin_contexts(pr@, plugin@),
{
    let mut out = slots_contexts_vec(&pr.keys, plugin);
    let ghost a = out.deep_view();
    let mut enc = slots_contexts_vec(&pr.sliders, plugin);
    let ghost b = enc.deep_view();
    out.append(&mut enc);
    proof {
        assert forall|m: int| 0 <= m < out.deep_view().len() implies #[trigger] out.deep_view()[m]
            == if m < a.len() {
            a[m]
        } else {
            b[m - a.len()]
        } by {
            assert(out.deep_view()[m] == out@[m]@);
        }
        assert(out.deep_view() =~= a + b);
    }
    out
}

/// Whether a slot holds anything of a plugin.
fn slot_contains_plugin(o: &Option<ActionInstance>, plugin: &str) -> (r: bool)
    ensures
        r == slot_has_plugin(o.deep_view(), plugin@),
{
    match o {
        None => false,
        Some(i) => {
            if str_eq(i.action.plugin.as_str(), plugin) {
                return true;
            }
            match &i.children {
                None => false,
                Some(cs) => {
                    let mut j: usize = 0;
                    while j < cs.len()
                        invariant
                            0 <= j <= cs@.len(),
                            o.deep_view() == Some(i@),
                            i@.children == Some(cs.deep_view()),
                            forall|m: int|
                                0 <= m < j ==> (#[trigger] cs.deep_view()[m]).action.plugin
                                    != plugin@,
                        decreases cs@.len() - j,
                    {
                        proof {
                            assert(cs.deep_view()[j as int] == cs@[j as int]@);
                        }
                        if str_eq(cs[j].action.plugin.as_str(), plugin) {
                            proof {
                                assert((cs.deep_view()[j as int]).action.plugin == plugin@);
                                assert(slot_has_plugin(o.deep_view(), plugin@));
                            }
                            return true;
                        }
                        j = j + 1;
                    }
                    false
                },
            }
        },
    }
}

/// Whether a profile holds anything of a plugin.
fn profile_contains_plugin(pr: &Profile, plugin: &str) -> (r: bool)
    ensures
        r == profile_has_plugin(pr@, plugin@),
{
    let mut k: usize = 0;
    while k < pr.keys.len()
        invariant
            0 <= k <= pr.keys@.len(),
            forall|m: int| 0 <= m < k ==> !slot_has_plugin(#[trigger] pr@.keys[m], plugin@),
        decreases pr.keys@.len() - k,
    {
        proof {
            assert(pr@.keys[k as int] == pr.keys@[k as int].deep_view());
        }
        if slot_contains_plugin(&pr.keys[k], plugin) {
            return true;
        }
        k = k + 1;
    }
    let mut k2: usize = 0;
    while k2 < pr.sliders.len()
        invariant
            0 <= k2 <= pr.sliders@.len(),
            forall|m: int| 0 <= m < pr.keys@.len() ==> !slot_has_plugin(#[trigger] pr@.keys[m], plugin@),
            forall|m: int| 0 <= m < k2 ==> !slot_has_plugin(#[trigger] pr@.sliders[m], plugin@),
        decreases pr.sliders@.len() - k2,
    {
        proof {
            assert(pr@.sliders[k2 as int] == pr.sliders@[k2 as int].deep_view());
        }
        if slot_contains_plugin(&pr.sliders[k2], plugin) {
            return true;
        }
        k2 = k2 + 1;
    }
    false
}

/// The children of a container without those of a plugin.
fn remove_plugin_children(cs: &Vec<ChildInstance>, plugin: &str) -> (r: Vec<ChildInstance>)
    ensures
        r.deep_view() == spec_remove_plugin_children(cs.deep_view(), plugin@),
{
    let mut out: Vec<ChildInstance> = Vec::new();
    let mut j: usize = 0;
    while j < cs.len()
        invariant
            0 <= j <= cs@.len(),
            out.deep_view() == spec_remove_plugin_children(
                cs.deep_view().take(j as int),
                plugin@,
            ),
        decreases cs@.len() - j,
    {
        let ghost t = cs.deep_view().take(j as int + 1);
        proof {
            assert(t.drop_last() =~= cs.deep_view().take(j as int));
            assert(t.last() == cs.deep_view()[j as int]);
            assert(cs.deep_view()[j as int] == cs@[j as int]@);
        }
        let ghost prev = out.deep_view();
        if !str_eq(cs[j].action.plugin.as_str(), plugin) {
            out.push(dup_child_instance(&cs[j]));
            proof {
                assert forall|m: int| 0 <= m < out.deep_view().len() implies #[trigger] out.deep_view()[m]
                    == if m < prev.len() {
                    prev[m]
                } else {
                    cs.deep_view()[j as int]
                } by {
                    assert(out.deep_view()[m] == out@[m]@);
                }
                assert(out.deep_view() =~= prev.push(cs.deep_view()[j as int]));
            }
        }
        j = j + 1;
    }
    proof {
        assert(cs.deep_view().take(cs@.len() as int) =~= cs.deep_view());
    }
    out
}

/// A profile without everything of a plugin.
fn remove_plugin_profile(pr: &Profile, plugin: &str) -> (r: Profile)
    ensures
        r@ == spec_remove_plugin_profile(pr@, plugin@),
{
    let mut keys: Vec<Option<ActionInstance>> = Vec::new();
    let mut k: usize = 0;
    while k < pr.keys.len()
        invariant
            0 <= k <= pr.keys@.len(),
            keys@.len() == k,
            forall|m: int|
                0 <= m < k ==> #[trigger] keys.deep_view()[m] == spec_remove_plugin_slot(
                    pr@.keys[m],
                    plugin@,
                ),
        decreases pr.keys@.len() - k,
    {
        let ghost prev = keys.deep_view();
        proof {
            assert(pr@.keys[k as int] == pr.keys@[k as int].deep_view());
        }
        match &pr.keys[k] {
            None => keys.push(None),
            Some(i) => {
                if str_eq(i.action.plugin.as_str(), plugin) {
                    keys.push(None);
                } else {
                    let children = match &i.children {
                        Some(cs) => Some(remove_plugin_children(cs, plugin)),
                        None => None,
                    };
                    keys.push(
                        Some(
                            ActionInstance {
                                action: dup_action(&i.action),
                                context: dup_action_context(&i.context),
                                states: dup_action_states(&i.states),
                                current_state: i.current_state,
                                settings: i.settings.clone(),
                                children,
                            },
                        ),
                    );
                }
            },
        }
        proof {
            assert forall|m: int| 0 <= m < k + 1 implies #[trigger] keys.deep_view()[m]
                == if m < k {
                prev[m]
            } else {
                spec_remove_plugin_slot(pr@.keys[k as int], plugin@)
            } by {
                assert(keys.deep_view()[m] == keys@[m].deep_view());
            }
        }
        k = k + 1;
    }
    let mut sliders: Vec<Option<ActionInstance>> = Vec::new();
    let mut k2: usize = 0;
    while k2 < pr.sliders.len()
        invariant
            0 <= k2 <= pr.sliders@.len(),
            sliders@.len() == k2,
            forall|m: int|
                0 <= m < k2 ==> #[trigger] sliders.deep_view()[m] == spec_remove_plugin_slot(
                    pr@.sliders[m],
                    plugin@,
                ),
        decreases pr.sliders@.len() - k2,
    {
        let ghost prev = sliders.deep_view();
        proof {
            assert(pr@.sliders[k2 as int] == pr.sliders@[k2 as int].deep_view());
        }
        match &pr.sliders[k2] {
            None => sliders.push(None),
            Some(i) => {
                if str_eq(i.action.plugin.as_str(), plugin) {
                    sliders.push(None);
                } else {
                    let children = match &i.children {
                        Some(cs) => Some(remove_plugin_children(cs, plugin)),
                        None => None,
                    };
                    sliders.push(
                        Some(
                            ActionInstance {
                                action: dup_action(&i.action),
                                context: dup_action_context(&i.context),
                                states: dup_action_states(&i.states),
                                current_state: i.current_state,
                                settings: i.settings.clone(),
                                children,
                            },
                        ),
                    );
                }
            },
        }
        proof {
            assert forall|m: int| 0 <= m < k2 + 1 implies #[trigger] sliders.deep_view()[m]
                == if m < k2 {
                prev[m]
            } else {
                spec_remove_plugin_slot(pr@.sliders[k2 as int], plugin@)
            } by {
                assert(sliders.deep_view()[m] == sliders@[m].deep_view());
            }
        }
        k2 = k2 + 1;
    }
    let r = Profile { id: pr.id.clone(), keys, sliders };
    proof {
        assert(r@.keys =~= spec_remove_plugin_profile(pr@, plugin@).keys);
        assert(r@.sliders =~= spec_remove_plugin_profile(pr@, plugin@).sliders);
    }
    r
}

impl ProfileStores {
    /// Remove everything a plugin owns from every loaded store — its
    /// top-level instances and its children inside containers anywhere.
    /// The keys that come back name each store that was touched, exactly
    /// once each when keys are distinct; those are the profiles to write
    /// back to disk, one write each.
    pub fn remove_plugin_instances(&mut self, plugin: &str) -> (saved: Vec<String>)
        ensures
            final(self)@.len() == old(self)@.len(),
            forall|i: int|
                0 <= i < old(self)@.len() ==> (#[trigger] final(self)@[i]).0 == old(self)@[i].0
                    && final(self)@[i].1 == spec_remove_plugin_profile(old(self)@[i].1, plugin@),
            forall|i: int|
                0 <= i < final(self)@.len() ==> !profile_has_plugin(
                    (#[trigger] final(self)@[i]).1,
                    plugin@,
                ),
            saved.deep_view() == affected_keys(old(self)@, plugin@),
            wf_stores(old(self)@) ==> saved.deep_view().no_duplicates(),
    {
        let ghost s0 = self@;
        let mut saved: Vec<String> = Vec::new();
        let mut si: usize = 0;
        let n = self.stores.len();
        while si < n
            invariant
                0 <= si <= n,
                n == self.stores@.len(),
                self@.len() == s0.len(),
                n == s0.len(),
                forall|i: int|
                    0 <= i < si ==> (#[trigger] self@[i]).0 == s0[i].0 && self@[i].1
                        == spec_remove_plugin_profile(s0[i].1, plugin@),
                forall|i: int| si <= i < n ==> #[trigger] self@[i] == s0[i],
                saved.deep_view() == affected_keys(s0.take(si as int), plugin@),
            decreases n - si,
        {
            let ghost t = s0.take(si as int + 1);
            proof {
                assert(t.drop_last() =~= s0.take(si as int));
                assert(t.last() == s0[si as int]);
            }
            let has = profile_contains_plugin(&self.stores[si].1, plugin);
            let cleaned = remove_plugin_profile(&self.stores[si].1, plugin);
            let ghost before = self@;
            let ghost cv = cleaned@;
            let ghost ek = self@[si as int].0;
            let ghost pstores = self.stores@;
            let entry = &mut self.stores[si];
            entry.1 = cleaned;
            proof {
                assert forall|m: int| 0 <= m < self@.len() implies #[trigger] self@[m]
                    == before.update(si as int, (ek, cv))[m] by {
                    if m != si {
                        assert(self.stores@[m] == pstores[m]);
                        assert(before[m] == (pstores[m].0@, pstores[m].1@));
                    } else {
                        assert(self.stores@[si as int].0@ == ek);
                        assert(self.stores@[si as int].1@ == cv);
                    }
                }
                assert(self@ =~= before.update(si as int, (ek, cv)));
            }
            if has {
                let ghost sprev = saved.deep_view();
                let key = self.stores[si].0.clone();
                proof {
                    assert(key@ == self@[si as int].0);
                    assert(self@[si as int].0 == s0[si as int].0);
                }
                saved.push(key);
                proof {
                    assert forall|m: int|
                        0 <= m < saved.deep_view().len() implies #[trigger] saved.deep_view()[m]
                        == if m < sprev.len() {
                        sprev[m]
                    } else {
                        s0[si as int].0
                    } by {
                        assert(saved.deep_view()[m] == saved@[m]@);
                    }
                    assert(saved.deep_view() =~= sprev.push(s0[si as int].0));
                }
            }
            si = si + 1;
        }
        proof {
            assert(s0.take(n as int) =~= s0);
            assert forall|i: int| 0 <= i < self@.len() implies !profile_has_plugin(
                (#[trigger] self@[i]).1,
                plugin@,
            ) by {
                lemma_remove_plugin_removes_all(s0[i].1, plugin@);
            }
            if wf_stores(s0) {
                lemma_affected_no_dup(s0, plugin@);
            }
        }
        saved
    }

    /// The addresses of every instance of a plugin, container children
    /// included, across all loaded stores, in store order.
    pub fn all_from_plugin(&self, plugin: &str) -> (r: Vec<ActionContext>)
        ensures
            r.deep_view() == stores_plugin_contexts(self@, plugin@),
    {
        let ghost s0 = self@;
        let mut out: Vec<ActionContext> = Vec::new();
        let mut si: usize = 0;
        proof {
            assert(out.deep_view() =~= stores_plugin_contexts(s0.take(0), plugin@));
        }
        while si < self.stores.len()
            invariant
                0 <= si <= self.stores@.len(),
                s0 == self@,
                s0.len() == self.stores@.len(),
                out.deep_view() == stores_plugin_contexts(s0.take(si as int), plugin@),
            decreases self.stores@.len() - si,
        {
            let ghost t = s0.take(si as int + 1);
            proof {
                assert(t.drop_last() =~= s0.take(si as int));
                assert(t.last() == s0[si as int]);
                assert(s0[si as int].1 == self.stores@[si as int].1@);
            }
            let ghost prev = out.deep_view();
            let mut part = profile_contexts_vec(&self.stores[si].1, plugin);
            let ghost pv = part.deep_view();
            out.append(&mut part);
            proof {
                assert forall|m: int| 0 <= m < out.deep_view().len() implies #[trigger] out.deep_view()[m]
                    == if m < prev.len() {
                    prev[m]
                } else {
                    pv[m - prev.len()]
                } by {
                    assert(out.deep_view()[m] == out@[m]@);
                }
                assert(out.deep_view() =~= prev + pv);
            }
            si = si + 1;
        }
        proof {
            assert(s0.take(s0.len() as int) =~= s0);
        }
        out
    }
}


/// The per-device configuration a device store holds: which profile is
/// selected.
pub struct DeviceConfig {
    pub selected_profile: String,
}

/// The per-device configuration stores, keyed by device id.
pub struct DeviceStores {
    pub stores: Vec<(String, DeviceConfig)>,
}

impl View for DeviceStores {
    type V = crate::registry::NamespacesV;

    open spec fn view(&self) -> crate::registry::NamespacesV {
        Seq::new(
            self.stores@.len(),
            |i: int| (self.stores@[i].0@, self.stores@[i].1.selected_profile@),
        )
    }
}

/// The profile shown for a device: the stored choice when it still
/// exists, else the first existing profile.
pub open spec fn spec_selected(stored: Seq<char>, all: Seq<Seq<char>>) -> Seq<char> {
    if all.contains(stored) {
        stored
    } else {
        all[0]
    }
}

impl DeviceStores {
    /// No device configurations yet.
    pub fn new() -> (r: Self)
        ensures
            r@ == Seq::<(Seq<char>, Seq<char>)>::empty(),
    {
        let r = DeviceStores { stores: Vec::new() };
        proof {
            assert(r@ =~= Seq::<(Seq<char>, Seq<char>)>::empty());
        }
        r
    }

    /// Find the position of a device id.
    fn position_of(&self, key: &str) -> (r: Option<usize>)
        ensures
            match r {
                Some(i) => Some(i as int) == crate::registry::ns_find(self@, key@, 0),
                None => crate::registry::ns_find(self@, key@, 0) is None,
            },
    {
        let mut i: usize = 0;
        while i < self.stores.len()
            invariant
                0 <= i <= self.stores@.len(),
                self@.len() == self.stores@.len(),
                crate::registry::ns_find(self@, key@, 0) == crate::registry::ns_find(
                    self@,
                    key@,
                    i as int,
                ),
            decreases self.stores@.len() - i,
        {
            proof {
                assert(self@[i as int].0 == self.stores@[i as int].0@);
            }
            if str_eq(self.stores[i].0.as_str(), key) {
                return Some(i);
            }
            i = i + 1;
        }
        None
    }

    /// The profile selected for a device, chosen among the profiles that
    /// exist on disk; a device asked about for the first time gets a
    /// configuration selecting `Default`, which the caller persists when
    /// `created` comes back true.
    pub fn get_selected_profile(&mut self, device: &str, all: &Vec<String>) -> (r: (
        String,
        bool,
    ))
        requires
            all@.len() > 0,
        ensures
            r.1 == (crate::registry::ns_of(old(self)@, device@) is None),
            r.1 ==> final(self)@ == old(self)@.push((device@, "Default"@)) && r.0@
                == spec_selected("Default"@, all.deep_view()),
            !r.1 ==> final(self)@ == old(self)@ && r.0@ == spec_selected(
                crate::registry::ns_of(old(self)@, device@)->Some_0,
                all.deep_view(),
            ),
    {
        proof {
            crate::registry::lemma_ns_find(self@, device@, 0);
        }
        let created: bool;
        let stored: String;
        match self.position_of(device) {
            Some(i) => {
                created = false;
                proof {
                    assert(self@[i as int].1 == self.stores@[i as int].1.selected_profile@);
                }
                stored = self.stores[i].1.selected_profile.clone();
            },
            None => {
                created = true;
                let ghost before = self@;
                self.stores.push(
                    (device.to_owned(), DeviceConfig { selected_profile: "Default".to_owned() }),
                );
                proof {
                    assert(self@ =~= before.push((device@, "Default"@)));
                }
                stored = "Default".to_owned();
            },
        }
        if crate::text::vec_contains_str(all, stored.as_str()) {
            (stored, created)
        } else {
            proof {
                assert(all.deep_view()[0] == all@[0]@);
            }
            (all[0].clone(), created)
        }
    }

    /// Select a profile for a device, creating its configuration when
    /// absent; the caller persists it either way.
    pub fn set_selected_profile(&mut self, device: &str, id: String)
        ensures
            crate::registry::ns_of(final(self)@, device@) == Some(id@),
            forall|k: Seq<char>|
                k != device@ ==> crate::registry::ns_of(final(self)@, k) == crate::registry::ns_of(
                    old(self)@,
                    k,
                ),
    {
        proof {
            crate::registry::lemma_ns_find(self@, device@, 0);
        }
        let ghost idv = id@;
        match self.position_of(device) {
            Some(i) => {
                let ghost before = self@;
                let ghost ek = self@[i as int].0;
                let entry = &mut self.stores[i];
                entry.1 = DeviceConfig { selected_profile: id };
                proof {
                    assert(self@ =~= before.update(i as int, (ek, idv)));
                    crate::registry::lemma_ns_update_public(before, i as int, ek, idv, device@);
                }
            },
            None => {
                let ghost before = self@;
                self.stores.push((device.to_owned(), DeviceConfig { selected_profile: id }));
                proof {
                    assert(self@ =~= before.push((device@, idv)));
                    crate::registry::lemma_ns_push_public(before, device@, idv);
                }
            },
        }
    }
}


/// The profile names a device offers: what exists on disk, or the one
/// default name when nothing does yet.
pub fn profile_list_or_default(names: Vec<String>) -> (r: Vec<String>)
    ensures
        r@.len() > 0,
        names@.len() > 0 ==> r == names,
        names@.len() == 0 ==> r.deep_view() == seq!["Default"@],
{
    if names.len() > 0 {
        names
    } else {
        let mut out: Vec<String> = Vec::new();
        out.push("Default".to_owned());
        proof {
            assert(out.deep_view() =~= seq!["Default"@]);
        }
        out
    }
}

} // verus!






