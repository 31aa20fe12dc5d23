//! The device registry: currently connected devices, and the namespace
//! table that says which plugin may register devices under which
//! two-character id prefix.

use vstd::prelude::*;

use crate::text::str_eq;

verus! {

/// Metadata of a connected device.
pub struct DeviceInfo {
    pub id: String,
    pub plugin: String,
    pub name: String,
    pub rows: u8,
    pub columns: u8,
    pub encoders: u8,
    pub device_type: u8,
}

/// Mathematical image of a device's metadata.
pub ghost struct DeviceInfoV {
    pub id: Seq<char>,
    pub plugin: Seq<char>,
    pub name: Seq<char>,
    pub rows: u8,
    pub columns: u8,
    pub encoders: u8,
    pub device_type: u8,
}

impl View for DeviceInfo {
    type V = DeviceInfoV;

    open spec fn view(&self) -> DeviceInfoV {
        DeviceInfoV {
            id: self.id@,
            plugin: self.plugin@,
            name: self.name@,
            rows: self.rows,
            columns: self.columns,
            encoders: self.encoders,
            device_type: self.device_type,
        }
    }
}

impl DeepView for DeviceInfo {
    type V = DeviceInfoV;

    open spec fn deep_view(&self) -> DeviceInfoV {
        self.view()
    }
}

/// Copy a device's metadata.
pub fn dup_device_info(d: &DeviceInfo) -> (r: DeviceInfo)
    ensures
        r@ == d@,
{
    DeviceInfo {
        id: d.id.clone(),
        plugin: d.plugin.clone(),
        name: d.name.clone(),
        rows: d.rows,
        columns: d.columns,
        encoders: d.encoders,
        device_type: d.device_type,
    }
}

/// A table of keyed strings: namespaces to owning plugins, or devices to
/// their metadata, in insertion order with distinct keys.
pub type NamespacesV = Seq<(Seq<char>, Seq<char>)>;

/// The first entry with the given key, scanning from a position.
pub open spec fn ns_find(s: NamespacesV, k: Seq<char>, from: int) -> Option<int>
    decreases s.len() - from,
{
    if from < 0 || from >= s.len() {
        None
    } else if s[from].0 == k {
        Some(from)
    } else {
        ns_find(s, k, from + 1)
    }
}

/// The value stored under a key, if any.
pub open spec fn ns_of(s: NamespacesV, k: Seq<char>) -> Option<Seq<char>> {
    match ns_find(s, k, 0) {
        Some(i) => Some(s[i].1),
        None => None,
    }
}

/// What a successful or failed key search says about the entries.
pub proof fn lemma_ns_find(s: NamespacesV, k: Seq<char>, from: int)
    requires
        0 <= from <= s.len(),
    ensures
        match ns_find(s, k, from) {
            Some(i) => from <= i < s.len() && s[i].0 == k && forall|j: int|
                from <= j < i ==> (#[trigger] s[j]).0 != k,
            None => forall|j: int| from <= j < s.len() ==> (#[trigger] s[j]).0 != k,
        },
    decreases s.len() - from,
{
    if from < s.len() && s[from].0 != k {
        lemma_ns_find(s, k, from + 1);
    }
}

/// The namespace table: which plugin owns which device-id prefix.
pub struct DeviceNamespaces {
    pub entries: Vec<(String, String)>,
}

impl View for DeviceNamespaces {
    type V = NamespacesV;

    open spec fn view(&self) -> NamespacesV {
        Seq::new(self.entries@.len(), |i: int| (self.entries@[i].0@, self.entries@[i].1@))
    }
}

impl DeviceNamespaces {
    /// An empty namespace table.
    pub fn new() -> (r: Self)
        ensures
            r@ == Seq::<(Seq<char>, Seq<char>)>::empty(),
    {
        let r = DeviceNamespaces { entries: Vec::new() };
        proof {
            assert(r@ =~= Seq::<(Seq<char>, Seq<char>)>::empty());
        }
        r
    }

    /// Find the position of a prefix.
    fn position_of(&self, key: &str) -> (r: Option<usize>)
        ensures
            match r {
                Some(i) => Some(i as int) == ns_find(self@, key@, 0),
                None => ns_find(self@, key@, 0) is None,
            },
    {
        let mut i: usize = 0;
        while i < self.entries.len()
            invariant
                0 <= i <= self.entries@.len(),
                self@.len() == self.entries@.len(),
                ns_find(self@, key@, 0) == ns_find(self@, key@, i as int),
            decreases self.entries@.len() - i,
        {
            proof {
                assert(self@[i as int].0 == self.entries@[i as int].0@);
            }
            if str_eq(self.entries[i].0.as_str(), key) {
                return Some(i);
            }
            i = i + 1;
        }
        None
    }

    /// The plugin that claimed a prefix, if any.
    pub fn owner_of(&self, prefix: &str) -> (r: Option<String>)
        ensures
            match r {
                Some(p) => ns_of(self@, prefix@) == Some(p@),
                None => ns_of(self@, prefix@) is None,
            },
    {
        proof {
            lemma_ns_find(self@, prefix@, 0);
        }
        match self.position_of(prefix) {
            Some(i) => {
                proof {
                    assert(self@[i as int].1 == self.entries@[i as int].1@);
                }
                Some(self.entries[i].1.clone())
            },
            None => None,
        }
    }

    /// Claim a prefix for a plugin, replacing any earlier claim.
    pub fn claim(&mut self, prefix: String, plugin: String)
        ensures
            ns_of(final(self)@, prefix@) == Some(plugin@),
            forall|k: Seq<char>|
                k != prefix@ ==> ns_of(final(self)@, k) == ns_of(old(self)@, k),
    {
        proof {
            lemma_ns_find(self@, prefix@, 0);
        }
        let ghost kv = prefix@;
        let ghost pv = plugin@;
        match self.position_of(prefix.as_str()) {
            Some(i) => {
                let ghost before = self@;
                let entry = &mut self.entries[i];
                entry.1 = plugin;
                proof {
                    assert(self@ =~= before.update(i as int, (kv, pv)));
                    lemma_ns_update(before, i as int, kv, pv);
                }
            },
            None => {
                let ghost before = self@;
                self.entries.push((prefix, plugin));
                proof {
                    assert(self@ =~= before.push((kv, pv)));
                    lemma_ns_push(before, kv, pv);
                }
            },
        }
    }
}

/// Updating an entry in place changes that key's value and no other.
proof fn lemma_ns_update(s: NamespacesV, i: int, k: Seq<char>, v: Seq<char>)
    requires
        0 <= i < s.len(),
        s[i].0 == k,
        ns_find(s, k, 0) == Some(i),
    ensures
        ns_of(s.update(i, (k, v)), k) == Some(v),
        forall|k2: Seq<char>| k2 != k ==> ns_of(s.update(i, (k, v)), k2) == ns_of(s, k2),
{
    let t = s.update(i, (k, v));
    lemma_ns_find_update(s, i, k, v, k, 0);
    assert forall|k2: Seq<char>| k2 != k implies ns_of(t, k2) == ns_of(s, k2) by {
        lemma_ns_find_update(s, i, k, v, k2, 0);
        lemma_ns_find(s, k2, 0);
        match ns_find(s, k2, 0) {
            Some(j) => {
                assert(s[j].0 == k2);
                assert(j != i);
                assert(t[j].1 == s[j].1);
            },
            None => {},
        }
    }
}

/// How a key search behaves on a sequence with one entry's value replaced.
proof fn lemma_ns_find_update(s: NamespacesV, i: int, k: Seq<char>, v: Seq<char>, k2: Seq<char>, from: int)
    requires
        0 <= from <= s.len(),
        0 <= i < s.len(),
        s[i].0 == k,
    ensures
        ns_find(s.update(i, (k, v)), k2, from) == ns_find(s, k2, from),
    decreases s.len() - from,
{
    let t = s.update(i, (k, v));
    if from < s.len() {
        assert(t[from].0 == s[from].0);
        if s[from].0 != k2 {
            lemma_ns_find_update(s, i, k, v, k2, from + 1);
        }
    }
}

/// Appending an entry with a fresh key leaves every other lookup alone and
/// makes the new key found.
proof fn lemma_ns_push(s: NamespacesV, k: Seq<char>, v: Seq<char>)
    requires
        ns_find(s, k, 0) is None,
    ensures
        ns_of(s.push((k, v)), k) == Some(v),
        forall|k2: Seq<char>| k2 != k ==> ns_of(s.push((k, v)), k2) == ns_of(s, k2),
{
    let t = s.push((k, v));
    lemma_ns_find_push(s, k, v, k, 0);
    assert(ns_of(t, k) == Some(t[s.len() as int].1));
    assert forall|k2: Seq<char>| k2 != k implies ns_of(t, k2) == ns_of(s, k2) by {
        lemma_ns_find_push(s, k, v, k2, 0);
        lemma_ns_find(s, k2, 0);
        match ns_find(s, k2, 0) {
            Some(j) => {
                assert(s[j].0 == k2);
                assert(t[j].1 == s[j].1);
            },
            None => {},
        }
    }
}

/// How a key search behaves on a sequence with one entry appended.
proof fn lemma_ns_find_push(s: NamespacesV, k: Seq<char>, v: Seq<char>, k2: Seq<char>, from: int)
    requires
        0 <= from <= s.len(),
    ensures
        ns_find(s.push((k, v)), k2, from) == match ns_find(s, k2, from) {
            Some(i) => Some(i),
            None => if k2 == k {
                Some(s.len() as int)
            } else {
                None::<int>
            },
        },
    decreases s.len() - from,
{
    let t = s.push((k, v));
    if from < s.len() {
        assert(t[from] == s[from]);
        if s[from].0 != k2 {
            lemma_ns_find_push(s, k, v, k2, from + 1);
        }
    } else {
        assert(t[from].0 == k);
        if k2 != k {
            assert(ns_find(t, k2, from + 1) is None);
        }
    }
}

/// Replacing the value at a key's position changes that key's lookup and
/// no other; the key must sit at the found position.
pub proof fn lemma_ns_update_public(s: NamespacesV, i: int, k: Seq<char>, v: Seq<char>, key: Seq<char>)
    requires
        0 <= i < s.len(),
        s[i].0 == k,
        ns_find(s, k, 0) == Some(i),
        key == k,
    ensures
        ns_of(s.update(i, (k, v)), key) == Some(v),
        forall|k2: Seq<char>| k2 != key ==> ns_of(s.update(i, (k, v)), k2) == ns_of(s, k2),
{
    lemma_ns_update(s, i, k, v);
}

/// Appending an entry with a fresh key makes it found and changes no other
/// lookup.
pub proof fn lemma_ns_push_public(s: NamespacesV, k: Seq<char>, v: Seq<char>)
    requires
        ns_find(s, k, 0) is None,
    ensures
        ns_of(s.push((k, v)), k) == Some(v),
        forall|k2: Seq<char>| k2 != k ==> ns_of(s.push((k, v)), k2) == ns_of(s, k2),
{
    lemma_ns_push(s, k, v);
}

/// The two-character prefix of a device id that names its namespace.
pub open spec fn spec_device_prefix(id: Seq<char>) -> Seq<char> {
    id.take(2)
}

/// The two-character prefix of a device id, absent when the id is shorter.
pub fn device_prefix(id: &str) -> (r: Option<String>)
    ensures
        match r {
            Some(p) => id@.len() >= 2 && p@ == spec_device_prefix(id@),
            None => id@.len() < 2,
        },
{
    let n = id.unicode_len();
    if n < 2 {
        return None;
    }
    let p = id.substring_char(0, 2);
    proof {
        assert(p@ =~= spec_device_prefix(id@));
    }
    Some(p.to_owned())
}

/// Whether an identity may register or deregister a device: the hub itself
/// (the empty identity) always may; a plugin only under a prefix it has
/// claimed.
pub open spec fn spec_registration_allowed(
    ns: NamespacesV,
    uuid: Seq<char>,
    device_id: Seq<char>,
) -> bool {
    uuid.len() == 0 || (device_id.len() >= 2 && ns_of(ns, spec_device_prefix(device_id)) == Some(
        uuid,
    ))
}

/// Decide whether an identity may register or deregister a device.
pub fn registration_allowed(ns: &DeviceNamespaces, uuid: &str, device_id: &str) -> (r: bool)
    ensures
        r == spec_registration_allowed(ns@, uuid@, device_id@),
{
    if uuid.unicode_len() == 0 {
        return true;
    }
    match device_prefix(device_id) {
        Some(prefix) => match ns.owner_of(prefix.as_str()) {
            Some(owner) => str_eq(owner.as_str(), uuid),
            None => false,
        },
        None => false,
    }
}

/// The registry of currently connected devices.
pub struct DeviceRegistry {
    pub devices: Vec<(String, DeviceInfo)>,
}

/// Mathematical image of the registry.
pub type DevicesV = Seq<(Seq<char>, DeviceInfoV)>;

impl View for DeviceRegistry {
    type V = DevicesV;

    open spec fn view(&self) -> DevicesV {
        Seq::new(self.devices@.len(), |i: int| (self.devices@[i].0@, self.devices@[i].1@))
    }
}

/// The first entry with the given key, scanning from a position.
pub open spec fn dev_find(s: DevicesV, k: Seq<char>, from: int) -> Option<int>
    decreases s.len() - from,
{
    if from < 0 || from >= s.len() {
        None
    } else if s[from].0 == k {
        Some(from)
    } else {
        dev_find(s, k, from + 1)
    }
}

/// The device stored under an id, if any.
pub open spec fn dev_of(s: DevicesV, k: Seq<char>) -> Option<DeviceInfoV> {
    match dev_find(s, k, 0) {
        Some(i) => Some(s[i].1),
        None => None,
    }
}

/// What a successful or failed id search says about the entries.
pub proof fn lemma_dev_find(s: DevicesV, k: Seq<char>, from: int)
    requires
        0 <= from <= s.len(),
    ensures
        match dev_find(s, k, from) {
            Some(i) => from <= i < s.len() && s[i].0 == k && forall|j: int|
                from <= j < i ==> (#[trigger] s[j]).0 != k,
            None => forall|j: int| from <= j < s.len() ==> (#[trigger] s[j]).0 != k,
        },
    decreases s.len() - from,
{
    if from < s.len() && s[from].0 != k {
        lemma_dev_find(s, k, from + 1);
    }
}

impl DeviceRegistry {
    /// An empty registry.
    pub fn new() -> (r: Self)
        ensures
            r@ == Seq::<(Seq<char>, DeviceInfoV)>::empty(),
    {
        let r = DeviceRegistry { devices: Vec::new() };
        proof {
            assert(r@ =~= Seq::<(Seq<char>, DeviceInfoV)>::empty());
        }
        r
    }

    /// Find the position of a device id.
    fn position_of(&self, key: &str) -> (r: Option<usize>)
        ensures
            match r {
                Some(i) => Some(i as int) == dev_find(self@, key@, 0),
                None => dev_find(self@, key@, 0) is None,
            },
    {
        let mut i: usize = 0;
        while i < self.devices.len()
            invariant
                0 <= i <= self.devices@.len(),
                self@.len() == self.devices@.len(),
                dev_find(self@, key@, 0) == dev_find(self@, key@, i as int),
            decreases self.devices@.len() - i,
        {
            proof {
                assert(self@[i as int].0 == self.devices@[i as int].0@);
            }
            if str_eq(self.devices[i].0.as_str(), key) {
                return Some(i);
            }
            i = i + 1;
        }
        None
    }

    /// The metadata of a connected device, if any.
    pub fn get(&self, id: &str) -> (r: Option<&DeviceInfo>)
        ensures
            match r {
                Some(d) => dev_of(self@, id@) == Some(d@),
                None => dev_of(self@, id@) is None,
            },
    {
        proof {
            lemma_dev_find(self@, id@, 0);
        }
        match self.position_of(id) {
            Some(i) => {
                proof {
                    assert(self@[i as int].1 == self.devices@[i as int].1@);
                }
                Some(&self.devices[i].1)
            },
            None => None,
        }
    }

    /// Record a device as connected, replacing any stale record.
    pub fn insert(&mut self, device: DeviceInfo)
        ensures
            dev_of(final(self)@, device.id@) == Some(device@),
            forall|k: Seq<char>|
                k != device.id@ ==> dev_of(final(self)@, k) == dev_of(old(self)@, k),
    {
        proof {
            lemma_dev_find(self@, device.id@, 0);
        }
        let key = device.id.clone();
        match self.position_of(key.as_str()) {
            Some(i) => {
                let ghost before = self@;
                let ghost dv = device@;
                let entry = &mut self.devices[i];
                entry.1 = device;
                proof {
                    assert(self@ =~= before.update(i as int, (key@, dv)));
                    lemma_dev_find_update_all(before, i as int, key@, dv);
                }
            },
            None => {
                let ghost before = self@;
                let ghost dv = device@;
                self.devices.push((key, device));
                proof {
                    assert(self@ =~= before.push((key@, dv)));
                    lemma_dev_push(before, key@, dv);
                }
            },
        }
    }

    /// Drop a device's record; ids other than the dropped one keep their
    /// lookups.
    pub fn remove(&mut self, id: &str)
        ensures
            dev_of(final(self)@, id@) is None,
            forall|k: Seq<char>|
                k != id@ ==> dev_of(final(self)@, k) == dev_of(old(self)@, k),
            final(self)@.len() <= old(self)@.len(),
    {
        loop
            invariant
                forall|k: Seq<char>| k != id@ ==> dev_of(self@, k) == dev_of(old(self)@, k),
                self@.len() <= old(self)@.len(),
            ensures
                dev_of(self@, id@) is None,
            decreases self@.len(),
        {
            proof {
                lemma_dev_find(self@, id@, 0);
            }
            match self.position_of(id) {
                Some(i) => {
                    let ghost before = self@;
                    self.devices.remove(i);
                    proof {
                        assert(self@ =~= before.remove(i as int));
                        lemma_dev_remove(before, i as int, id@);
                    }
                },
                None => {
                    return ;
                },
            }
        }
    }

    /// A snapshot of every connected device, in registration order.
    pub fn list(&self) -> (r: Vec<DeviceInfo>)
        ensures
            r.deep_view() == Seq::new(self@.len(), |i: int| self@[i].1),
    {
        let mut out: Vec<DeviceInfo> = Vec::new();
        let mut i: usize = 0;
        while i < self.devices.len()
            invariant
                0 <= i <= self.devices@.len(),
                self@.len() == self.devices@.len(),
                out@.len() == i,
                forall|j: int| 0 <= j < i ==> #[trigger] out.deep_view()[j] == self@[j].1,
            decreases self.devices@.len() - i,
        {
            let ghost prev = out.deep_view();
            out.push(dup_device_info(&self.devices[i].1));
            proof {
                assert forall|j: int| 0 <= j < i + 1 implies #[trigger] out.deep_view()[j]
                    == if j < i {
                    prev[j]
                } else {
                    self@[i as int].1
                } by {
                    assert(out.deep_view()[j] == out@[j]@);
                }
            }
            i = i + 1;
        }
        proof {
            assert(out.deep_view() =~= Seq::new(self@.len(), |i: int| self@[i].1));
        }
        out
    }
}

/// Replacing an entry's value in place, key kept, changes that key's
/// lookup and no other.
proof fn lemma_dev_find_update_all(s: DevicesV, i: int, k: Seq<char>, v: DeviceInfoV)
    requires
        0 <= i < s.len(),
        s[i].0 == k,
        dev_find(s, k, 0) == Some(i),
    ensures
        dev_of(s.update(i, (k, v)), k) == Some(v),
        forall|k2: Seq<char>| k2 != k ==> dev_of(s.update(i, (k, v)), k2) == dev_of(s, k2),
{
    let t = s.update(i, (k, v));
    lemma_dev_find_update(s, i, k, v, k, 0);
    assert forall|k2: Seq<char>| k2 != k implies dev_of(t, k2) == dev_of(s, k2) by {
        lemma_dev_find_update(s, i, k, v, k2, 0);
        lemma_dev_find(s, k2, 0);
        match dev_find(s, k2, 0) {
            Some(j) => {
                assert(s[j].0 == k2);
                assert(j != i);
                assert(t[j].1 == s[j].1);
            },
            None => {},
        }
    }
}

/// How an id search behaves on a sequence with one entry's value replaced.
proof fn lemma_dev_find_update(s: DevicesV, i: int, k: Seq<char>, v: DeviceInfoV, k2: Seq<char>, from: int)
    requires
        0 <= from <= s.len(),
        0 <= i < s.len(),
        s[i].0 == k,
    ensures
        dev_find(s.update(i, (k, v)), k2, from) == dev_find(s, k2, from),
    decreases s.len() - from,
{
    let t = s.update(i, (k, v));
    if from < s.len() {
        assert(t[from].0 == s[from].0);
        if s[from].0 != k2 {
            lemma_dev_find_update(s, i, k, v, k2, from + 1);
        }
    }
}

/// Appending an entry with a fresh id leaves every other lookup alone and
/// makes the new id found.
proof fn lemma_dev_push(s: DevicesV, k: Seq<char>, v: DeviceInfoV)
    requires
        dev_find(s, k, 0) is None,
    ensures
        dev_of(s.push((k, v)), k) == Some(v),
        forall|k2: Seq<char>| k2 != k ==> dev_of(s.push((k, v)), k2) == dev_of(s, k2),
{
    let t = s.push((k, v));
    lemma_dev_find_push(s, k, v, k, 0);
    assert(dev_of(t, k) == Some(t[s.len() as int].1));
    assert forall|k2: Seq<char>| k2 != k implies dev_of(t, k2) == dev_of(s, k2) by {
        lemma_dev_find_push(s, k, v, k2, 0);
        lemma_dev_find(s, k2, 0);
        match dev_find(s, k2, 0) {
            Some(j) => {
                assert(s[j].0 == k2);
                assert(t[j].1 == s[j].1);
            },
            None => {},
        }
    }
}

/// How an id search behaves on a sequence with one entry appended.
proof fn lemma_dev_find_push(s: DevicesV, k: Seq<char>, v: DeviceInfoV, k2: Seq<char>, from: int)
    requires
        0 <= from <= s.len(),
    ensures
        dev_find(s.push((k, v)), k2, from) == match dev_find(s, k2, from) {
            Some(i) => Some(i),
            None => if k2 == k {
                Some(s.len() as int)
            } else {
                None::<int>
            },
        },
    decreases s.len() - from,
{
    let t = s.push((k, v));
    if from < s.len() {
        assert(t[from] == s[from]);
        if s[from].0 != k2 {
            lemma_dev_find_push(s, k, v, k2, from + 1);
        }
    } else {
        assert(t[from].0 == k);
        if k2 != k {
            assert(dev_find(t, k2, from + 1) is None);
        }
    }
}

/// Removing one entry takes its id's lookup away when ids are unique;
/// searches for other ids are unchanged.
proof fn lemma_dev_remove(s: DevicesV, i: int, k: Seq<char>)
    requires
        0 <= i < s.len(),
        s[i].0 == k,
        dev_find(s, k, 0) == Some(i),
    ensures
        forall|k2: Seq<char>| k2 != k ==> dev_of(s.remove(i), k2) == dev_of(s, k2),
        s.remove(i).len() < s.len(),
{
    assert forall|k2: Seq<char>| k2 != k implies dev_of(s.remove(i), k2) == dev_of(s, k2) by {
        lemma_dev_find(s, k2, 0);
        lemma_dev_find(s.remove(i), k2, 0);
        let t = s.remove(i);
        match dev_find(s, k2, 0) {
            Some(j) => {
                if j < i {
                    assert(t[j] == s[j]);
                    assert(forall|m: int| 0 <= m < j ==> t[m] == s[m]);
                    lemma_dev_find_unique(t, k2, j);
                } else {
                    assert(t[j - 1] == s[j]);
                    assert forall|m: int| 0 <= m < j - 1 implies (#[trigger] t[m]).0 != k2 by {
                        if m < i {
                            assert(t[m] == s[m]);
                        } else {
                            assert(t[m] == s[m + 1]);
                        }
                    }
                    lemma_dev_find_unique(t, k2, j - 1);
                }
            },
            None => {
                assert forall|m: int| 0 <= m < t.len() implies (#[trigger] t[m]).0 != k2 by {
                    if m < i {
                        assert(t[m] == s[m]);
                    } else {
                        assert(t[m] == s[m + 1]);
                    }
                }
                match dev_find(t, k2, 0) {
                    Some(j) => {
                        assert(t[j].0 == k2);
                    },
                    None => {},
                }
            },
        }
    }
}

/// A position holding the id, with none before it, is where the search
/// lands.
proof fn lemma_dev_find_unique(s: DevicesV, k: Seq<char>, i: int)
    requires
        0 <= i < s.len(),
        s[i].0 == k,
        forall|j: int| 0 <= j < i ==> (#[trigger] s[j]).0 != k,
    ensures
        dev_find(s, k, 0) == Some(i),
{
    lemma_dev_find_unique_from(s, k, 0, i);
}

/// The same, scanning from a position.
proof fn lemma_dev_find_unique_from(s: DevicesV, k: Seq<char>, from: int, i: int)
    requires
        0 <= from <= i < s.len(),
        s[i].0 == k,
        forall|j: int| from <= j < i ==> (#[trigger] s[j]).0 != k,
    ensures
        dev_find(s, k, from) == Some(i),
    decreases i - from,
{
    if from < i {
        lemma_dev_find_unique_from(s, k, from + 1, i);
    }
}

} // verus!
