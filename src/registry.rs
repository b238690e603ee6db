use vstd::prelude::*;
use crate::types::{
    copy_opt_mfr, copy_opt_string, copy_opt_vec, opt_mfr_view, opt_str_view, opt_vec_view,
    ManufacturerData, ManufacturerDataView, PeripheralId,
};

verus! {

/// The advertised properties of a peripheral. Every field may be unknown:
/// the platform reports advertisements piece by piece. The same shape serves
/// as a patch, where an absent field means "not reported this time".
#[derive(Debug)]
pub struct PeripheralProperties {
    pub local_name: Option<String>,
    pub rssi: Option<i16>,
    pub tx_power_level: Option<i16>,
    pub manufacturer_data: Option<ManufacturerData>,
    pub services: Option<Vec<u128>>,
    pub connectable: Option<bool>,
}

pub struct PropertiesView {
    pub local_name: Option<Seq<char>>,
    pub rssi: Option<i16>,
    pub tx_power_level: Option<i16>,
    pub manufacturer_data: Option<ManufacturerDataView>,
    pub services: Option<Seq<u128>>,
    pub connectable: Option<bool>,
}

impl View for PeripheralProperties {
    type V = PropertiesView;

    open spec fn view(&self) -> PropertiesView {
        PropertiesView {
            local_name: opt_str_view(self.local_name),
            rssi: self.rssi,
            tx_power_level: self.tx_power_level,
            manufacturer_data: opt_mfr_view(self.manufacturer_data),
            services: opt_vec_view(self.services),
            connectable: self.connectable,
        }
    }
}

/// A field of a patch replaces the known value when present, and leaves it
/// alone when absent.
pub open spec fn merge_field<T>(known: Option<T>, patch: Option<T>) -> Option<T> {
    match patch {
        Some(v) => Some(v),
        None => known,
    }
}

/// The properties after applying `patch` on top of `known`.
pub open spec fn merge(known: PropertiesView, patch: PropertiesView) -> PropertiesView {
    PropertiesView {
        local_name: merge_field(known.local_name, patch.local_name),
        rssi: merge_field(known.rssi, patch.rssi),
        tx_power_level: merge_field(known.tx_power_level, patch.tx_power_level),
        manufacturer_data: merge_field(known.manufacturer_data, patch.manufacturer_data),
        services: merge_field(known.services, patch.services),
        connectable: merge_field(known.connectable, patch.connectable),
    }
}

/// Properties of which nothing is known yet.
pub open spec fn unknown_properties() -> PropertiesView {
    PropertiesView {
        local_name: None,
        rssi: None,
        tx_power_level: None,
        manufacturer_data: None,
        services: None,
        connectable: None,
    }
}

impl PeripheralProperties {
    pub fn unknown() -> (r: PeripheralProperties)
        ensures
            r@ == unknown_properties(),
    {
        PeripheralProperties {
            local_name: None,
            rssi: None,
            tx_power_level: None,
            manufacturer_data: None,
            services: None,
            connectable: None,
        }
    }

    pub fn duplicate(&self) -> (r: PeripheralProperties)
        ensures
            r@ == self@,
    {
        PeripheralProperties {
            local_name: copy_opt_string(&self.local_name),
            rssi: self.rssi,
            tx_power_level: self.tx_power_level,
            manufacturer_data: copy_opt_mfr(&self.manufacturer_data),
            services: copy_opt_vec(&self.services),
            connectable: self.connectable,
        }
    }

    /// The properties after `patch`: each reported field replaces the known one.
    pub fn merged(&self, patch: PeripheralProperties) -> (r: PeripheralProperties)
        ensures
            r@ == merge(self@, patch@),
    {
        let local_name = match patch.local_name {
            Some(v) => Some(v),
            None => copy_opt_string(&self.local_name),
        };
        let rssi = match patch.rssi {
            Some(v) => Some(v),
            None => self.rssi,
        };
        let tx_power_level = match patch.tx_power_level {
            Some(v) => Some(v),
            None => self.tx_power_level,
        };
        let manufacturer_data = match patch.manufacturer_data {
            Some(v) => Some(v),
            None => copy_opt_mfr(&self.manufacturer_data),
        };
        let services = match patch.services {
            Some(v) => Some(v),
            None => copy_opt_vec(&self.services),
        };
        let connectable = match patch.connectable {
            Some(v) => Some(v),
            None => self.connectable,
        };
        PeripheralProperties {
            local_name,
            rssi,
            tx_power_level,
            manufacturer_data,
            services,
            connectable,
        }
    }
}

/// The platform gives an advertisement without a name an empty one: an
/// empty name reports nothing.
pub fn name_report(name: String) -> (r: Option<String>)
    ensures
        name@.len() == 0 ==> r is None,
        name@.len() > 0 ==> r is Some && r->Some_0@ == name@,
{
    if name.as_str().is_empty() {
        None
    } else {
        Some(name)
    }
}

/// The platform gives an advertisement without services an empty list: an
/// empty list reports nothing.
pub fn services_report(services: Vec<u128>) -> (r: Option<Vec<u128>>)
    ensures
        services@.len() == 0 ==> r is None,
        services@.len() > 0 ==> r is Some && r->Some_0@ == services@,
{
    if services.len() == 0 {
        None
    } else {
        Some(services)
    }
}

/// The registry's record of one device: its identity and its properties.
/// Records stay inside the registry; callers hold identities and read
/// properties through it, so they all see the one record.
struct Record {
    id: PeripheralId,
    properties: PeripheralProperties,
}

/// One upsert: the address it concerns and the patch it applies.
pub struct Upsert {
    pub id: PeripheralId,
    pub patch: PropertiesView,
}

/// The registry's contents after upserting `patch` under `id`.
pub open spec fn upsert_spec(
    m: Map<PeripheralId, PropertiesView>,
    id: PeripheralId,
    patch: PropertiesView,
) -> Map<PeripheralId, PropertiesView> {
    let known = if m.contains_key(id) {
        m[id]
    } else {
        unknown_properties()
    };
    m.insert(id, merge(known, patch))
}

/// The registry's contents after a sequence of upserts, applied in order.
pub open spec fn upsert_all(
    m: Map<PeripheralId, PropertiesView>,
    ops: Seq<Upsert>,
) -> Map<PeripheralId, PropertiesView>
    decreases ops.len(),
{
    if ops.len() == 0 {
        m
    } else {
        upsert_spec(upsert_all(m, ops.drop_last()), ops.last().id, ops.last().patch)
    }
}

/// How many of a sequence of upserts report `id` as new.
pub open spec fn new_count(
    m: Map<PeripheralId, PropertiesView>,
    ops: Seq<Upsert>,
    id: PeripheralId,
) -> nat
    decreases ops.len(),
{
    if ops.len() == 0 {
        0
    } else {
        let before = upsert_all(m, ops.drop_last());
        new_count(m, ops.drop_last(), id) + if ops.last().id == id && !before.contains_key(id) {
            1nat
        } else {
            0nat
        }
    }
}

/// The patches of those upserts that concern `id`, in order.
pub open spec fn patches_for(ops: Seq<Upsert>, id: PeripheralId) -> Seq<PropertiesView>
    decreases ops.len(),
{
    if ops.len() == 0 {
        Seq::empty()
    } else if ops.last().id == id {
        patches_for(ops.drop_last(), id).push(ops.last().patch)
    } else {
        patches_for(ops.drop_last(), id)
    }
}

/// Applies patches one after the other, left to right.
pub open spec fn fold_patches(start: PropertiesView, patches: Seq<PropertiesView>) -> PropertiesView
    decreases patches.len(),
{
    if patches.len() == 0 {
        start
    } else {
        merge(fold_patches(start, patches.drop_last()), patches.last())
    }
}

/// The identities that a sequence of upserts mentions.
pub open spec fn ids_of(ops: Seq<Upsert>) -> Set<PeripheralId> {
    Set::new(|id: PeripheralId| exists|i: int| 0 <= i < ops.len() && (#[trigger] ops[i]).id == id)
}

/// The device registry: one record per device address, never removed.
pub struct Registry {
    peripherals: Vec<Record>,
    contents: Ghost<Map<PeripheralId, PropertiesView>>,
}

impl View for Registry {
    type V = Map<PeripheralId, PropertiesView>;

    closed spec fn view(&self) -> Map<PeripheralId, PropertiesView> {
        self.contents@
    }
}

impl Registry {
    pub closed spec fn wf(&self) -> bool {
        &&& forall|i: int, j: int|
            0 <= i < j < self.peripherals@.len() ==> self.peripherals@[i].id
                != self.peripherals@[j].id
        &&& forall|i: int|
            0 <= i < self.peripherals@.len() ==> #[trigger] self.contents@.contains_key(
                self.peripherals@[i].id,
            ) && self.contents@[self.peripherals@[i].id] == self.peripherals@[i].properties@
        &&& forall|id: PeripheralId|
            #[trigger] self.contents@.contains_key(id) ==> exists|i: int|
                0 <= i < self.peripherals@.len() && (#[trigger] self.peripherals@[i]).id == id
        &&& self.contents@.dom().finite()
    }

    pub fn new() -> (r: Registry)
        ensures
            r.wf(),
            r@ == Map::<PeripheralId, PropertiesView>::empty(),
    {
        Registry { peripherals: Vec::new(), contents: Ghost(Map::empty()) }
    }

    pub fn len(&self) -> (r: usize)
        requires
            self.wf(),
        ensures
            r == self@.len(),
    {
        proof {
            self.lemma_len();
        }
        self.peripherals.len()
    }

    proof fn lemma_len(&self)
        requires
            self.wf(),
        ensures
            self@.len() == self.peripherals@.len(),
        decreases self.peripherals@.len(),
    {
        let ids = self.peripherals@.map_values(|p: Record| p.id);
        assert forall|i: int, j: int| 0 <= i < j < ids.len() implies ids[i] != ids[j] by {}
        ids.unique_seq_to_set();
        assert(self@.dom() =~= ids.to_set()) by {
            assert forall|id: PeripheralId| self@.dom().contains(id) implies ids.to_set().contains(id) by {
                let i = choose|i: int| 0 <= i < self.peripherals@.len() && (#[trigger] self.peripherals@[i]).id == id;
                assert(ids[i] == id);
            }
            assert forall|id: PeripheralId| ids.to_set().contains(id) implies self@.dom().contains(id) by {
                let i = choose|i: int| 0 <= i < ids.len() && ids[i] == id;
                assert(self.contents@.contains_key(self.peripherals@[i].id));
            }
        }
    }

    fn find(&self, id: PeripheralId) -> (r: Option<usize>)
        requires
            self.wf(),
        ensures
            r is Some <==> self@.contains_key(id),
            r matches Some(i) ==> i < self.peripherals@.len() && self.peripherals@[i as int].id == id,
    {
        let mut i: usize = 0;
        while i < self.peripherals.len()
            invariant
                self.wf(),
                i <= self.peripherals@.len(),
                forall|k: int| 0 <= k < i ==> self.peripherals@[k].id != id,
            decreases self.peripherals@.len() - i,
        {
            if self.peripherals[i].id == id {
                return Some(i);
            }
            i = i + 1;
        }
        None
    }

    /// Creates the record for `id` or merges `patch` into it; the flag tells
    /// whether the record is new.
    pub fn upsert(&mut self, id: PeripheralId, patch: PeripheralProperties) -> (r: (PeripheralId, bool))
        requires
            old(self).wf(),
        ensures
            final(self).wf(),
            final(self)@ == upsert_spec(old(self)@, id, patch@),
            r.0 == id,
            r.1 == !old(self)@.contains_key(id),
    {
        match self.find(id) {
            Some(i) => {
                let merged = self.peripherals[i].properties.merged(patch);
                proof {
                    self.contents@ = self.contents@.insert(id, merged@);
                }
                self.peripherals.set(i, Record { id, properties: merged });
                proof {
                    assert forall|k: PeripheralId| #[trigger] self.contents@.contains_key(k) implies exists|j: int|
                        0 <= j < self.peripherals@.len() && (#[trigger] self.peripherals@[j]).id == k by {
                        if k != id {
                            let j = choose|j: int| 0 <= j < old(self).peripherals@.len() && (#[trigger] old(self).peripherals@[j]).id == k;
                            assert(self.peripherals@[j].id == k);
                        } else {
                            assert(self.peripherals@[i as int].id == k);
                        }
                    }
                    assert forall|a: int, b: int|
                        0 <= a < b < self.peripherals@.len() implies self.peripherals@[a].id
                            != self.peripherals@[b].id by {
                        assert(self.peripherals@[a].id == old(self).peripherals@[a].id);
                        assert(self.peripherals@[b].id == old(self).peripherals@[b].id);
                    }
                    assert forall|a: int| 0 <= a < self.peripherals@.len() implies #[trigger] self.contents@.contains_key(
                        self.peripherals@[a].id,
                    ) && self.contents@[self.peripherals@[a].id] == self.peripherals@[a].properties@ by {
                        if a != i {
                            assert(self.peripherals@[a] == old(self).peripherals@[a]);
                            assert(old(self).contents@.contains_key(old(self).peripherals@[a].id));
                        }
                    }
                }
                (id, false)
            },
            None => {
                let fresh = PeripheralProperties::unknown();
                let merged = fresh.merged(patch);
                proof {
                    self.contents@ = self.contents@.insert(id, merged@);
                }
                self.peripherals.push(Record { id, properties: merged });
                proof {
                    let n = old(self).peripherals@.len() as int;
                    assert forall|k: PeripheralId| #[trigger] self.contents@.contains_key(k) implies exists|j: int|
                        0 <= j < self.peripherals@.len() && (#[trigger] self.peripherals@[j]).id == k by {
                        if k != id {
                            let j = choose|j: int| 0 <= j < old(self).peripherals@.len() && (#[trigger] old(self).peripherals@[j]).id == k;
                            assert(self.peripherals@[j].id == k);
                        } else {
                            assert(self.peripherals@[n].id == k);
                        }
                    }
                    assert forall|a: int, b: int|
                        0 <= a < b < self.peripherals@.len() implies self.peripherals@[a].id
                            != self.peripherals@[b].id by {
                        if b == n {
                            assert(old(self).contents@.contains_key(old(self).peripherals@[a].id));
                        }
                    }
                }
                (id, true)
            },
        }
    }

    /// Tells whether a record for `id` exists.
    pub fn contains(&self, id: &PeripheralId) -> (r: bool)
        requires
            self.wf(),
        ensures
            r == self@.contains_key(*id),
    {
        self.find(*id).is_some()
    }

    /// A copy of the properties recorded for `id`, if the device is known.
    pub fn get(&self, id: &PeripheralId) -> (r: Option<PeripheralProperties>)
        requires
            self.wf(),
        ensures
            r is Some <==> self@.contains_key(*id),
            r matches Some(p) ==> p@ == self@[*id],
    {
        match self.find(*id) {
            Some(i) => Some(self.peripherals[i].properties.duplicate()),
            None => None,
        }
    }

    /// The identity of every known device, each once.
    pub fn list(&self) -> (r: Vec<PeripheralId>)
        requires
            self.wf(),
        ensures
            r@.len() == self@.len(),
            forall|i: int, j: int| 0 <= i < j < r@.len() ==> r@[i] != r@[j],
            forall|i: int| 0 <= i < r@.len() ==> self@.contains_key(#[trigger] r@[i]),
            forall|id: PeripheralId|
                #[trigger] self@.contains_key(id) ==> exists|i: int| 0 <= i < r@.len() && r@[i] == id,
    {
        proof {
            self.lemma_len();
        }
        let mut r: Vec<PeripheralId> = Vec::new();
        let mut i: usize = 0;
        while i < self.peripherals.len()
            invariant
                self.wf(),
                i <= self.peripherals@.len(),
                r@.len() == i,
                forall|k: int| 0 <= k < i ==> #[trigger] r@[k] == self.peripherals@[k].id,
            decreases self.peripherals@.len() - i,
        {
            r.push(self.peripherals[i].id);
            i = i + 1;
        }
        proof {
            assert forall|id: PeripheralId| #[trigger] self@.contains_key(id) implies exists|k: int|
                0 <= k < r@.len() && r@[k] == id by {
                let k = choose|k: int| 0 <= k < self.peripherals@.len() && (#[trigger] self.peripherals@[k]).id == id;
                assert(r@[k] == id);
            }
            assert forall|a: int| 0 <= a < r@.len() implies self@.contains_key(#[trigger] r@[a]) by {
                assert(r@[a] == self.peripherals@[a].id);
                assert(self.contents@.contains_key(self.peripherals@[a].id));
            }
            assert forall|a: int, b: int| 0 <= a < b < r@.len() implies r@[a] != r@[b] by {
                assert(r@[a] == self.peripherals@[a].id);
                assert(r@[b] == self.peripherals@[b].id);
            }
        }
        r
    }
}

} // verus!

verus! {

proof fn lemma_ids_of_push(ops: Seq<Upsert>)
    requires
        ops.len() > 0,
    ensures
        ids_of(ops) == ids_of(ops.drop_last()).insert(ops.last().id),
{
    let init = ops.drop_last();
    assert forall|id: PeripheralId| ids_of(ops).contains(id) implies ids_of(init).insert(ops.last().id).contains(id) by {
        let i = choose|i: int| 0 <= i < ops.len() && (#[trigger] ops[i]).id == id;
        if i < ops.len() - 1 {
            assert(init[i] == ops[i]);
        }
    }
    assert forall|id: PeripheralId| ids_of(init).insert(ops.last().id).contains(id) implies ids_of(ops).contains(id) by {
        if id != ops.last().id {
            let i = choose|i: int| 0 <= i < init.len() && (#[trigger] init[i]).id == id;
            assert(ops[i] == init[i]);
        } else {
            assert(ops[ops.len() - 1].id == id);
        }
    }
    assert(ids_of(ops) =~= ids_of(init).insert(ops.last().id));
}

/// Records are never removed: after any sequence of upserts the registry
/// knows exactly the identities it knew before and those the upserts name.
pub proof fn lemma_known_ids(m: Map<PeripheralId, PropertiesView>, ops: Seq<Upsert>)
    ensures
        upsert_all(m, ops).dom() == m.dom().union(ids_of(ops)),
    decreases ops.len(),
{
    if ops.len() == 0 {
        assert(ids_of(ops) =~= Set::empty());
        assert(m.dom().union(ids_of(ops)) =~= m.dom());
    } else {
        lemma_known_ids(m, ops.drop_last());
        lemma_ids_of_push(ops);
        assert(upsert_all(m, ops).dom() =~= m.dom().union(ids_of(ops)));
    }
}

/// The state kept for a device is the left fold of the patches that named it,
/// in the order they came, each reported field replacing the one before and
/// each absent field keeping it.
pub proof fn lemma_state_is_fold(m: Map<PeripheralId, PropertiesView>, ops: Seq<Upsert>, id: PeripheralId)
    requires
        m.contains_key(id) || patches_for(ops, id).len() > 0,
    ensures
        upsert_all(m, ops).contains_key(id),
        upsert_all(m, ops)[id] == fold_patches(
            if m.contains_key(id) {
                m[id]
            } else {
                unknown_properties()
            },
            patches_for(ops, id),
        ),
    decreases ops.len(),
{
    let start = if m.contains_key(id) {
        m[id]
    } else {
        unknown_properties()
    };
    if ops.len() > 0 {
        let init = ops.drop_last();
        if m.contains_key(id) || patches_for(init, id).len() > 0 {
            lemma_state_is_fold(m, init, id);
            if ops.last().id == id {
                assert(patches_for(ops, id).drop_last() =~= patches_for(init, id));
            }
        } else {
            lemma_known_ids(m, init);
            if ids_of(init).contains(id) {
                let i = choose|i: int| 0 <= i < init.len() && (#[trigger] init[i]).id == id;
                lemma_patches_for_nonempty(init, id, i);
            }
            assert(!upsert_all(m, init).contains_key(id));
            assert(patches_for(ops, id) == Seq::<PropertiesView>::empty().push(ops.last().patch));
            assert(fold_patches(start, Seq::<PropertiesView>::empty()) == start);
            assert(patches_for(ops, id).drop_last() =~= Seq::<PropertiesView>::empty());
        }
    }
}

proof fn lemma_patches_for_nonempty(ops: Seq<Upsert>, id: PeripheralId, i: int)
    requires
        0 <= i < ops.len(),
        ops[i].id == id,
    ensures
        patches_for(ops, id).len() > 0,
    decreases ops.len(),
{
    if i < ops.len() - 1 {
        lemma_patches_for_nonempty(ops.drop_last(), id, i);
    }
}

/// Discovery happens once: across any sequence of upserts, an identity is
/// reported new exactly once if the registry did not know it and some upsert
/// names it, and never otherwise.
pub proof fn lemma_new_exactly_once(m: Map<PeripheralId, PropertiesView>, ops: Seq<Upsert>, id: PeripheralId)
    ensures
        new_count(m, ops, id) == if !m.contains_key(id) && ids_of(ops).contains(id) {
            1nat
        } else {
            0nat
        },
    decreases ops.len(),
{
    if ops.len() == 0 {
    } else {
        let init = ops.drop_last();
        lemma_new_exactly_once(m, init, id);
        lemma_known_ids(m, init);
        lemma_ids_of_push(ops);
    }
}

} // verus!
