use vstd::prelude::*;
use crate::events::{emit_spec, pending_of, CentralEvent, EventBus, EventView};
use crate::registry::{
    fold_patches, ids_of, lemma_known_ids, lemma_state_is_fold, patches_for, unknown_properties,
    upsert_all, upsert_spec, PeripheralProperties, PropertiesView, Registry, Upsert,
};
use crate::scan::{start_next, started_next, stop_next, stopped_next, ScanSession, ScanState};
use crate::types::{copy_vec, AdapterError, BDAddr, PeripheralId, ScanFilter};

verus! {

/// The identity an event is about, if it is about one.
pub open spec fn event_id(e: EventView) -> Option<PeripheralId> {
    match e {
        EventView::DeviceDiscovered(a) => Some(a),
        EventView::DeviceUpdated(a) => Some(a),
        EventView::DeviceConnected(a) => Some(a),
        EventView::DeviceDisconnected(a) => Some(a),
        EventView::ManufacturerDataAdvertisement(a, _) => Some(a),
        EventView::ServicesAdvertisement(a, _) => Some(a),
        EventView::StateUpdate => None,
    }
}

/// The queues after emitting `events` one after the other.
pub open spec fn emit_all(queues: Seq<Option<Seq<EventView>>>, events: Seq<EventView>) -> Seq<
    Option<Seq<EventView>>,
>
    decreases events.len(),
{
    if events.len() == 0 {
        queues
    } else {
        emit_spec(emit_all(queues, events.drop_last()), events.last())
    }
}

/// The events one sighting of `id` emits: first `DeviceDiscovered` if the
/// device was unknown and `DeviceUpdated` otherwise, then, when `details`
/// holds, an advertisement event for the manufacturer data and one for the
/// services that the patch reports.
pub open spec fn sighting_events(known: bool, id: PeripheralId, patch: PropertiesView, details: bool) -> Seq<
    EventView,
> {
    let first = if known {
        EventView::DeviceUpdated(id)
    } else {
        EventView::DeviceDiscovered(id)
    };
    let mfr = if details && patch.manufacturer_data is Some {
        seq![EventView::ManufacturerDataAdvertisement(id, patch.manufacturer_data->Some_0)]
    } else {
        Seq::empty()
    };
    let svc = if details && patch.services is Some {
        seq![EventView::ServicesAdvertisement(id, patch.services->Some_0)]
    } else {
        Seq::empty()
    };
    seq![first] + mfr + svc
}

/// A notification as the platform delivers it: an address, which may be
/// missing, and whatever properties the advertisement carried.
#[derive(Debug)]
pub struct RawNotification {
    pub address: Option<u64>,
    pub properties: PeripheralProperties,
}

/// True when a notification names a usable address.
pub open spec fn address_ok(address: Option<u64>) -> bool {
    address is Some && address->Some_0 <= crate::types::BDADDR_MAX
}

/// What the platform answered about one candidate device: its address and
/// the services it offers, or `None` where the query failed.
#[derive(Debug)]
pub struct CandidateReply {
    pub address: u64,
    pub services: Option<Vec<u128>>,
}

/// True when a candidate's reply makes it the device sought: the query
/// succeeded, the address is a 48-bit one and the services pass the filter.
pub open spec fn candidate_matches(wanted: Seq<u128>, address: u64, services: Option<Seq<u128>>) -> bool {
    &&& services is Some
    &&& address <= crate::types::BDADDR_MAX
    &&& crate::types::services_match(wanted, services->Some_0)
}

/// The next thing a search for a connected device asks of its caller.
#[derive(Clone, Copy, Debug, PartialEq, Eq, Structural)]
pub enum ConnectStep {
    /// Query the capabilities of the candidate with this index.
    Query(usize),
    /// The search is over: this device matched and is registered.
    Found(PeripheralId),
    /// The search is over: no candidate matched.
    NoMatchingDevice,
}

/// A search through the platform's list of candidate devices, one capability
/// query at a time, stopping at the first that satisfies the filter.
#[derive(Debug)]
pub struct ConnectSearch {
    filter: ScanFilter,
    candidates: usize,
    queried: usize,
    found: Option<PeripheralId>,
}

impl ConnectSearch {
    pub closed spec fn spec_filter(&self) -> Seq<u128> {
        self.filter.services@
    }

    pub closed spec fn spec_candidates(&self) -> nat {
        self.candidates as nat
    }

    pub closed spec fn spec_queried(&self) -> nat {
        self.queried as nat
    }

    pub closed spec fn spec_found(&self) -> Option<PeripheralId> {
        self.found
    }

    pub closed spec fn wf(&self) -> bool {
        self.queried <= self.candidates
    }

    /// The step that the search's state calls for.
    pub open spec fn spec_step(&self) -> ConnectStep {
        if self.spec_found() is Some {
            ConnectStep::Found(self.spec_found()->Some_0)
        } else if self.spec_queried() < self.spec_candidates() {
            ConnectStep::Query(self.spec_queried() as usize)
        } else {
            ConnectStep::NoMatchingDevice
        }
    }

    /// Starts a search over `candidates` devices; nothing is queried yet.
    pub fn new(filter: ScanFilter, candidates: usize) -> (r: ConnectSearch)
        ensures
            r.wf(),
            r.spec_filter() == filter.services@,
            r.spec_candidates() == candidates,
            r.spec_queried() == 0,
            r.spec_found() is None,
    {
        ConnectSearch { filter, candidates, queried: 0, found: None }
    }

    pub fn step(&self) -> (r: ConnectStep)
        ensures
            r == self.spec_step(),
    {
        match self.found {
            Some(id) => ConnectStep::Found(id),
            None => {
                if self.queried < self.candidates {
                    ConnectStep::Query(self.queried)
                } else {
                    ConnectStep::NoMatchingDevice
                }
            },
        }
    }

    /// How many candidates were queried so far.
    pub fn queried(&self) -> (r: usize)
        ensures
            r == self.spec_queried(),
    {
        self.queried
    }
}

/// A handle for a known device. It holds the identity alone: properties
/// are read through `Adapter::properties`, from the registry's one record,
/// so handles taken at different times never see different state.
#[derive(Clone, Copy, Debug, PartialEq, Eq, Structural, Hash)]
pub struct Peripheral {
    pub id: PeripheralId,
}

impl Peripheral {
    pub fn id(&self) -> (r: PeripheralId)
        ensures
            r == self.id,
    {
        self.id
    }
}

/// The central adapter: the device registry, the event bus and the scan
/// session, composed. Notifications from the platform go through
/// `handle_notification`; the platform's answers to starting and stopping
/// discovery come back through `scan_started` and `scan_stopped`.
pub struct Adapter {
    registry: Registry,
    bus: EventBus,
    scan: ScanSession,
    history: Ghost<Seq<EventView>>,
}

impl Adapter {
    /// The devices known, with their properties.
    pub closed spec fn known(&self) -> Map<PeripheralId, PropertiesView> {
        self.registry@
    }

    /// Every subscriber's queue; `None` for a cancelled one.
    pub closed spec fn queues(&self) -> Seq<Option<Seq<EventView>>> {
        self.bus@
    }

    /// Every event emitted so far, in order.
    pub closed spec fn history(&self) -> Seq<EventView> {
        self.history@
    }

    pub closed spec fn scan_spec_state(&self) -> ScanState {
        self.scan.spec_state()
    }

    /// The services of the scan filter the session holds, if any.
    pub closed spec fn scan_spec_filter(&self) -> Option<Seq<u128>> {
        self.scan.spec_filter()
    }

    /// Each live queue holds the events emitted since some point, in order.
    closed spec fn bus_wf(&self) -> bool {
        forall|s: int|
            0 <= s < self.bus@.len() && (#[trigger] self.bus@[s]) is Some ==> exists|lo: int|
                0 <= lo <= self.history@.len() && self.bus@[s]->Some_0 == self.history@.subrange(
                    lo,
                    self.history@.len() as int,
                )
    }

    /// Events name only known devices; every event about a device comes
    /// after the one `DeviceDiscovered` for it; every known device has one.
    closed spec fn history_wf(&self) -> bool {
        let h = self.history@;
        &&& forall|j: int|
            0 <= j < h.len() && (#[trigger] event_id(h[j])) is Some ==> self.registry@.contains_key(
                event_id(h[j])->Some_0,
            )
        &&& forall|j: int|
            0 <= j < h.len() && (#[trigger] event_id(h[j])) is Some && !(h[j] is DeviceDiscovered)
                ==> exists|i: int|
                0 <= i < j && #[trigger] h[i] == EventView::DeviceDiscovered(event_id(h[j])->Some_0)
        &&& forall|i: int, j: int|
            0 <= i < j < h.len() && (#[trigger] h[i]) is DeviceDiscovered ==> #[trigger] h[j] != h[i]
        &&& forall|a: PeripheralId|
            #[trigger] self.registry@.contains_key(a) ==> exists|i: int|
                0 <= i < h.len() && #[trigger] h[i] == EventView::DeviceDiscovered(a)
    }

    pub closed spec fn wf(&self) -> bool {
        &&& self.registry.wf()
        &&& self.bus_wf()
        &&& self.history_wf()
    }

    /// An adapter that knows no device, has no subscriber and does not scan.
    pub fn new() -> (r: Adapter)
        ensures
            r.wf(),
            r.known() == Map::<PeripheralId, PropertiesView>::empty(),
            r.queues() == Seq::<Option<Seq<EventView>>>::empty(),
            r.history() == Seq::<EventView>::empty(),
            r.scan_spec_state() == ScanState::Idle,
    {
        Adapter {
            registry: Registry::new(),
            bus: EventBus::new(),
            scan: ScanSession::new(),
            history: Ghost(Seq::empty()),
        }
    }

    fn emit(&mut self, e: CentralEvent)
        requires
            old(self).bus_wf(),
        ensures
            final(self).bus_wf(),
            final(self).history@ == old(self).history@.push(e@),
            final(self).bus@ == emit_spec(old(self).bus@, e@),
            final(self).registry == old(self).registry,
            final(self).scan == old(self).scan,
    {
        self.bus.emit(&e);
        proof {
            self.history@ = self.history@.push(e@);
            let h = self.history@;
            assert forall|s: int|
                0 <= s < self.bus@.len() && (#[trigger] self.bus@[s]) is Some implies exists|lo: int|
                    0 <= lo <= h.len() && self.bus@[s]->Some_0 == h.subrange(lo, h.len() as int) by {
                assert(old(self).bus@[s] is Some);
                let lo = choose|lo: int|
                    0 <= lo <= old(self).history@.len() && old(self).bus@[s]->Some_0
                        == old(self).history@.subrange(lo, old(self).history@.len() as int);
                assert(self.bus@[s]->Some_0 =~= h.subrange(lo, h.len() as int));
            }
        }
    }

    /// Records one sighting of `id`: merges `patch` into the registry, then
    /// emits the events of `sighting_events`. Returns whether it was new.
    fn sighting(&mut self, id: PeripheralId, patch: PeripheralProperties, details: bool) -> (r: bool)
        requires
            old(self).wf(),
        ensures
            final(self).wf(),
            r == !old(self).known().contains_key(id),
            final(self).known() == upsert_spec(old(self).known(), id, patch@),
            final(self).history() == old(self).history() + sighting_events(
                old(self).known().contains_key(id),
                id,
                patch@,
                details,
            ),
            final(self).queues() == emit_all(
                old(self).queues(),
                sighting_events(old(self).known().contains_key(id), id, patch@, details),
            ),
            final(self).scan == old(self).scan,
    {
        let ghost pv = patch@;
        let ghost known = old(self).registry@.contains_key(id);
        let mfr_event = match &patch.manufacturer_data {
            Some(m) => {
                if details {
                    Some(CentralEvent::ManufacturerDataAdvertisement(id, m.duplicate()))
                } else {
                    None
                }
            },
            None => None,
        };
        let svc_event = match &patch.services {
            Some(s) => {
                if details {
                    Some(CentralEvent::ServicesAdvertisement(id, copy_vec(s)))
                } else {
                    None
                }
            },
            None => None,
        };
        let (id, is_new) = self.registry.upsert(id, patch);
        proof {
            // Events so far name devices that were known before; the new
            // record keeps every older one.
            let h = self.history@;
            assert forall|j: int| 0 <= j < h.len() && (#[trigger] event_id(h[j])) is Some implies self.registry@.contains_key(event_id(h[j])->Some_0) by {
                assert(old(self).registry@.contains_key(event_id(h[j])->Some_0));
            }
            assert forall|a: PeripheralId| #[trigger] self.registry@.contains_key(a) && a != id implies exists|i: int|
                0 <= i < h.len() && #[trigger] h[i] == EventView::DeviceDiscovered(a) by {
                assert(old(self).registry@.contains_key(a));
            }
            if !known {
                assert forall|i: int| 0 <= i < h.len() implies #[trigger] h[i] != EventView::DeviceDiscovered(id) by {
                    if h[i] == EventView::DeviceDiscovered(id) {
                        assert(event_id(h[i]) == Some(id));
                    }
                }
            }
        }
        let ghost h0 = self.history@;
        let ghost q0 = self.bus@;
        if is_new {
            self.emit(CentralEvent::DeviceDiscovered(id));
        } else {
            self.emit(CentralEvent::DeviceUpdated(id));
        }
        let ghost h1 = self.history@;
        proof {
            let n = h0.len() as int;
            assert(h1[n] == EventView::DeviceDiscovered(id) || h1[n] == EventView::DeviceUpdated(id));
            if known {
                let i = choose|i: int| 0 <= i < h0.len() && #[trigger] h0[i] == EventView::DeviceDiscovered(id);
                assert(h1[i] == h0[i]);
            }
            assert forall|i: int, j: int|
                0 <= i < j < h1.len() && (#[trigger] h1[i]) is DeviceDiscovered implies #[trigger] h1[j] != h1[i] by {
                if j == n && !known {
                    assert(h0[i] == h1[i]);
                    assert(h0[i] != EventView::DeviceDiscovered(id));
                }
                if j < n {
                    assert(h0[i] == h1[i] && h0[j] == h1[j]);
                }
            }
            assert forall|j: int| 0 <= j < h1.len() && (#[trigger] event_id(h1[j])) is Some && !(h1[j] is DeviceDiscovered) implies exists|i: int|
                0 <= i < j && #[trigger] h1[i] == EventView::DeviceDiscovered(event_id(h1[j])->Some_0) by {
                if j < n {
                    assert(h0[j] == h1[j]);
                    let i = choose|i: int| 0 <= i < j && #[trigger] h0[i] == EventView::DeviceDiscovered(event_id(h0[j])->Some_0);
                    assert(h1[i] == h0[i]);
                } else {
                    let i = choose|i: int| 0 <= i < h0.len() && #[trigger] h0[i] == EventView::DeviceDiscovered(id);
                    assert(h1[i] == h0[i]);
                }
            }
            assert(exists|i: int| 0 <= i < h1.len() && #[trigger] h1[i] == EventView::DeviceDiscovered(id));
            assert forall|a: PeripheralId| #[trigger] self.registry@.contains_key(a) implies exists|i: int|
                0 <= i < h1.len() && #[trigger] h1[i] == EventView::DeviceDiscovered(a) by {
                if a != id {
                    let i = choose|i: int| 0 <= i < h0.len() && #[trigger] h0[i] == EventView::DeviceDiscovered(a);
                    assert(h1[i] == h0[i]);
                }
            }
            assert forall|j: int| 0 <= j < h1.len() && (#[trigger] event_id(h1[j])) is Some implies self.registry@.contains_key(event_id(h1[j])->Some_0) by {
                if j < n {
                    assert(h0[j] == h1[j]);
                }
            }
            assert(self.history_wf());
        }
        let ghost q1 = self.bus@;
        match mfr_event {
            Some(e) => {
                self.emit_detail(e, id);
            },
            None => {},
        }
        let ghost h2 = self.history@;
        let ghost q2 = self.bus@;
        match svc_event {
            Some(e) => {
                self.emit_detail(e, id);
            },
            None => {},
        }
        proof {
            let first = if known {
                EventView::DeviceUpdated(id)
            } else {
                EventView::DeviceDiscovered(id)
            };
            let mfr = if details && pv.manufacturer_data is Some {
                seq![EventView::ManufacturerDataAdvertisement(id, pv.manufacturer_data->Some_0)]
            } else {
                Seq::empty()
            };
            let svc = if details && pv.services is Some {
                seq![EventView::ServicesAdvertisement(id, pv.services->Some_0)]
            } else {
                Seq::empty()
            };
            let evs = sighting_events(known, id, pv, details);
            assert(evs == seq![first] + mfr + svc);
            assert(h1 == h0 + seq![first]);
            assert(h2 == h1 + mfr);
            assert(self.history@ =~= h0 + evs);
            assert(q1 == emit_all(q0, seq![first])) by {
                assert(seq![first].drop_last() =~= Seq::<EventView>::empty());
                assert(emit_all(q0, Seq::<EventView>::empty()) == q0);
                assert(q1 == emit_spec(q0, first));
            }
            assert(q2 == emit_all(q0, seq![first] + mfr)) by {
                if mfr.len() > 0 {
                    assert((seq![first] + mfr).drop_last() =~= seq![first]);
                } else {
                    assert(seq![first] + mfr =~= seq![first]);
                }
            }
            assert(self.bus@ == emit_all(q0, evs)) by {
                if svc.len() > 0 {
                    assert(evs.drop_last() =~= seq![first] + mfr);
                } else {
                    assert(evs =~= seq![first] + mfr);
                }
            }
        }
        is_new
    }

    /// Emits an advertisement event about `id`, a device that already has its
    /// `DeviceDiscovered` in the history.
    fn emit_detail(&mut self, e: CentralEvent, id: PeripheralId)
        requires
            old(self).wf(),
            old(self).registry@.contains_key(id),
            event_id(e@) == Some(id),
            !(e@ is DeviceDiscovered),
        ensures
            final(self).wf(),
            final(self).history@ == old(self).history@.push(e@),
            final(self).bus@ == emit_spec(old(self).bus@, e@),
            final(self).registry == old(self).registry,
            final(self).scan == old(self).scan,
    {
        let ghost h0 = self.history@;
        let ghost ev = e@;
        self.emit(e);
        proof {
            let h1 = self.history@;
            let n = h0.len() as int;
            let i0 = choose|i: int| 0 <= i < h0.len() && #[trigger] h0[i] == EventView::DeviceDiscovered(id);
            assert(h1[i0] == h0[i0]);
            assert forall|i: int, j: int|
                0 <= i < j < h1.len() && (#[trigger] h1[i]) is DeviceDiscovered implies #[trigger] h1[j] != h1[i] by {
                if j < n {
                    assert(h0[i] == h1[i] && h0[j] == h1[j]);
                }
            }
            assert forall|j: int| 0 <= j < h1.len() && (#[trigger] event_id(h1[j])) is Some && !(h1[j] is DeviceDiscovered) implies exists|i: int|
                0 <= i < j && #[trigger] h1[i] == EventView::DeviceDiscovered(event_id(h1[j])->Some_0) by {
                if j < n {
                    assert(h0[j] == h1[j]);
                    let i = choose|i: int| 0 <= i < j && #[trigger] h0[i] == EventView::DeviceDiscovered(event_id(h0[j])->Some_0);
                    assert(h1[i] == h0[i]);
                }
            }
            assert forall|a: PeripheralId| #[trigger] self.registry@.contains_key(a) implies exists|i: int|
                0 <= i < h1.len() && #[trigger] h1[i] == EventView::DeviceDiscovered(a) by {
                let i = choose|i: int| 0 <= i < h0.len() && #[trigger] h0[i] == EventView::DeviceDiscovered(a);
                assert(h1[i] == h0[i]);
            }
            assert forall|j: int| 0 <= j < h1.len() && (#[trigger] event_id(h1[j])) is Some implies self.registry@.contains_key(event_id(h1[j])->Some_0) by {
                if j < n {
                    assert(h0[j] == h1[j]);
                }
            }
        }
    }
}

} // verus!

verus! {

impl Adapter {
    /// Opens a subscription to the events emitted from now on; its number
    /// is returned. Earlier events are not replayed.
    pub fn events(&mut self) -> (r: usize)
        requires
            old(self).wf(),
        ensures
            final(self).wf(),
            r == old(self).queues().len(),
            final(self).queues() == old(self).queues().push(Some(Seq::<EventView>::empty())),
            final(self).known() == old(self).known(),
            final(self).history() == old(self).history(),
            final(self).scan_spec_state() == old(self).scan_spec_state(),
    {
        let r = self.bus.subscribe();
        proof {
            let h = self.history@;
            assert forall|s: int|
                0 <= s < self.bus@.len() && (#[trigger] self.bus@[s]) is Some implies exists|lo: int|
                    0 <= lo <= h.len() && self.bus@[s]->Some_0 == h.subrange(lo, h.len() as int) by {
                if s == r {
                    assert(self.bus@[s]->Some_0 =~= h.subrange(h.len() as int, h.len() as int));
                } else {
                    assert(old(self).bus@[s] == self.bus@[s]);
                }
            }
        }
        r
    }

    /// Takes the oldest event waiting for subscription `s`, if any.
    pub fn next_event(&mut self, s: usize) -> (r: Option<CentralEvent>)
        requires
            old(self).wf(),
        ensures
            final(self).wf(),
            pending_of(old(self).queues(), s as int).len() > 0 ==> {
                &&& r is Some
                &&& r->Some_0@ == pending_of(old(self).queues(), s as int)[0]
                &&& final(self).queues() == old(self).queues().update(
                    s as int,
                    Some(pending_of(old(self).queues(), s as int).drop_first()),
                )
            },
            pending_of(old(self).queues(), s as int).len() == 0 ==> {
                &&& r is None
                &&& final(self).queues() == old(self).queues()
            },
            final(self).known() == old(self).known(),
            final(self).history() == old(self).history(),
            final(self).scan_spec_state() == old(self).scan_spec_state(),
    {
        let r = self.bus.next_event(s);
        proof {
            let h = self.history@;
            assert forall|t: int|
                0 <= t < self.bus@.len() && (#[trigger] self.bus@[t]) is Some implies exists|lo: int|
                    0 <= lo <= h.len() && self.bus@[t]->Some_0 == h.subrange(lo, h.len() as int) by {
                assert(old(self).bus@[t] is Some);
                let lo = choose|lo: int|
                    0 <= lo <= h.len() && old(self).bus@[t]->Some_0 == h.subrange(lo, h.len() as int);
                if t == s && pending_of(old(self).bus@, s as int).len() > 0 {
                    assert(self.bus@[t]->Some_0 =~= h.subrange(lo + 1, h.len() as int));
                } else {
                    assert(old(self).bus@[t] == self.bus@[t]);
                }
            }
        }
        r
    }

    /// Cancels subscription `s`: nothing more is queued for it.
    pub fn unsubscribe(&mut self, s: usize)
        requires
            old(self).wf(),
        ensures
            final(self).wf(),
            s < old(self).queues().len() ==> final(self).queues() == old(self).queues().update(
                s as int,
                None,
            ),
            s >= old(self).queues().len() ==> final(self).queues() == old(self).queues(),
            final(self).known() == old(self).known(),
            final(self).history() == old(self).history(),
            final(self).scan_spec_state() == old(self).scan_spec_state(),
    {
        self.bus.unsubscribe(s);
        proof {
            let h = self.history@;
            assert forall|t: int|
                0 <= t < self.bus@.len() && (#[trigger] self.bus@[t]) is Some implies exists|lo: int|
                    0 <= lo <= h.len() && self.bus@[t]->Some_0 == h.subrange(lo, h.len() as int) by {
                assert(old(self).bus@[t] == self.bus@[t]);
            }
        }
    }

    /// Processes one notification from the platform. Without an address, or
    /// with one wider than 48 bits, it is dropped with `MalformedAddress`:
    /// no record changes and no event is emitted. Otherwise its properties
    /// are merged into the device's record and the events of
    /// `sighting_events` are emitted, identity first.
    pub fn handle_notification(&mut self, n: RawNotification) -> (r: Result<PeripheralId, AdapterError>)
        requires
            old(self).wf(),
        ensures
            final(self).wf(),
            final(self).scan_spec_state() == old(self).scan_spec_state(),
            !address_ok(n.address) ==> {
                &&& r == Err::<PeripheralId, AdapterError>(AdapterError::MalformedAddress)
                &&& final(self).known() == old(self).known()
                &&& final(self).history() == old(self).history()
                &&& final(self).queues() == old(self).queues()
            },
            address_ok(n.address) ==> {
                let id = PeripheralId { address: BDAddr { value: n.address->Some_0 } };
                let evs = sighting_events(old(self).known().contains_key(id), id, n.properties@, true);
                &&& r == Ok::<PeripheralId, AdapterError>(id)
                &&& final(self).known() == upsert_spec(old(self).known(), id, n.properties@)
                &&& final(self).history() == old(self).history() + evs
                &&& final(self).queues() == emit_all(old(self).queues(), evs)
            },
            notification_step(
                *old(self),
                NotificationView { address: n.address, properties: n.properties@ },
                *final(self),
            ),
    {
        let value = match n.address {
            Some(v) => v,
            None => {
                return Err(AdapterError::MalformedAddress);
            },
        };
        let address = match BDAddr::from_u64(value) {
            Some(a) => a,
            None => {
                return Err(AdapterError::MalformedAddress);
            },
        };
        let id = PeripheralId::from_address(address);
        self.sighting(id, n.properties, true);
        Ok(id)
    }

    /// The state of the scan session.
    pub fn scan_state(&self) -> (r: ScanState)
        ensures
            r == self.scan_spec_state(),
    {
        self.scan.state()
    }

    /// The filter of the scan being started, run or stopped; `None` when idle.
    pub fn scan_filter(&self) -> (r: Option<&ScanFilter>)
        ensures
            self.scan_spec_state() == ScanState::Idle ==> r is None,
            self.scan_spec_state() != ScanState::Idle ==> match r {
                Some(f) => self.scan_spec_filter() == Some(f.services@),
                None => self.scan_spec_filter() is None,
            },
    {
        self.scan.filter()
    }

    /// Asks to start scanning with `filter`. A session that is not idle
    /// refuses with `AlreadyScanning` and stays as it is. On `Ok` the caller
    /// starts the platform's discovery and reports with `scan_started`.
    pub fn start_scan(&mut self, filter: ScanFilter) -> (r: Result<(), AdapterError>)
        requires
            old(self).wf(),
        ensures
            final(self).wf(),
            (final(self).scan_spec_state(), r) == start_next(old(self).scan_spec_state()),
            r is Ok ==> final(self).scan_spec_filter() == Some(filter.services@),
            r is Err ==> final(self).scan_spec_filter() == old(self).scan_spec_filter(),
            final(self).known() == old(self).known(),
            final(self).history() == old(self).history(),
            final(self).queues() == old(self).queues(),
    {
        let r = self.scan.start(filter);
        proof {
            lemma_scan_frame(*old(self), *self);
        }
        r
    }

    /// Takes the platform's answer to a start.
    pub fn scan_started(&mut self, ok: bool) -> (r: Result<(), AdapterError>)
        requires
            old(self).wf(),
        ensures
            final(self).wf(),
            (final(self).scan_spec_state(), r) == started_next(old(self).scan_spec_state(), ok),
            final(self).scan_spec_state() != ScanState::Idle ==> final(self).scan_spec_filter()
                == old(self).scan_spec_filter(),
            final(self).known() == old(self).known(),
            final(self).history() == old(self).history(),
            final(self).queues() == old(self).queues(),
    {
        let r = self.scan.start_reported(ok);
        proof {
            lemma_scan_frame(*old(self), *self);
        }
        r
    }

    /// Asks to stop scanning; `true` tells the caller to stop the platform's
    /// discovery and report with `scan_stopped`. Stopping an idle session is
    /// a no-op that succeeds.
    pub fn stop_scan(&mut self) -> (r: bool)
        requires
            old(self).wf(),
        ensures
            final(self).wf(),
            (final(self).scan_spec_state(), r) == stop_next(old(self).scan_spec_state()),
            final(self).scan_spec_state() != ScanState::Idle ==> final(self).scan_spec_filter()
                == old(self).scan_spec_filter(),
            final(self).known() == old(self).known(),
            final(self).history() == old(self).history(),
            final(self).queues() == old(self).queues(),
    {
        let r = self.scan.stop();
        proof {
            lemma_scan_frame(*old(self), *self);
        }
        r
    }

    /// Takes the platform's answer to a stop.
    pub fn scan_stopped(&mut self, ok: bool) -> (r: Result<(), AdapterError>)
        requires
            old(self).wf(),
        ensures
            final(self).wf(),
            (final(self).scan_spec_state(), r) == stopped_next(old(self).scan_spec_state(), ok),
            final(self).scan_spec_state() != ScanState::Idle ==> final(self).scan_spec_filter()
                == old(self).scan_spec_filter(),
            final(self).known() == old(self).known(),
            final(self).history() == old(self).history(),
            final(self).queues() == old(self).queues(),
    {
        let r = self.scan.stop_reported(ok);
        proof {
            lemma_scan_frame(*old(self), *self);
        }
        r
    }

    /// How many devices are known.
    pub fn peripheral_count(&self) -> (r: usize)
        requires
            self.wf(),
        ensures
            r == self.known().len(),
    {
        self.registry.len()
    }

    /// A handle for every known device, each once.
    pub fn peripherals(&self) -> (r: Vec<Peripheral>)
        requires
            self.wf(),
        ensures
            r@.len() == self.known().len(),
            forall|i: int, j: int| 0 <= i < j < r@.len() ==> r@[i].id != r@[j].id,
            forall|i: int| 0 <= i < r@.len() ==> self.known().contains_key((#[trigger] r@[i]).id),
            forall|id: PeripheralId|
                #[trigger] self.known().contains_key(id) ==> exists|i: int|
                    0 <= i < r@.len() && (#[trigger] r@[i]).id == id,
    {
        let ids = self.registry.list();
        let mut r: Vec<Peripheral> = Vec::new();
        let mut i: usize = 0;
        while i < ids.len()
            invariant
                i <= ids@.len(),
                r@.len() == i,
                forall|k: int| 0 <= k < i ==> (#[trigger] r@[k]).id == ids@[k],
            decreases ids@.len() - i,
        {
            r.push(Peripheral { id: ids[i] });
            i = i + 1;
        }
        proof {
            assert forall|id: PeripheralId| #[trigger] self.known().contains_key(id) implies exists|k: int|
                0 <= k < r@.len() && (#[trigger] r@[k]).id == id by {
                let k = choose|k: int| 0 <= k < ids@.len() && ids@[k] == id;
                assert(r@[k].id == id);
            }
            assert forall|a: int| 0 <= a < r@.len() implies self.known().contains_key((#[trigger] r@[a]).id) by {
                assert(r@[a].id == ids@[a]);
            }
            assert forall|a: int, b: int| 0 <= a < b < r@.len() implies r@[a].id != r@[b].id by {
                assert(r@[a].id == ids@[a]);
                assert(r@[b].id == ids@[b]);
            }
        }
        r
    }

    /// A handle for the device known under `id`, or `DeviceNotFound`.
    pub fn peripheral(&self, id: &PeripheralId) -> (r: Result<Peripheral, AdapterError>)
        requires
            self.wf(),
        ensures
            self.known().contains_key(*id) ==> r == Ok::<Peripheral, AdapterError>(Peripheral { id: *id }),
            !self.known().contains_key(*id) ==> r == Err::<Peripheral, AdapterError>(
                AdapterError::DeviceNotFound,
            ),
    {
        if self.registry.contains(id) {
            Ok(Peripheral { id: *id })
        } else {
            Err(AdapterError::DeviceNotFound)
        }
    }

    /// The current properties of the device `handle` stands for. Every
    /// handle of one device reads the same record, so no two can disagree.
    pub fn properties(&self, handle: &Peripheral) -> (r: Option<PeripheralProperties>)
        requires
            self.wf(),
        ensures
            r is Some <==> self.known().contains_key(handle.id),
            r matches Some(p) ==> p@ == self.known()[handle.id],
    {
        self.registry.get(&handle.id)
    }

    /// Adding a peripheral by address alone is not offered: the platform
    /// needs a discovered device. Always `Unsupported`.
    pub fn add_peripheral(&self, _id: &PeripheralId) -> (r: Result<Peripheral, AdapterError>)
        ensures
            r == Err::<Peripheral, AdapterError>(AdapterError::Unsupported),
    {
        Err(AdapterError::Unsupported)
    }

    /// A description of the adapter.
    pub fn adapter_info(&self) -> (r: String)
        ensures
            r@ == "WinRT"@,
    {
        let r = String::from_str("WinRT");
        proof {
            reveal_strlit("WinRT");
        }
        r
    }
}

} // verus!

verus! {

/// A patch that reports the offered services and nothing else.
pub open spec fn services_patch(services: Seq<u128>) -> PropertiesView {
    PropertiesView {
        local_name: None,
        rssi: None,
        tx_power_level: None,
        manufacturer_data: None,
        services: Some(services),
        connectable: None,
    }
}

/// True when `reply` makes its candidate the device sought by `wanted`.
pub open spec fn reply_matches(wanted: Seq<u128>, reply: CandidateReply) -> bool {
    candidate_matches(wanted, reply.address, crate::types::opt_vec_view(reply.services))
}

/// The identity of a candidate, by the address in its reply.
pub open spec fn reply_id(reply: CandidateReply) -> PeripheralId {
    PeripheralId { address: BDAddr { value: reply.address } }
}

impl Adapter {
    /// Takes the platform's answer about the candidate that `search` asked
    /// for. A candidate whose query failed, or whose services miss the
    /// filter, is skipped. The first that matches is registered with its
    /// services, `DeviceDiscovered` is emitted for it (`DeviceUpdated` if it
    /// was known already), and the search ends. A reply that the search did
    /// not ask for changes nothing. The step that follows is returned.
    pub fn offer_candidate(&mut self, search: &mut ConnectSearch, reply: &CandidateReply) -> (r: ConnectStep)
        requires
            old(self).wf(),
            old(search).wf(),
        ensures
            final(self).wf(),
            final(search).wf(),
            r == final(search).spec_step(),
            final(search).spec_filter() == old(search).spec_filter(),
            final(search).spec_candidates() == old(search).spec_candidates(),
            final(self).scan_spec_state() == old(self).scan_spec_state(),
            !(old(search).spec_step() is Query) ==> {
                &&& final(search).spec_queried() == old(search).spec_queried()
                &&& final(search).spec_found() == old(search).spec_found()
                &&& final(self).known() == old(self).known()
                &&& final(self).history() == old(self).history()
                &&& final(self).queues() == old(self).queues()
            },
            old(search).spec_step() is Query && !reply_matches(old(search).spec_filter(), *reply) ==> {
                &&& final(search).spec_queried() == old(search).spec_queried() + 1
                &&& final(search).spec_found() is None
                &&& final(self).known() == old(self).known()
                &&& final(self).history() == old(self).history()
                &&& final(self).queues() == old(self).queues()
            },
            old(search).spec_step() is Query && reply_matches(old(search).spec_filter(), *reply) ==> {
                let id = reply_id(*reply);
                let patch = services_patch(reply.services->Some_0@);
                let evs = sighting_events(old(self).known().contains_key(id), id, patch, false);
                &&& final(search).spec_queried() == old(search).spec_queried() + 1
                &&& final(search).spec_found() == Some(id)
                &&& final(self).known() == upsert_spec(old(self).known(), id, patch)
                &&& final(self).history() == old(self).history() + evs
                &&& final(self).queues() == emit_all(old(self).queues(), evs)
            },
    {
        if search.found.is_some() || search.queried >= search.candidates {
            return search.step();
        }
        search.queried = search.queried + 1;
        match &reply.services {
            Some(services) => {
                if search.filter.matches(services) {
                    match BDAddr::from_u64(reply.address) {
                        Some(address) => {
                            let id = PeripheralId::from_address(address);
                            let patch = PeripheralProperties {
                                local_name: None,
                                rssi: None,
                                tx_power_level: None,
                                manufacturer_data: None,
                                services: Some(copy_vec(services)),
                                connectable: None,
                            };
                            self.sighting(id, patch, false);
                            search.found = Some(id);
                        },
                        None => {},
                    }
                }
            },
            None => {},
        }
        search.step()
    }

    /// Looks through candidate devices in order, with the platform's answer
    /// for each, and registers the first that satisfies `filter` (see
    /// `offer_candidate`). Returns the outcome and how many answers were
    /// consumed: exactly those up to the first match, or all of them and
    /// `NoMatchingDevice` when none matches. The answers are taken up front,
    /// so whoever gathered them has queried every candidate; to query one
    /// candidate at a time and stop at the first match, step through a
    /// `ConnectSearch` with `offer_candidate` instead.
    pub fn connected_peripherals(&mut self, filter: ScanFilter, replies: &Vec<CandidateReply>) -> (r: (
        Result<PeripheralId, AdapterError>,
        usize,
    ))
        requires
            old(self).wf(),
        ensures
            final(self).wf(),
            final(self).scan_spec_state() == old(self).scan_spec_state(),
            r.1 <= replies@.len(),
            r.0 is Err ==> {
                &&& r.0 == Err::<PeripheralId, AdapterError>(AdapterError::NoMatchingDevice)
                &&& r.1 == replies@.len()
                &&& forall|k: int| 0 <= k < replies@.len() ==> !reply_matches(filter.services@, #[trigger] replies@[k])
                &&& final(self).known() == old(self).known()
                &&& final(self).history() == old(self).history()
                &&& final(self).queues() == old(self).queues()
            },
            r.0 is Ok ==> {
                let k = r.1 - 1;
                let id = reply_id(replies@[k]);
                let patch = services_patch(replies@[k].services->Some_0@);
                let evs = sighting_events(old(self).known().contains_key(id), id, patch, false);
                &&& r.1 >= 1
                &&& reply_matches(filter.services@, replies@[k])
                &&& forall|j: int| 0 <= j < k ==> !reply_matches(filter.services@, #[trigger] replies@[j])
                &&& r.0 == Ok::<PeripheralId, AdapterError>(id)
                &&& final(self).known() == upsert_spec(old(self).known(), id, patch)
                &&& final(self).history() == old(self).history() + evs
                &&& final(self).queues() == emit_all(old(self).queues(), evs)
            },
    {
        let ghost wanted = filter.services@;
        let mut search = ConnectSearch::new(filter, replies.len());
        loop
            invariant
                self.wf(),
                search.wf(),
                search.spec_filter() == wanted,
                wanted == filter.services@,
                search.spec_candidates() == replies@.len(),
                search.spec_found() is None,
                self.scan_spec_state() == old(self).scan_spec_state(),
                self.known() == old(self).known(),
                self.history() == old(self).history(),
                self.queues() == old(self).queues(),
                forall|k: int| 0 <= k < search.spec_queried() ==> !reply_matches(wanted, #[trigger] replies@[k]),
            decreases replies@.len() - search.spec_queried(),
        {
            match search.step() {
                ConnectStep::Query(i) => {
                    let step = self.offer_candidate(&mut search, &replies[i]);
                    match step {
                        ConnectStep::Found(id) => {
                            return (Ok(id), search.queried());
                        },
                        _ => {},
                    }
                },
                _ => {
                    return (Err(AdapterError::NoMatchingDevice), search.queried());
                },
            }
        }
    }
}

/// One notification as contracts see it: its address and its properties.
pub struct NotificationView {
    pub address: Option<u64>,
    pub properties: PropertiesView,
}

/// The identity a usable address stands for.
pub open spec fn id_at(value: u64) -> PeripheralId {
    PeripheralId { address: BDAddr { value } }
}

/// The upserts that a run of notifications makes, in order: one for each
/// notification with a usable address, none for a malformed one.
pub open spec fn upserts_of(ns: Seq<NotificationView>) -> Seq<Upsert>
    decreases ns.len(),
{
    if ns.len() == 0 {
        Seq::empty()
    } else if address_ok(ns.last().address) {
        upserts_of(ns.drop_last()).push(
            Upsert { id: id_at(ns.last().address->Some_0), patch: ns.last().properties },
        )
    } else {
        upserts_of(ns.drop_last())
    }
}

/// What handling notification `n` makes of adapter `a`: `b`.
pub open spec fn notification_step(a: Adapter, n: NotificationView, b: Adapter) -> bool {
    &&& b.wf()
    &&& if address_ok(n.address) {
        let id = id_at(n.address->Some_0);
        let evs = sighting_events(a.known().contains_key(id), id, n.properties, true);
        &&& b.known() == upsert_spec(a.known(), id, n.properties)
        &&& b.history() == a.history() + evs
        &&& b.queues() == emit_all(a.queues(), evs)
    } else {
        &&& b.known() == a.known()
        &&& b.history() == a.history()
        &&& b.queues() == a.queues()
    }
}

/// True when `states` are the adapter before and after each of `ns`.
pub open spec fn notification_run(states: Seq<Adapter>, ns: Seq<NotificationView>) -> bool {
    &&& states.len() == ns.len() + 1
    &&& forall|i: int| 0 <= i < ns.len() ==> notification_step(#[trigger] states[i], ns[i], states[i + 1])
}

/// After any run of notifications the adapter knows what the upserts of the
/// run, applied in arrival order, make of what it knew before.
pub proof fn lemma_run_known(states: Seq<Adapter>, ns: Seq<NotificationView>)
    requires
        notification_run(states, ns),
    ensures
        states.last().known() == upsert_all(states[0].known(), upserts_of(ns)),
    decreases ns.len(),
{
    if ns.len() > 0 {
        let k = ns.len() - 1;
        let init = states.drop_last();
        assert(notification_run(init, ns.drop_last())) by {
            assert forall|i: int| 0 <= i < ns.drop_last().len() implies notification_step(
                #[trigger] init[i],
                ns.drop_last()[i],
                init[i + 1],
            ) by {
                assert(notification_step(states[i], ns[i], states[i + 1]));
            }
        }
        lemma_run_known(init, ns.drop_last());
        assert(notification_step(states[k], ns[k], states[k + 1]));
        assert(init.last() == states[k]);
        if address_ok(ns.last().address) {
            assert(upserts_of(ns).drop_last() =~= upserts_of(ns.drop_last()));
        }
    }
}

/// Merging in arrival order: after any run of notifications, a device's
/// properties are the left fold of the patches that named it, each field
/// that a patch reports replacing the one before, each absent field kept.
pub proof fn lemma_run_fold(states: Seq<Adapter>, ns: Seq<NotificationView>, id: PeripheralId)
    requires
        notification_run(states, ns),
        states[0].known().contains_key(id) || patches_for(upserts_of(ns), id).len() > 0,
    ensures
        states.last().known().contains_key(id),
        states.last().known()[id] == fold_patches(
            if states[0].known().contains_key(id) {
                states[0].known()[id]
            } else {
                unknown_properties()
            },
            patches_for(upserts_of(ns), id),
        ),
{
    lemma_run_known(states, ns);
    lemma_state_is_fold(states[0].known(), upserts_of(ns), id);
}

/// Once seen, always listed, and listed once: after any run of
/// notifications the devices known, each of which `peripherals` returns one
/// handle for, are those known before and those the run's usable addresses
/// name, however many updates repeat them.
pub proof fn lemma_run_listed(states: Seq<Adapter>, ns: Seq<NotificationView>)
    requires
        notification_run(states, ns),
    ensures
        states.last().known().dom() == states[0].known().dom().union(ids_of(upserts_of(ns))),
{
    lemma_run_known(states, ns);
    lemma_known_ids(states[0].known(), upserts_of(ns));
}

/// Discovery happens once per address: from a fresh adapter, after any run
/// of notifications, the history holds exactly one `DeviceDiscovered` for
/// each address the run names and none for any other.
pub proof fn lemma_run_discovered_once(states: Seq<Adapter>, ns: Seq<NotificationView>, id: PeripheralId)
    requires
        notification_run(states, ns),
        states[0].wf(),
        states[0].known() == Map::<PeripheralId, PropertiesView>::empty(),
    ensures
        ids_of(upserts_of(ns)).contains(id) ==> exists|i: int|
            0 <= i < states.last().history().len() && states.last().history()[i]
                == EventView::DeviceDiscovered(id),
        !ids_of(upserts_of(ns)).contains(id) ==> forall|i: int|
            0 <= i < states.last().history().len() ==> states.last().history()[i]
                != EventView::DeviceDiscovered(id),
        forall|i: int, j: int|
            0 <= i < j < states.last().history().len() && (#[trigger] states.last().history()[i])
                is DeviceDiscovered ==> #[trigger] states.last().history()[j]
                != states.last().history()[i],
{
    lemma_run_listed(states, ns);
    let last = states.last();
    if ns.len() > 0 {
        assert(notification_step(states[ns.len() - 1], ns[ns.len() - 1], states[ns.len() as int]));
    }
    lemma_discovered_before_updated(&last);
    if !ids_of(upserts_of(ns)).contains(id) {
        assert(!last.known().contains_key(id));
        assert forall|i: int| 0 <= i < last.history().len() implies last.history()[i]
            != EventView::DeviceDiscovered(id) by {
            if last.history()[i] == EventView::DeviceDiscovered(id) {
                assert(event_id(last.history()[i]) == Some(id));
            }
        }
    } else {
        assert(last.known().dom().contains(id));
        assert(last.known().contains_key(id));
    }
}

proof fn lemma_emit_all_one(qs: Seq<Option<Seq<EventView>>>, evs: Seq<EventView>, s: int)
    requires
        0 <= s < qs.len(),
    ensures
        emit_all(qs, evs).len() == qs.len(),
        qs[s] is Some ==> emit_all(qs, evs)[s] == Some(qs[s]->Some_0 + evs),
        qs[s] is None ==> emit_all(qs, evs)[s] is None,
    decreases evs.len(),
{
    if evs.len() > 0 {
        lemma_emit_all_one(qs, evs.drop_last(), s);
        if qs[s] is Some {
            assert(qs[s]->Some_0 + evs =~= (qs[s]->Some_0 + evs.drop_last()).push(evs.last()));
        }
    } else {
        if qs[s] is Some {
            assert(qs[s]->Some_0 + evs =~= qs[s]->Some_0);
        }
    }
}

/// Every subscriber gets everything, in order, whatever the others do:
/// over any run of notifications, a live subscriber's queue grows by exactly
/// the events the run emitted, in emission order, however long the other
/// queues are or whether they were cancelled.
pub proof fn lemma_run_delivery(states: Seq<Adapter>, ns: Seq<NotificationView>, s: int)
    requires
        notification_run(states, ns),
        0 <= s < states[0].queues().len(),
        states[0].queues()[s] is Some,
    ensures
        states.last().queues().len() == states[0].queues().len(),
        states[0].history().len() <= states.last().history().len(),
        states.last().history().subrange(0, states[0].history().len() as int) == states[0].history(),
        states.last().queues()[s] == Some(
            states[0].queues()[s]->Some_0 + states.last().history().subrange(
                states[0].history().len() as int,
                states.last().history().len() as int,
            ),
        ),
    decreases ns.len(),
{
    let h0 = states[0].history();
    if ns.len() == 0 {
        assert(states.last() == states[0]);
        assert(states[0].queues()[s]->Some_0 + h0.subrange(h0.len() as int, h0.len() as int)
            =~= states[0].queues()[s]->Some_0);
        assert(h0.subrange(0, h0.len() as int) =~= h0);
    } else {
        let k = ns.len() - 1;
        let init = states.drop_last();
        assert(notification_run(init, ns.drop_last())) by {
            assert forall|i: int| 0 <= i < ns.drop_last().len() implies notification_step(
                #[trigger] init[i],
                ns.drop_last()[i],
                init[i + 1],
            ) by {
                assert(notification_step(states[i], ns[i], states[i + 1]));
            }
        }
        lemma_run_delivery(init, ns.drop_last(), s);
        let a = states[k];
        let b = states[k + 1];
        assert(init.last() == a);
        assert(notification_step(a, ns[k], b));
        let q0 = states[0].queues()[s]->Some_0;
        let ha = a.history();
        let hb = b.history();
        if address_ok(ns[k].address) {
            let id = id_at(ns[k].address->Some_0);
            let evs = sighting_events(a.known().contains_key(id), id, ns[k].properties, true);
            lemma_emit_all_one(a.queues(), evs, s);
            assert(hb == ha + evs);
            assert(hb.subrange(0, h0.len() as int) =~= ha.subrange(0, h0.len() as int));
            assert(q0 + ha.subrange(h0.len() as int, ha.len() as int) + evs
                =~= q0 + hb.subrange(h0.len() as int, hb.len() as int));
        }
    }
}

/// The scan session is no part of the adapter's well-formedness.
proof fn lemma_scan_frame(a: Adapter, b: Adapter)
    requires
        a.registry == b.registry,
        a.bus == b.bus,
        a.history == b.history,
    ensures
        a.wf() == b.wf(),
{
}

/// Discovery comes first: in the history of emitted events, and in what any
/// one subscriber has queued, a device's `DeviceDiscovered` stands before
/// every `DeviceUpdated` for it. Each known device has exactly one
/// `DeviceDiscovered` in the history.
pub proof fn lemma_discovered_before_updated(adapter: &Adapter)
    requires
        adapter.wf(),
    ensures
        forall|i: int, j: int|
            0 <= i < adapter.history().len() && 0 <= j < adapter.history().len()
                && (#[trigger] adapter.history()[i]) is DeviceDiscovered
                && (#[trigger] adapter.history()[j]) is DeviceUpdated
                && event_id(adapter.history()[i]) == event_id(adapter.history()[j]) ==> i < j,
        forall|i: int, j: int|
            0 <= i < j < adapter.history().len() && (#[trigger] adapter.history()[i]) is DeviceDiscovered
                ==> #[trigger] adapter.history()[j] != adapter.history()[i],
        forall|a: PeripheralId|
            #[trigger] adapter.known().contains_key(a) ==> exists|i: int|
                0 <= i < adapter.history().len() && adapter.history()[i] == EventView::DeviceDiscovered(a),
        forall|j: int|
            0 <= j < adapter.history().len() && (#[trigger] event_id(adapter.history()[j])) is Some
                ==> adapter.known().contains_key(event_id(adapter.history()[j])->Some_0),
        forall|s: int, i: int, j: int|
            0 <= s < adapter.queues().len() && adapter.queues()[s] is Some && 0 <= i < adapter.queues()[s]->Some_0.len()
                && 0 <= j < adapter.queues()[s]->Some_0.len()
                && (#[trigger] adapter.queues()[s]->Some_0[i]) is DeviceDiscovered
                && (#[trigger] adapter.queues()[s]->Some_0[j]) is DeviceUpdated
                && event_id(adapter.queues()[s]->Some_0[i]) == event_id(adapter.queues()[s]->Some_0[j]) ==> i < j,
{
    let h = adapter.history@;
    assert forall|i: int, j: int|
        0 <= i < h.len() && 0 <= j < h.len() && (#[trigger] h[i]) is DeviceDiscovered
            && (#[trigger] h[j]) is DeviceUpdated && event_id(h[i]) == event_id(h[j]) implies i < j by {
        let a = event_id(h[j])->Some_0;
        assert(h[i] == EventView::DeviceDiscovered(a));
        let i0 = choose|i0: int| 0 <= i0 < j && #[trigger] h[i0] == EventView::DeviceDiscovered(event_id(h[j])->Some_0);
        if i != i0 {
            if i < i0 {
                assert(h[i0] != h[i]);
            } else {
                assert(h[i] != h[i0]);
            }
        }
    }
    assert forall|s: int, i: int, j: int|
        0 <= s < adapter.queues().len() && adapter.queues()[s] is Some && 0 <= i < adapter.queues()[s]->Some_0.len()
            && 0 <= j < adapter.queues()[s]->Some_0.len()
            && (#[trigger] adapter.queues()[s]->Some_0[i]) is DeviceDiscovered
            && (#[trigger] adapter.queues()[s]->Some_0[j]) is DeviceUpdated
            && event_id(adapter.queues()[s]->Some_0[i]) == event_id(adapter.queues()[s]->Some_0[j]) implies i < j by {
        assert(adapter.bus@[s] is Some);
        let lo = choose|lo: int|
            0 <= lo <= h.len() && adapter.bus@[s]->Some_0 == h.subrange(lo, h.len() as int);
        assert(h[lo + i] == adapter.queues()[s]->Some_0[i]);
        assert(h[lo + j] == adapter.queues()[s]->Some_0[j]);
    }
}

} // verus!
