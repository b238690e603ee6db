use vstd::prelude::*;
use crate::types::{copy_vec, ManufacturerData, ManufacturerDataView, PeripheralId};

verus! {

/// What the adapter tells its subscribers. Events carry identities, never
/// whole records: a subscriber looks the current state up in the registry.
#[derive(Debug)]
pub enum CentralEvent {
    DeviceDiscovered(PeripheralId),
    DeviceUpdated(PeripheralId),
    DeviceConnected(PeripheralId),
    DeviceDisconnected(PeripheralId),
    ManufacturerDataAdvertisement(PeripheralId, ManufacturerData),
    ServicesAdvertisement(PeripheralId, Vec<u128>),
    StateUpdate,
}

pub enum EventView {
    DeviceDiscovered(PeripheralId),
    DeviceUpdated(PeripheralId),
    DeviceConnected(PeripheralId),
    DeviceDisconnected(PeripheralId),
    ManufacturerDataAdvertisement(PeripheralId, ManufacturerDataView),
    ServicesAdvertisement(PeripheralId, Seq<u128>),
    StateUpdate,
}

impl View for CentralEvent {
    type V = EventView;

    open spec fn view(&self) -> EventView {
        match self {
            CentralEvent::DeviceDiscovered(id) => EventView::DeviceDiscovered(*id),
            CentralEvent::DeviceUpdated(id) => EventView::DeviceUpdated(*id),
            CentralEvent::DeviceConnected(id) => EventView::DeviceConnected(*id),
            CentralEvent::DeviceDisconnected(id) => EventView::DeviceDisconnected(*id),
            CentralEvent::ManufacturerDataAdvertisement(id, m) => EventView::ManufacturerDataAdvertisement(
                *id,
                m@,
            ),
            CentralEvent::ServicesAdvertisement(id, s) => EventView::ServicesAdvertisement(*id, s@),
            CentralEvent::StateUpdate => EventView::StateUpdate,
        }
    }
}

impl CentralEvent {
    pub fn duplicate(&self) -> (r: CentralEvent)
        ensures
            r@ == self@,
    {
        match self {
            CentralEvent::DeviceDiscovered(id) => CentralEvent::DeviceDiscovered(*id),
            CentralEvent::DeviceUpdated(id) => CentralEvent::DeviceUpdated(*id),
            CentralEvent::DeviceConnected(id) => CentralEvent::DeviceConnected(*id),
            CentralEvent::DeviceDisconnected(id) => CentralEvent::DeviceDisconnected(*id),
            CentralEvent::ManufacturerDataAdvertisement(id, m) => CentralEvent::ManufacturerDataAdvertisement(
                *id,
                m.duplicate(),
            ),
            CentralEvent::ServicesAdvertisement(id, s) => CentralEvent::ServicesAdvertisement(
                *id,
                copy_vec(s),
            ),
            CentralEvent::StateUpdate => CentralEvent::StateUpdate,
        }
    }
}

/// Each subscriber's queue after `e` is emitted: live queues gain `e` at the
/// back, cancelled ones stay cancelled.
pub open spec fn emit_spec(queues: Seq<Option<Seq<EventView>>>, e: EventView) -> Seq<
    Option<Seq<EventView>>,
> {
    Seq::new(
        queues.len(),
        |i: int|
            match queues[i] {
                Some(q) => Some(q.push(e)),
                None => None,
            },
    )
}

/// What is queued for subscription `s`: nothing if it is unknown or cancelled.
pub open spec fn pending_of(queues: Seq<Option<Seq<EventView>>>, s: int) -> Seq<EventView> {
    if 0 <= s < queues.len() && queues[s] is Some {
        queues[s]->Some_0
    } else {
        Seq::empty()
    }
}

/// The fan-out from the adapter to its subscribers. Every subscriber has an
/// unbounded queue of its own, so emitting never waits on a subscriber: a
/// slow one only lets its own queue grow, and an abandoned one is cancelled
/// with `unsubscribe`, after which nothing more is queued for it. A
/// subscriber sees only what was emitted after it subscribed.
pub struct EventBus {
    queues: Vec<Option<Vec<CentralEvent>>>,
}

pub open spec fn queue_view(q: Option<Vec<CentralEvent>>) -> Option<Seq<EventView>> {
    match q {
        Some(v) => Some(v@.map_values(|e: CentralEvent| e@)),
        None => None,
    }
}

impl View for EventBus {
    type V = Seq<Option<Seq<EventView>>>;

    closed spec fn view(&self) -> Seq<Option<Seq<EventView>>> {
        self.queues@.map_values(|q: Option<Vec<CentralEvent>>| queue_view(q))
    }
}

impl EventBus {
    pub fn new() -> (r: EventBus)
        ensures
            r@ == Seq::<Option<Seq<EventView>>>::empty(),
    {
        let r = EventBus { queues: Vec::new() };
        assert(r@ =~= Seq::<Option<Seq<EventView>>>::empty());
        r
    }

    /// How many subscriptions were ever made.
    pub fn subscriber_count(&self) -> (r: usize)
        ensures
            r == self@.len(),
    {
        self.queues.len()
    }

    /// Opens a new subscription, with an empty queue; its number is returned.
    pub fn subscribe(&mut self) -> (r: usize)
        ensures
            r == old(self)@.len(),
            final(self)@ == old(self)@.push(Some(Seq::<EventView>::empty())),
    {
        let r = self.queues.len();
        let fresh: Vec<CentralEvent> = Vec::new();
        proof {
            assert(fresh@.map_values(|e: CentralEvent| e@) =~= Seq::<EventView>::empty());
        }
        self.queues.push(Some(fresh));
        proof {
            assert(final(self)@ =~= old(self)@.push(Some(Seq::<EventView>::empty())));
        }
        r
    }

    /// Cancels subscription `s` and drops what was queued for it. An unknown
    /// number changes nothing.
    pub fn unsubscribe(&mut self, s: usize)
        ensures
            s < old(self)@.len() ==> final(self)@ == old(self)@.update(s as int, None),
            s >= old(self)@.len() ==> final(self)@ == old(self)@,
    {
        if s < self.queues.len() {
            self.queues.set(s, None);
            assert(final(self)@ =~= old(self)@.update(s as int, None));
        }
    }

    /// Queues `e` for every live subscriber.
    pub fn emit(&mut self, e: &CentralEvent)
        ensures
            final(self)@ == emit_spec(old(self)@, e@),
    {
        let n = self.queues.len();
        let mut i: usize = 0;
        while i < n
            invariant
                n == self.queues@.len(),
                n == old(self).queues@.len(),
                i <= n,
                forall|k: int|
                    0 <= k < i ==> #[trigger] queue_view(self.queues@[k]) == match queue_view(
                        old(self).queues@[k],
                    ) {
                        Some(q) => Some(q.push(e@)),
                        None => None,
                    },
                forall|k: int| i <= k < n ==> #[trigger] self.queues@[k] == old(self).queues@[k],
            decreases n - i,
        {
            let mut slot: Option<Vec<CentralEvent>> = None;
            std::mem::swap(&mut slot, &mut self.queues[i]);
            let ghost before = slot;
            match slot {
                Some(mut q) => {
                    q.push(e.duplicate());
                    proof {
                        let old_q = before->Some_0;
                        assert(q@.map_values(|x: CentralEvent| x@) =~= old_q@.map_values(
                            |x: CentralEvent| x@,
                        ).push(e@));
                    }
                    self.queues.set(i, Some(q));
                },
                None => {
                    self.queues.set(i, None);
                },
            }
            i = i + 1;
        }
        assert(final(self)@ =~= emit_spec(old(self)@, e@));
    }

    /// Takes the oldest event queued for subscription `s`, if any.
    pub fn next_event(&mut self, s: usize) -> (r: Option<CentralEvent>)
        ensures
            pending_of(old(self)@, s as int).len() > 0 ==> {
                &&& r is Some
                &&& r->Some_0@ == pending_of(old(self)@, s as int)[0]
                &&& final(self)@ == old(self)@.update(
                    s as int,
                    Some(pending_of(old(self)@, s as int).drop_first()),
                )
            },
            pending_of(old(self)@, s as int).len() == 0 ==> {
                &&& r is None
                &&& final(self)@ == old(self)@
            },
    {
        if s >= self.queues.len() {
            return None;
        }
        let mut slot: Option<Vec<CentralEvent>> = None;
        std::mem::swap(&mut slot, &mut self.queues[s]);
        let ghost before = slot;
        match slot {
            Some(mut q) => {
                if q.len() == 0 {
                    self.queues.set(s, Some(q));
                    proof {
                        assert(self.queues@ =~= old(self).queues@);
                    }
                    None
                } else {
                    let e = q.remove(0);
                    proof {
                        let old_q = before->Some_0;
                        assert(q@.map_values(|x: CentralEvent| x@) =~= old_q@.map_values(
                            |x: CentralEvent| x@,
                        ).drop_first());
                    }
                    self.queues.set(s, Some(q));
                    proof {
                        assert(final(self)@ =~= old(self)@.update(
                            s as int,
                            queue_view(Some(q)),
                        ));
                    }
                    Some(e)
                }
            },
            None => {
                self.queues.set(s, None);
                proof {
                    assert(self.queues@ =~= old(self).queues@);
                }
                None
            },
        }
    }
}

/// One subscriber's lot does not depend on any other: whatever the others
/// have left unread, or whether they are cancelled, emitting `e` appends it
/// to a live subscriber's queue and to nothing but that.
pub proof fn lemma_emit_isolated(
    a: Seq<Option<Seq<EventView>>>,
    b: Seq<Option<Seq<EventView>>>,
    s: int,
    e: EventView,
)
    requires
        0 <= s < a.len(),
        0 <= s < b.len(),
        a[s] == b[s],
        a[s] is Some,
    ensures
        emit_spec(a, e)[s] == emit_spec(b, e)[s],
        emit_spec(a, e)[s] == Some(a[s]->Some_0.push(e)),
{
}

} // verus!
