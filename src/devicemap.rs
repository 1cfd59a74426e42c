//! The registry of devices believed reachable, keyed by their identity and
//! kept up to date from hotplug events.
use vstd::prelude::*;

verus! {

/// A change in the set of attached devices: a device with an identity and
/// an open handle appeared, or the device with an identity went away.
pub enum HotplugEvent<H> {
    Add(u64, H),
    Remove(u64),
}

/// The identity that an event is about.
pub open spec fn event_id<H>(event: HotplugEvent<H>) -> u64 {
    match event {
        HotplugEvent::Add(id, _) => id,
        HotplugEvent::Remove(id) => id,
    }
}

/// The registry contents after merging `event` into `m`.
pub open spec fn after_event<H>(m: Map<u64, H>, event: HotplugEvent<H>) -> Map<u64, H> {
    match event {
        HotplugEvent::Add(id, handle) => m.insert(id, handle),
        HotplugEvent::Remove(id) => m.remove(id),
    }
}

/// The handle that leaves the registry `m` when `event` is merged: the one
/// held under the event's identity, if any.
pub open spec fn released_by<H>(m: Map<u64, H>, event: HotplugEvent<H>) -> Option<H> {
    if m.contains_key(event_id(event)) {
        Some(m[event_id(event)])
    } else {
        None
    }
}

/// The registry contents after merging `events` into `m`, first to last.
pub open spec fn after_events<H>(m: Map<u64, H>, events: Seq<HotplugEvent<H>>) -> Map<u64, H>
    decreases events.len(),
{
    if events.len() == 0 {
        m
    } else {
        after_events(after_event(m, events[0]), events.drop_first())
    }
}

/// Events about other identities leave the entry of `x` as it is.
pub proof fn lemma_other_events_keep<H>(m: Map<u64, H>, x: u64, events: Seq<HotplugEvent<H>>)
    requires
        forall|i: int| 0 <= i < events.len() ==> event_id(#[trigger] events[i]) != x,
    ensures
        after_events(m, events).contains_key(x) == m.contains_key(x),
        m.contains_key(x) ==> after_events(m, events)[x] == m[x],
    decreases events.len(),
{
    if events.len() > 0 {
        assert(event_id(events[0]) != x);
        let rest = events.drop_first();
        assert forall|i: int| 0 <= i < rest.len() implies event_id(#[trigger] rest[i]) != x by {
            assert(rest[i] == events[i + 1]);
        }
        lemma_other_events_keep(after_event(m, events[0]), x, rest);
    }
}

/// Merging a series of events one after the other is merging its parts in turn.
pub proof fn lemma_after_events_append<H>(
    m: Map<u64, H>,
    a: Seq<HotplugEvent<H>>,
    b: Seq<HotplugEvent<H>>,
)
    ensures
        after_events(m, a + b) == after_events(after_events(m, a), b),
    decreases a.len(),
{
    if a.len() > 0 {
        assert((a + b).drop_first() =~= a.drop_first() + b);
        lemma_after_events_append(after_event(m, a[0]), a.drop_first(), b);
    }
}

/// Hotplug convergence: once `x` has been added with handle `h` and, after
/// any events about other identities, removed again, the registry no longer
/// holds `x`, and the removal hands back `h`, the handle that was opened.
pub proof fn lemma_hotplug_convergence<H>(
    m: Map<u64, H>,
    x: u64,
    h: H,
    between: Seq<HotplugEvent<H>>,
)
    requires
        forall|i: int| 0 <= i < between.len() ==> event_id(#[trigger] between[i]) != x,
    ensures
        ({
            let added = after_events(m, seq![HotplugEvent::Add(x, h)] + between);
            &&& released_by(added, HotplugEvent::<H>::Remove(x)) == Some(h)
            &&& !after_event(added, HotplugEvent::<H>::Remove(x)).contains_key(x)
        }),
{
    let first = seq![HotplugEvent::Add(x, h)];
    lemma_after_events_append(m, first, between);
    assert(first.drop_first() =~= Seq::<HotplugEvent<H>>::empty());
    assert(after_events(m, first) == after_events(m.insert(x, h), Seq::<HotplugEvent<H>>::empty()));
    lemma_other_events_keep(m.insert(x, h), x, between);
}

/// The devices currently held, each under a unique identity. Handles are
/// owned by the registry; one that leaves it is handed back to the caller to
/// be closed.
pub struct DeviceMap<H> {
    ids: Vec<u64>,
    handles: Vec<H>,
}

impl<H> DeviceMap<H> {
    /// The identities held, in the order in which a retry pass visits them.
    pub closed spec fn ids(&self) -> Seq<u64> {
        self.ids@
    }

    pub closed spec fn wf(&self) -> bool {
        &&& self.ids@.len() == self.handles@.len()
        &&& self.ids@.no_duplicates()
    }

    /// Each held identity with its handle.
    pub closed spec fn view(&self) -> Map<u64, H> {
        Map::new(
            |k: u64| self.ids@.contains(k),
            |k: u64| self.handles@[self.ids@.index_of(k)],
        )
    }

    proof fn lemma_index_of(&self, i: int)
        requires
            self.wf(),
            0 <= i < self.ids@.len(),
        ensures
            self.ids@.index_of(self.ids@[i]) == i,
            self@.contains_key(self.ids@[i]),
            self@[self.ids@[i]] == self.handles@[i],
    {
        let k = self.ids@[i];
        assert(self.ids@.contains(k));
        let j = self.ids@.index_of(k);
        assert(0 <= j < self.ids@.len() && self.ids@[j] == k);
    }

    /// The identities visited are exactly the keys of the map, once each.
    pub proof fn lemma_ids_are_keys(&self)
        requires
            self.wf(),
        ensures
            self.ids().no_duplicates(),
            forall|k: u64| self@.contains_key(k) <==> #[trigger] self.ids().contains(k),
            self.ids().len() == self@.len(),
    {
        self.ids@.unique_seq_to_set();
        assert(self@.dom() =~= self.ids@.to_set());
    }

    /// An empty registry.
    pub fn new() -> (r: Self)
        ensures
            r.wf(),
            r@ == Map::<u64, H>::empty(),
            r.ids() == Seq::<u64>::empty(),
    {
        let r = DeviceMap { ids: Vec::new(), handles: Vec::new() };
        assert(r@ =~= Map::<u64, H>::empty());
        r
    }

    /// Number of devices held.
    pub fn len(&self) -> (r: usize)
        requires
            self.wf(),
        ensures
            r == self.ids().len(),
            r == self@.len(),
    {
        proof {
            self.lemma_ids_are_keys();
        }
        self.ids.len()
    }

    /// The identity visited at position `i` of a retry pass.
    pub fn id_at(&self, i: usize) -> (r: u64)
        requires
            i < self.ids().len(),
        ensures
            r == self.ids()[i as int],
    {
        self.ids[i]
    }

    /// The handle of the device visited at position `i` of a retry pass.
    pub fn handle_at(&self, i: usize) -> (r: &H)
        requires
            self.wf(),
            i < self.ids().len(),
        ensures
            self@.contains_key(self.ids()[i as int]),
            *r == self@[self.ids()[i as int]],
    {
        proof {
            self.lemma_index_of(i as int);
        }
        &self.handles[i]
    }

    /// Position of `id` in a retry pass, if it is held.
    pub fn find(&self, id: u64) -> (r: Option<usize>)
        requires
            self.wf(),
        ensures
            r is None <==> !self@.contains_key(id),
            r matches Some(i) ==> i < self.ids().len() && self.ids()[i as int] == id,
    {
        let mut i: usize = 0;
        while i < self.ids.len()
            invariant
                i <= self.ids@.len(),
                forall|j: int| 0 <= j < i ==> self.ids@[j] != id,
            decreases self.ids@.len() - i,
        {
            if self.ids[i] == id {
                return Some(i);
            }
            i = i + 1;
        }
        None
    }

    /// Whether a device with identity `id` is held.
    pub fn contains(&self, id: u64) -> (r: bool)
        requires
            self.wf(),
        ensures
            r == self@.contains_key(id),
    {
        self.find(id).is_some()
    }

    fn take_at(&mut self, i: usize) -> (r: H)
        requires
            old(self).wf(),
            i < old(self).ids().len(),
        ensures
            final(self).wf(),
            final(self).ids() == old(self).ids().remove(i as int),
            final(self)@ == old(self)@.remove(old(self).ids()[i as int]),
            r == old(self)@[old(self).ids()[i as int]],
    {
        proof {
            old(self).lemma_index_of(i as int);
        }
        let ghost prev = *self;
        let ghost k = self.ids@[i as int];
        self.ids.remove(i);
        let r = self.handles.remove(i);
        proof {
            assert forall|a: int, b: int|
                0 <= a < b < self.ids@.len() implies self.ids@[a] != self.ids@[b] by {
                let a2 = if a < i { a } else { a + 1 };
                let b2 = if b < i { b } else { b + 1 };
                assert(self.ids@[a] == prev.ids@[a2]);
                assert(self.ids@[b] == prev.ids@[b2]);
            }
            assert forall|key: u64| #[trigger] self@.contains_key(key) == prev@.remove(k).contains_key(key) by {
                if self.ids@.contains(key) {
                    let j = choose|j: int| 0 <= j < self.ids@.len() && self.ids@[j] == key;
                    let j2 = if j < i { j } else { j + 1 };
                    assert(prev.ids@[j2] == key);
                    assert(j2 != i);
                }
                if prev.ids@.contains(key) && key != k {
                    let j = choose|j: int| 0 <= j < prev.ids@.len() && prev.ids@[j] == key;
                    assert(j != i);
                    let j2 = if j < i { j } else { j - 1 };
                    assert(self.ids@[j2] == key);
                }
            }
            assert forall|key: u64| #[trigger] self@.contains_key(key) implies self@[key] == prev@.remove(k)[key] by {
                let j = self.ids@.index_of(key);
                self.lemma_index_of(j);
                let j2 = if j < i { j } else { j + 1 };
                assert(prev.ids@[j2] == key);
                prev.lemma_index_of(j2);
            }
            assert(self@ =~= prev@.remove(k));
        }
        r
    }

    fn push_new(&mut self, id: u64, handle: H)
        requires
            old(self).wf(),
            !old(self)@.contains_key(id),
        ensures
            final(self).wf(),
            final(self).ids() == old(self).ids().push(id),
            final(self)@ == old(self)@.insert(id, handle),
    {
        let ghost prev = *self;
        self.ids.push(id);
        self.handles.push(handle);
        proof {
            let n = prev.ids@.len() as int;
            assert forall|a: int, b: int|
                0 <= a < b < self.ids@.len() implies self.ids@[a] != self.ids@[b] by {
                if b == n {
                    assert(prev.ids@.contains(self.ids@[a]));
                }
            }
            assert(self.ids@[n] == id);
            assert forall|key: u64| #[trigger] self@.contains_key(key) == prev@.insert(id, handle).contains_key(key) by {
                if self.ids@.contains(key) && key != id {
                    let j = choose|j: int| 0 <= j < self.ids@.len() && self.ids@[j] == key;
                    assert(j < n);
                    assert(prev.ids@[j] == key);
                }
                if prev.ids@.contains(key) {
                    let j = choose|j: int| 0 <= j < prev.ids@.len() && prev.ids@[j] == key;
                    assert(self.ids@[j] == key);
                }
            }
            assert forall|key: u64| #[trigger] self@.contains_key(key) implies self@[key] == prev@.insert(id, handle)[key] by {
                let j = self.ids@.index_of(key);
                self.lemma_index_of(j);
                if j < n {
                    assert(prev.ids@[j] == key);
                    prev.lemma_index_of(j);
                }
            }
            assert(self@ =~= prev@.insert(id, handle));
        }
    }

    /// Merges one hotplug event. An `Add` stores the handle under its identity,
    /// replacing a stale entry with the same identity; a `Remove` drops the
    /// identity, and removing an absent identity changes nothing. The handle
    /// that leaves the registry, if any, is returned for the caller to close.
    pub fn process_event(&mut self, event: HotplugEvent<H>) -> (released: Option<H>)
        requires
            old(self).wf(),
        ensures
            final(self).wf(),
            final(self)@ == after_event(old(self)@, event),
            released == released_by(old(self)@, event),
    {
        match event {
            HotplugEvent::Add(id, handle) => {
                match self.find(id) {
                    Some(i) => {
                        let stale = self.take_at(i);
                        self.push_new(id, handle);
                        proof {
                            assert(old(self)@.remove(id).insert(id, handle) =~= old(self)@.insert(
                                id,
                                handle,
                            ));
                        }
                        Some(stale)
                    },
                    None => {
                        self.push_new(id, handle);
                        None
                    },
                }
            },
            HotplugEvent::Remove(id) => {
                match self.find(id) {
                    Some(i) => Some(self.take_at(i)),
                    None => {
                        proof {
                            assert(old(self)@.remove(id) =~= old(self)@);
                        }
                        None
                    },
                }
            },
        }
    }
}

} // verus!
