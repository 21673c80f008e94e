use vstd::prelude::*;
use crate::message::{miss_text, opt_view, spec_miss_text, system_identity, Envelope, OutboundMessage};

verus! {

/// One registry row: an identity and the outbound handle that reaches it.
struct Entry {
    identity: String,
    handle: usize,
}

/// One outbound handle: an ordered queue drained by its connection's writer.
struct Outbox {
    open: bool,
    pending: Vec<OutboundMessage>,
}

/// The model of an outbound handle: whether it still accepts messages, and
/// what waits in it, oldest first.
pub struct Queue {
    pub open: bool,
    pub pending: Seq<Envelope>,
}

pub open spec fn queue_of(open: bool, pending: Seq<OutboundMessage>) -> Queue {
    Queue { open, pending: pending.map_values(|m: OutboundMessage| m@) }
}

/// Whether handle `h` is a destination of `msg` under registry `reg`.
pub open spec fn is_recipient(reg: Map<Seq<char>, usize>, msg: Envelope, h: int) -> bool {
    match msg.to {
        Some(t) => reg.contains_key(t) && reg[t] == h,
        None => exists|k: Seq<char>| #[trigger] reg.contains_key(k) && k != msg.from && reg[k] == h,
    }
}

/// Enqueueing onto a closed handle drops the message.
pub open spec fn enqueue(q: Queue, msg: Envelope) -> Queue {
    if q.open {
        Queue { open: true, pending: q.pending.push(msg) }
    } else {
        q
    }
}

/// The handles after routing `msg` once.
pub open spec fn deliver_spec(reg: Map<Seq<char>, usize>, qs: Seq<Queue>, msg: Envelope) -> Seq<
    Queue,
> {
    Seq::new(
        qs.len(),
        |h: int|
            if is_recipient(reg, msg, h) {
                enqueue(qs[h], msg)
            } else {
                qs[h]
            },
    )
}

/// The notice that tells `sender` its target was not found.
pub open spec fn miss_notice(sender: Seq<char>, target: Seq<char>) -> Envelope {
    Envelope { from: system_identity(), to: Some(sender), content: spec_miss_text(target) }
}

/// What routing sends for `msg`: the message itself, or, where `notify_miss`
/// is set and the named target is not registered, a notice to the sender.
pub open spec fn routed_spec(reg: Map<Seq<char>, usize>, msg: Envelope, notify_miss: bool) -> Envelope {
    match msg.to {
        Some(t) => if notify_miss && !reg.contains_key(t) {
            miss_notice(msg.from, t)
        } else {
            msg
        },
        None => msg,
    }
}

/// The shared state of the relay: the registry from identity to handle, and
/// every outbound handle the broker has created, indexed by handle number.
pub struct Broker {
    entries: Vec<Entry>,
    outboxes: Vec<Outbox>,
    reg: Ghost<Map<Seq<char>, usize>>,
}

impl Broker {
    /// The registry: each registered identity and its handle.
    pub closed spec fn registry(&self) -> Map<Seq<char>, usize> {
        self.reg@
    }

    /// Every handle, by number.
    pub closed spec fn queues(&self) -> Seq<Queue> {
        Seq::new(
            self.outboxes@.len(),
            |h: int| queue_of(self.outboxes@[h].open, self.outboxes@[h].pending@),
        )
    }

    /// Identities are unique, each handle belongs to at most one identity,
    /// and every registered handle exists.
    pub closed spec fn wf(&self) -> bool {
        &&& forall|i: int|
            0 <= i < self.entries@.len() ==> {
                &&& self.reg@.contains_key(#[trigger] self.entries@[i].identity@)
                &&& self.reg@[self.entries@[i].identity@] == self.entries@[i].handle
                &&& self.entries@[i].handle < self.outboxes@.len()
            }
        &&& forall|k: Seq<char>|
            #[trigger] self.reg@.contains_key(k) ==> exists|i: int|
                0 <= i < self.entries@.len() && #[trigger] self.entries@[i].identity@ == k
        &&& forall|i: int, j: int|
            0 <= i < self.entries@.len() && 0 <= j < self.entries@.len() && i != j ==> {
                &&& self.entries@[i].identity@ != self.entries@[j].identity@
                &&& self.entries@[i].handle != self.entries@[j].handle
            }
    }

    /// Every registered handle exists.
    pub proof fn lemma_registered_handles_exist(&self, k: Seq<char>)
        requires
            self.wf(),
            self.registry().contains_key(k),
        ensures
            self.registry()[k] < self.queues().len(),
    {
        let i = choose|i: int| 0 <= i < self.entries@.len() && #[trigger] self.entries@[i].identity@ == k;
        assert(self.reg@.contains_key(self.entries@[i].identity@));
    }

    /// No two registered identities share a handle.
    pub proof fn lemma_registry_injective(&self)
        requires
            self.wf(),
        ensures
            forall|a: Seq<char>, b: Seq<char>|
                #[trigger] self.registry().contains_key(a) && #[trigger] self.registry().contains_key(b)
                    && a != b ==> self.registry()[a] != self.registry()[b],
    {
        assert forall|a: Seq<char>, b: Seq<char>|
            #[trigger] self.registry().contains_key(a) && #[trigger] self.registry().contains_key(b)
                && a != b implies self.registry()[a] != self.registry()[b] by {
            let i = choose|i: int| 0 <= i < self.entries@.len() && #[trigger] self.entries@[i].identity@ == a;
            let j = choose|j: int| 0 <= j < self.entries@.len() && #[trigger] self.entries@[j].identity@ == b;
            assert(self.reg@.contains_key(self.entries@[i].identity@));
            assert(self.reg@.contains_key(self.entries@[j].identity@));
        }
    }

    /// An empty broker: nobody registered, no handles.
    pub fn new() -> (r: Broker)
        ensures
            r.wf(),
            r.registry() == Map::<Seq<char>, usize>::empty(),
            r.queues() == Seq::<Queue>::empty(),
    {
        let r = Broker { entries: Vec::new(), outboxes: Vec::new(), reg: Ghost(Map::empty()) };
        assert(r.queues() =~= Seq::<Queue>::empty());
        r
    }

    fn position(&self, identity: &String) -> (r: Option<usize>)
        requires
            self.wf(),
        ensures
            r matches Some(i) ==> i < self.entries@.len() && self.entries@[i as int].identity@
                == identity@,
            r is None ==> !self.registry().contains_key(identity@),
    {
        let mut i: usize = 0;
        while i < self.entries.len()
            invariant
                self.wf(),
                i <= self.entries@.len(),
                forall|j: int| 0 <= j < i ==> self.entries@[j].identity@ != identity@,
            decreases self.entries@.len() - i,
        {
            if self.entries[i].identity == *identity {
                return Some(i);
            }
            i = i + 1;
        }
        proof {
            if self.reg@.contains_key(identity@) {
                let j = choose|j: int|
                    0 <= j < self.entries@.len() && #[trigger] self.entries@[j].identity@ == identity@;
                assert(self.entries@[j].identity@ == identity@);
            }
        }
        None
    }

    /// The handle registered for `identity`, if any.
    pub fn lookup(&self, identity: &String) -> (r: Option<usize>)
        requires
            self.wf(),
        ensures
            r == (if self.registry().contains_key(identity@) {
                Some(self.registry()[identity@])
            } else {
                None
            }),
    {
        match self.position(identity) {
            Some(i) => {
                assert(self.reg@.contains_key(self.entries@[i as int].identity@));
                Some(self.entries[i].handle)
            },
            None => None,
        }
    }

    /// Creates a new open, empty handle and registers `identity` to it,
    /// replacing any handle the identity had.
    pub fn join(&mut self, identity: String) -> (h: usize)
        requires
            old(self).wf(),
            old(self).queues().len() < usize::MAX,
        ensures
            final(self).wf(),
            h == old(self).queues().len(),
            final(self).registry() == old(self).registry().insert(identity@, h),
            final(self).queues() == old(self).queues().push(Queue { open: true, pending: Seq::empty() }),
    {
        let h = self.outboxes.len();
        let ghost old_entries = self.entries@;
        self.outboxes.push(Outbox { open: true, pending: Vec::new() });
        let pos = self.position(&identity);
        let ghost key = identity@;
        match pos {
            Some(i) => {
                self.entries[i].handle = h;
            },
            None => {
                self.entries.push(Entry { identity, handle: h });
            },
        }
        self.reg = Ghost(self.reg@.insert(key, h));
        assert forall|k: Seq<char>| #[trigger] self.reg@.contains_key(k) implies exists|i: int|
            0 <= i < self.entries@.len() && #[trigger] self.entries@[i].identity@ == k by {
            if k == key {
                match pos {
                    Some(i) => assert(self.entries@[i as int].identity@ == k),
                    None => assert(self.entries@[old_entries.len() as int].identity@ == k),
                }
            } else {
                let j = choose|j: int| 0 <= j < old_entries.len() && #[trigger] old_entries[j].identity@ == k;
                assert(self.entries@[j].identity@ == k);
            }
        }
        assert forall|i: int| 0 <= i < self.entries@.len() implies {
            &&& #[trigger] self.reg@.contains_key(self.entries@[i].identity@)
            &&& self.reg@[self.entries@[i].identity@] == self.entries@[i].handle
            &&& self.entries@[i].handle < self.outboxes@.len()
        } by {
            if i < old_entries.len() {
                assert(old(self).reg@.contains_key(old_entries[i].identity@));
            }
        }
        assert forall|i: int, j: int|
            0 <= i < self.entries@.len() && 0 <= j < self.entries@.len() && i != j implies {
                &&& self.entries@[i].identity@ != self.entries@[j].identity@
                &&& self.entries@[i].handle != self.entries@[j].handle
            } by {
            if i < old_entries.len() {
                assert(old(self).reg@.contains_key(old_entries[i].identity@));
            }
            if j < old_entries.len() {
                assert(old(self).reg@.contains_key(old_entries[j].identity@));
            }
        }
        let ghost fresh = Queue { open: true, pending: Seq::empty() };
        assert(Seq::<OutboundMessage>::empty().map_values(|m: OutboundMessage| m@) =~= Seq::<Envelope>::empty());
        assert(self.outboxes@[h as int].pending@ =~= Seq::<OutboundMessage>::empty());
        assert(self.queues() =~= old(self).queues().push(fresh));
        h
    }

    /// Removes `identity` from the registry, returning the handle it had.
    pub fn remove(&mut self, identity: &String) -> (r: Option<usize>)
        requires
            old(self).wf(),
        ensures
            final(self).wf(),
            r == (if old(self).registry().contains_key(identity@) {
                Some(old(self).registry()[identity@])
            } else {
                None
            }),
            final(self).registry() == old(self).registry().remove(identity@),
            final(self).queues() == old(self).queues(),
    {
        match self.position(identity) {
            None => {
                assert(self.reg@.remove(identity@) =~= self.reg@);
                None
            },
            Some(i) => {
                let ghost old_entries = self.entries@;
                let ghost n = old_entries.len() as int;
                let ghost key = identity@;
                assert(self.reg@.contains_key(old_entries[i as int].identity@));
                let e = self.entries.swap_remove(i);
                self.reg = Ghost(self.reg@.remove(key));
                assert forall|j: int| 0 <= j < self.entries@.len() implies {
                    &&& self.reg@.contains_key(#[trigger] self.entries@[j].identity@)
                    &&& self.reg@[self.entries@[j].identity@] == self.entries@[j].handle
                    &&& self.entries@[j].handle < self.outboxes@.len()
                } by {
                    let oj = if j == i { n - 1 } else { j };
                    assert(self.entries@[j] == old_entries[oj]);
                    assert(old(self).reg@.contains_key(old_entries[oj].identity@));
                }
                assert forall|k: Seq<char>| #[trigger] self.reg@.contains_key(k) implies exists|j: int|
                    0 <= j < self.entries@.len() && #[trigger] self.entries@[j].identity@ == k by {
                    let oj = choose|oj: int| 0 <= oj < n && #[trigger] old_entries[oj].identity@ == k;
                    let j = if oj == n - 1 { i as int } else { oj };
                    assert(self.entries@[j].identity@ == k);
                }
                assert forall|a: int, b: int|
                    0 <= a < self.entries@.len() && 0 <= b < self.entries@.len() && a != b implies {
                        &&& self.entries@[a].identity@ != self.entries@[b].identity@
                        &&& self.entries@[a].handle != self.entries@[b].handle
                    } by {
                    let oa = if a == i { n - 1 } else { a };
                    let ob = if b == i { n - 1 } else { b };
                    assert(self.entries@[a] == old_entries[oa]);
                    assert(self.entries@[b] == old_entries[ob]);
                }
                Some(e.handle)
            },
        }
    }

    /// Removes `identity` only while it is still registered to `handle`, so
    /// that a connection's teardown never removes a later connection's entry.
    pub fn deregister(&mut self, identity: &String, handle: usize) -> (removed: bool)
        requires
            old(self).wf(),
        ensures
            final(self).wf(),
            removed == (old(self).registry().contains_key(identity@) && old(self).registry()[identity@]
                == handle),
            final(self).registry() == (if removed {
                old(self).registry().remove(identity@)
            } else {
                old(self).registry()
            }),
            final(self).queues() == old(self).queues(),
    {
        match self.lookup(identity) {
            Some(h) => {
                if h == handle {
                    self.remove(identity);
                    true
                } else {
                    false
                }
            },
            None => false,
        }
    }

    /// How many handles the broker has created.
    pub fn handle_count(&self) -> (r: usize)
        ensures
            r == self.queues().len(),
    {
        self.outboxes.len()
    }

    /// Whether handle `h` still accepts messages.
    pub fn is_open(&self, h: usize) -> (r: bool)
        requires
            h < self.queues().len(),
        ensures
            r == self.queues()[h as int].open,
    {
        self.outboxes[h].open
    }

    fn push_to(&mut self, h: usize, msg: &OutboundMessage)
        requires
            old(self).wf(),
            h < old(self).queues().len(),
        ensures
            final(self).wf(),
            final(self).registry() == old(self).registry(),
            final(self).entries@ == old(self).entries@,
            final(self).queues() == old(self).queues().update(h as int, enqueue(old(self).queues()[h as int], msg@)),
    {
        if self.outboxes[h].open {
            self.outboxes[h].pending.push(msg.duplicate());
            assert(self.outboxes@[h as int].pending@.map_values(|m: OutboundMessage| m@) =~= old(
                self,
            ).outboxes@[h as int].pending@.map_values(|m: OutboundMessage| m@).push(msg@));
        }
        assert(self.queues() =~= old(self).queues().update(h as int, enqueue(old(self).queues()[h as int], msg@)));
    }

    /// Routes `msg`: a directed message goes to its target's handle if the
    /// target is registered, a broadcast to every registered handle but the
    /// sender's. Closed handles drop what they are given.
    pub fn deliver(&mut self, msg: &OutboundMessage)
        requires
            old(self).wf(),
        ensures
            final(self).wf(),
            final(self).registry() == old(self).registry(),
            final(self).queues() == deliver_spec(old(self).registry(), old(self).queues(), msg@),
    {
        let ghost reg = self.reg@;
        let ghost qs = self.queues();
        match &msg.to {
            Some(t) => {
                match self.lookup(t) {
                    Some(h) => {
                        proof { self.lemma_registered_handles_exist(t@); }
                        self.push_to(h, msg);
                    },
                    None => {},
                }
                assert forall|h: int| 0 <= h < qs.len() implies #[trigger] self.queues()[h] == deliver_spec(reg, qs, msg@)[h] by {
                    if is_recipient(reg, msg@, h) {
                        assert(reg[t@] == h);
                    }
                }
                assert(self.queues() =~= deliver_spec(reg, qs, msg@));
            },
            None => {
                let mut i: usize = 0;
                while i < self.entries.len()
                    invariant
                        self.wf(),
                        self.reg@ == reg,
                        self.entries@ == old(self).entries@,
                        self.queues().len() == qs.len(),
                        i <= self.entries@.len(),
                        msg.to is None,
                        forall|h: int| 0 <= h < qs.len() ==> #[trigger] self.queues()[h] == (if exists|j: int|
                            0 <= j < i && #[trigger] self.entries@[j].handle == h
                                && self.entries@[j].identity@ != msg.from@ {
                            enqueue(qs[h], msg@)
                        } else {
                            qs[h]
                        }),
                    decreases self.entries@.len() - i,
                {
                    let ghost before = self.queues();
                    let ghost hi = self.entries@[i as int].handle;
                    assert(self.reg@.contains_key(self.entries@[i as int].identity@));
                    if self.entries[i].identity != msg.from {
                        let h = self.entries[i].handle;
                        self.push_to(h, msg);
                    }
                    assert forall|h: int| 0 <= h < qs.len() implies #[trigger] self.queues()[h] == (if exists|j: int|
                        0 <= j < i + 1 && #[trigger] self.entries@[j].handle == h
                            && self.entries@[j].identity@ != msg.from@ {
                        enqueue(qs[h], msg@)
                    } else {
                        qs[h]
                    }) by {
                        if h == hi {
                            assert forall|j: int| 0 <= j < i implies !(#[trigger] self.entries@[j].handle == h) by {
                                assert(self.entries@[j].handle != self.entries@[i as int].handle);
                            }
                        } else if exists|j: int|
                            0 <= j < i + 1 && #[trigger] self.entries@[j].handle == h
                                && self.entries@[j].identity@ != msg.from@ {
                            let j = choose|j: int|
                                0 <= j < i + 1 && #[trigger] self.entries@[j].handle == h
                                    && self.entries@[j].identity@ != msg.from@;
                            assert(j < i);
                        }
                    }
                    i = i + 1;
                }
                assert forall|h: int| 0 <= h < qs.len() implies #[trigger] self.queues()[h] == deliver_spec(reg, qs, msg@)[h] by {
                    let here = exists|j: int|
                        0 <= j < self.entries@.len() && #[trigger] self.entries@[j].handle == h
                            && self.entries@[j].identity@ != msg.from@;
                    if here {
                        let j = choose|j: int|
                            0 <= j < self.entries@.len() && #[trigger] self.entries@[j].handle == h
                                && self.entries@[j].identity@ != msg.from@;
                        assert(reg.contains_key(self.entries@[j].identity@));
                    }
                    if is_recipient(reg, msg@, h) {
                        let k = choose|k: Seq<char>| #[trigger] reg.contains_key(k) && k != msg@.from && reg[k] == h;
                        let j = choose|j: int| 0 <= j < self.entries@.len() && #[trigger] self.entries@[j].identity@ == k;
                        assert(reg.contains_key(self.entries@[j].identity@));
                        assert(self.entries@[j].handle == h);
                    }
                }
                assert(self.queues() =~= deliver_spec(reg, qs, msg@));
            },
        }
    }

    /// Routes a message that a connection sent. Where `notify_miss` is set and
    /// a directed message names an unregistered target, the sender is told so
    /// instead; otherwise a miss is dropped silently.
    pub fn route_message(&mut self, msg: OutboundMessage, notify_miss: bool)
        requires
            old(self).wf(),
        ensures
            final(self).wf(),
            final(self).registry() == old(self).registry(),
            final(self).queues() == deliver_spec(
                old(self).registry(),
                old(self).queues(),
                routed_spec(old(self).registry(), msg@, notify_miss),
            ),
    {
        if notify_miss {
            if let Some(t) = &msg.to {
                if self.lookup(t).is_none() {
                    let notice = OutboundMessage {
                        from: String::from_str("SYSTEM"),
                        to: Some(msg.from.clone()),
                        content: miss_text(t.as_str()),
                    };
                    self.deliver(&notice);
                    return;
                }
            }
        }
        self.deliver(&msg);
    }

    /// Broadcasts `text` from the reserved system identity.
    pub fn announce(&mut self, text: String)
        requires
            old(self).wf(),
        ensures
            final(self).wf(),
            final(self).registry() == old(self).registry(),
            final(self).queues() == deliver_spec(
                old(self).registry(),
                old(self).queues(),
                Envelope { from: system_identity(), to: None, content: text@ },
            ),
    {
        let msg = OutboundMessage::announcement(text);
        self.deliver(&msg);
    }

    /// Closes handle `h`: what waits in it is dropped, and later deliveries to
    /// it are dropped too.
    pub fn close(&mut self, h: usize)
        requires
            old(self).wf(),
            h < old(self).queues().len(),
        ensures
            final(self).wf(),
            final(self).registry() == old(self).registry(),
            final(self).queues() == old(self).queues().update(h as int, Queue { open: false, pending: Seq::empty() }),
    {
        self.outboxes[h].open = false;
        self.outboxes[h].pending = Vec::new();
        assert(self.outboxes@.len() == old(self).outboxes@.len());
        assert forall|i: int| 0 <= i < self.entries@.len() implies self.entries@[i].handle < self.outboxes@.len() by {
            assert(old(self).reg@.contains_key(old(self).entries@[i].identity@));
        }
        assert(Seq::<OutboundMessage>::empty().map_values(|m: OutboundMessage| m@) =~= Seq::<Envelope>::empty());
        assert(self.outboxes@[h as int].pending@ =~= Seq::<OutboundMessage>::empty());
        assert(self.queues() =~= old(self).queues().update(h as int, Queue { open: false, pending: Seq::empty() }));
    }

    /// Hands out everything waiting in handle `h`, oldest first, and leaves it
    /// empty.
    pub fn take_pending(&mut self, h: usize) -> (r: Vec<OutboundMessage>)
        requires
            old(self).wf(),
            h < old(self).queues().len(),
        ensures
            final(self).wf(),
            final(self).registry() == old(self).registry(),
            r@.map_values(|m: OutboundMessage| m@) == old(self).queues()[h as int].pending,
            final(self).queues() == old(self).queues().update(
                h as int,
                Queue { open: old(self).queues()[h as int].open, pending: Seq::empty() },
            ),
    {
        let mut r: Vec<OutboundMessage> = Vec::new();
        std::mem::swap(&mut self.outboxes[h].pending, &mut r);
        assert(self.outboxes@.len() == old(self).outboxes@.len());
        assert forall|i: int| 0 <= i < self.entries@.len() implies self.entries@[i].handle < self.outboxes@.len() by {
            assert(old(self).reg@.contains_key(old(self).entries@[i].identity@));
        }
        assert(Seq::<OutboundMessage>::empty().map_values(|m: OutboundMessage| m@) =~= Seq::<Envelope>::empty());
        assert(self.outboxes@[h as int].pending@ =~= Seq::<OutboundMessage>::empty());
        assert(self.queues() =~= old(self).queues().update(
            h as int,
            Queue { open: old(self).queues()[h as int].open, pending: Seq::empty() },
        ));
        r
    }
}

} // verus!
