use vstd::prelude::*;
use crate::broker::{deliver_spec, enqueue, is_recipient, Queue};
use crate::message::{spec_left_text, system_identity, Envelope};
use crate::resolver::spec_resolve;
use crate::session::{
    completes, end_duty, finished, frame_spec, teardown_queues, teardown_registry, Duty, SessionState,
};

verus! {

/// A change to the registry: `(true, k, h)` registers `k` to `h`, and
/// `(false, k, _)` removes `k`.
pub open spec fn apply_changes(reg: Map<Seq<char>, usize>, changes: Seq<(bool, Seq<char>, usize)>) -> Map<
    Seq<char>,
    usize,
>
    decreases changes.len(),
{
    if changes.len() == 0 {
        reg
    } else {
        let (add, k, h) = changes.last();
        let before = apply_changes(reg, changes.drop_last());
        if add {
            before.insert(k, h)
        } else {
            before.remove(k)
        }
    }
}

/// The handles after routing each message of `msgs` in turn.
pub open spec fn deliver_all(reg: Map<Seq<char>, usize>, qs: Seq<Queue>, msgs: Seq<Envelope>) -> Seq<Queue>
    decreases msgs.len(),
{
    if msgs.len() == 0 {
        qs
    } else {
        deliver_spec(reg, deliver_all(reg, qs, msgs.drop_last()), msgs.last())
    }
}

/// An identity that a credential resolves to, once registered to a handle,
/// looks up to that same handle however other identities come and go, until
/// it is itself removed or registered again.
pub proof fn lemma_lookup_stable(
    credential: Seq<char>,
    reg: Map<Seq<char>, usize>,
    h: usize,
    changes: Seq<(bool, Seq<char>, usize)>,
)
    requires
        spec_resolve(credential) is Some,
        forall|i: int| 0 <= i < changes.len() ==> #[trigger] changes[i].1 != spec_resolve(credential)->0,
    ensures
        ({
            let id = spec_resolve(credential)->0;
            let r = apply_changes(reg.insert(id, h), changes);
            r.contains_key(id) && r[id] == h
        }),
    decreases changes.len(),
{
    if changes.len() > 0 {
        let rest = changes.drop_last();
        assert forall|i: int| 0 <= i < rest.len() implies #[trigger] rest[i].1 != spec_resolve(credential)->0 by {
            assert(rest[i] == changes[i]);
        }
        lemma_lookup_stable(credential, reg, h, rest);
        assert(changes[changes.len() - 1].1 != spec_resolve(credential)->0);
    }
}

/// Registering an identity a second time leaves one entry for it, pointing
/// at the later handle.
pub proof fn lemma_rejoin_last_wins(reg: Map<Seq<char>, usize>, id: Seq<char>, h1: usize, h2: usize)
    ensures
        reg.insert(id, h1).insert(id, h2).contains_key(id),
        reg.insert(id, h1).insert(id, h2)[id] == h2,
        reg.insert(id, h1).insert(id, h2).dom() == reg.dom().insert(id),
        reg.insert(id, h1).insert(id, h2) == reg.insert(id, h2),
{
    assert(reg.insert(id, h1).insert(id, h2).dom() =~= reg.dom().insert(id));
    assert(reg.insert(id, h1).insert(id, h2) =~= reg.insert(id, h2));
}

/// A broadcast reaches the handle of every registered identity but the
/// sender's, and leaves the sender's handle as it was.
pub proof fn lemma_broadcast_skips_sender(
    reg: Map<Seq<char>, usize>,
    qs: Seq<Queue>,
    a: Seq<char>,
    b: Seq<char>,
    c: Seq<char>,
    content: Seq<char>,
)
    requires
        reg.contains_key(a),
        reg.contains_key(b),
        reg.contains_key(c),
        a != b,
        a != c,
        b != c,
        forall|x: Seq<char>, y: Seq<char>|
            #[trigger] reg.contains_key(x) && #[trigger] reg.contains_key(y) && x != y ==> reg[x] != reg[y],
        forall|x: Seq<char>| #[trigger] reg.contains_key(x) ==> reg[x] < qs.len(),
    ensures
        ({
            let m = Envelope { from: a, to: None, content };
            let r = deliver_spec(reg, qs, m);
            &&& r.len() == qs.len()
            &&& r[reg[b] as int] == enqueue(qs[reg[b] as int], m)
            &&& r[reg[c] as int] == enqueue(qs[reg[c] as int], m)
            &&& r[reg[a] as int] == qs[reg[a] as int]
        }),
{
    let m = Envelope { from: a, to: None, content };
    assert(is_recipient(reg, m, reg[b] as int));
    assert(is_recipient(reg, m, reg[c] as int));
    if is_recipient(reg, m, reg[a] as int) {
        let k = choose|k: Seq<char>| #[trigger] reg.contains_key(k) && k != m.from && reg[k] == reg[a] as int;
        assert(reg[k] != reg[a]);
    }
}

/// A directed message reaches its target's handle and no other; one whose
/// target is not registered changes no handle.
pub proof fn lemma_directed_only_target(
    reg: Map<Seq<char>, usize>,
    qs: Seq<Queue>,
    a: Seq<char>,
    b: Seq<char>,
    missing: Seq<char>,
    content: Seq<char>,
)
    requires
        reg.contains_key(a),
        reg.contains_key(b),
        !reg.contains_key(missing),
        reg[b] < qs.len(),
    ensures
        ({
            let m = Envelope { from: a, to: Some(b), content };
            let r = deliver_spec(reg, qs, m);
            &&& r.len() == qs.len()
            &&& r[reg[b] as int] == enqueue(qs[reg[b] as int], m)
            &&& forall|h: int| 0 <= h < qs.len() && h != reg[b] ==> #[trigger] r[h] == qs[h]
        }),
        deliver_spec(reg, qs, Envelope { from: a, to: Some(missing), content }) == qs,
{
    assert(deliver_spec(reg, qs, Envelope { from: a, to: Some(missing), content }) =~= qs);
}

/// Once both duties of a session have ended, in either order, its identity
/// is out of the registry and exactly one of the two ends announced the
/// departure; no later end announces again.
pub proof fn lemma_teardown_once(reg: Map<Seq<char>, usize>, s: SessionState, d1: Duty, d2: Duty)
    requires
        !s.reader_done,
        !s.writer_done,
        d1 != d2,
        reg.contains_key(s.identity) ==> reg[s.identity] == s.handle,
    ensures
        ({
            let s1 = end_duty(s, d1);
            let s2 = end_duty(s1, d2);
            &&& !teardown_registry(teardown_registry(reg, s), s1).contains_key(s.identity)
            &&& !completes(s, d1)
            &&& completes(s1, d2)
            &&& finished(s2)
            &&& forall|d: Duty| !completes(s2, d)
        }),
{
}

/// Whether a routed message is meant for `b`: addressed to `b`, or a
/// broadcast from someone else.
pub open spec fn reaches(msg: Envelope, b: Seq<char>) -> bool {
    msg.to == Some(b) || (msg.to is None && msg.from != b)
}

/// When a session whose identity holds its own handle ends both duties, in
/// either order, its handle ends closed and empty, every other registered
/// handle gets the departure announcement exactly once, and handles nobody
/// holds are left as they were.
pub proof fn lemma_teardown_announces_once(
    reg: Map<Seq<char>, usize>,
    qs: Seq<Queue>,
    s: SessionState,
    d1: Duty,
    d2: Duty,
)
    requires
        !s.reader_done,
        !s.writer_done,
        d1 != d2,
        reg.contains_key(s.identity),
        reg[s.identity] == s.handle,
        !reg.contains_key(system_identity()),
        forall|x: Seq<char>, y: Seq<char>|
            #[trigger] reg.contains_key(x) && #[trigger] reg.contains_key(y) && x != y ==> reg[x] != reg[y],
        forall|x: Seq<char>| #[trigger] reg.contains_key(x) ==> reg[x] < qs.len(),
    ensures
        ({
            let s1 = end_duty(s, d1);
            let q1 = teardown_queues(reg, qs, s, d1);
            let q2 = teardown_queues(teardown_registry(reg, s), q1, s1, d2);
            let left = Envelope { from: system_identity(), to: None, content: spec_left_text(s.identity) };
            &&& q2.len() == qs.len()
            &&& q2[s.handle as int] == (Queue { open: false, pending: Seq::empty() })
            &&& forall|k: Seq<char>|
                #[trigger] reg.contains_key(k) && k != s.identity ==> q2[reg[k] as int] == enqueue(
                    qs[reg[k] as int],
                    left,
                )
            &&& forall|h: int|
                0 <= h < qs.len() && h != s.handle && (forall|k: Seq<char>| #[trigger] reg.contains_key(k) ==> reg[k] != h)
                    ==> #[trigger] q2[h] == qs[h]
        }),
{
    let s1 = end_duty(s, d1);
    let r1 = teardown_registry(reg, s);
    assert(r1 == reg.remove(s.identity));
    assert(teardown_registry(r1, s1) == r1);
    let closed = Queue { open: false, pending: Seq::empty() };
    let q1 = teardown_queues(reg, qs, s, d1);
    assert(q1 == qs.update(s.handle as int, closed));
    let base = q1.update(s.handle as int, closed);
    let left = Envelope { from: system_identity(), to: None, content: spec_left_text(s.identity) };
    let q2 = teardown_queues(r1, q1, s1, d2);
    assert(completes(s1, d2));
    assert(q2 == deliver_spec(r1, base, left));
    if is_recipient(r1, left, s.handle as int) {
        let k = choose|k: Seq<char>| #[trigger] r1.contains_key(k) && k != left.from && r1[k] == s.handle as int;
        assert(reg.contains_key(k));
    }
    assert forall|k: Seq<char>|
        #[trigger] reg.contains_key(k) && k != s.identity implies q2[reg[k] as int] == enqueue(qs[reg[k] as int], left) by {
        assert(reg[k] != reg[s.identity]);
        assert(r1.contains_key(k) && k != left.from && r1[k] == reg[k]);
        assert(is_recipient(r1, left, reg[k] as int));
    }
    assert forall|h: int|
        0 <= h < qs.len() && h != s.handle && (forall|k: Seq<char>| #[trigger] reg.contains_key(k) ==> reg[k] != h)
            implies #[trigger] q2[h] == qs[h] by {
        if is_recipient(r1, left, h) {
            let k = choose|k: Seq<char>| #[trigger] r1.contains_key(k) && k != left.from && r1[k] == h;
            assert(reg.contains_key(k));
        }
    }
}

/// Messages routed to one registered, open handle, directed or broadcast,
/// land in it in the order they were routed, whatever other traffic is routed
/// in between.
pub proof fn lemma_order_kept(
    reg: Map<Seq<char>, usize>,
    qs: Seq<Queue>,
    b: Seq<char>,
    m1: Envelope,
    others: Seq<Envelope>,
    m2: Envelope,
)
    requires
        reg.contains_key(b),
        reg[b] < qs.len(),
        qs[reg[b] as int].open,
        reaches(m1, b),
        reaches(m2, b),
    ensures
        ({
            let before = qs[reg[b] as int].pending;
            let after = deliver_all(reg, qs, seq![m1] + others + seq![m2])[reg[b] as int].pending;
            &&& after.len() >= before.len() + 2
            &&& after.subrange(0, before.len() + 1 as int) == before.push(m1)
            &&& after.last() == m2
        }),
{
    let hb = reg[b] as int;
    let msgs = seq![m1] + others + seq![m2];
    assert(seq![m1].drop_last() =~= Seq::<Envelope>::empty());
    assert(deliver_all(reg, qs, Seq::<Envelope>::empty()) == qs);
    assert(seq![m1].len() == 1 && seq![m1].last() == m1);
    let first = deliver_all(reg, qs, seq![m1]);
    assert(first == deliver_spec(reg, qs, m1));
    assert(reg.contains_key(b) && reg[b] == hb);
    assert(is_recipient(reg, m1, hb));
    assert(first[hb].pending == qs[hb].pending.push(m1));
    lemma_prefix_split(reg, qs, seq![m1], others);
    let mid = deliver_all(reg, first, others);
    assert(others.subrange(0, others.len() as int) =~= others);
    lemma_append_only(reg, first, hb, others, others.len() as int);
    assert(msgs.drop_last() =~= seq![m1] + others);
    assert(deliver_all(reg, qs, msgs) == deliver_spec(reg, mid, m2));
    assert(is_recipient(reg, m2, hb));
    let after = deliver_all(reg, qs, msgs)[hb].pending;
    assert(after == mid[hb].pending.push(m2));
    assert(after.subrange(0, qs[hb].pending.len() + 1 as int) =~= mid[hb].pending.subrange(0, qs[hb].pending.len() + 1 as int));
    assert(mid[hb].pending.subrange(0, first[hb].pending.len() as int) == first[hb].pending);
    assert(mid[hb].pending.subrange(0, qs[hb].pending.len() + 1 as int) =~= first[hb].pending);
}

/// After an identity registers a second time, what is routed to it reaches
/// only the later handle; the earlier handle, which no identity holds any
/// more, gets nothing.
pub proof fn lemma_rejoin_routes_to_latest(
    reg: Map<Seq<char>, usize>,
    qs: Seq<Queue>,
    a: Seq<char>,
    h1: usize,
    h2: usize,
    msg: Envelope,
)
    requires
        h1 != h2,
        h1 < qs.len(),
        h2 < qs.len(),
        forall|k: Seq<char>| #[trigger] reg.contains_key(k) ==> reg[k] != h1 && reg[k] != h2,
        reaches(msg, a),
    ensures
        ({
            let r = deliver_spec(reg.insert(a, h1).insert(a, h2), qs, msg);
            &&& r[h2 as int] == enqueue(qs[h2 as int], msg)
            &&& r[h1 as int] == qs[h1 as int]
        }),
{
    let reg2 = reg.insert(a, h1).insert(a, h2);
    assert(reg2.contains_key(a) && reg2[a] == h2);
    assert(is_recipient(reg2, msg, h2 as int));
    if is_recipient(reg2, msg, h1 as int) {
        let k = choose|k: Seq<char>| #[trigger] reg2.contains_key(k) && k != msg.from && reg2[k] == h1 as int;
        if k != a {
            assert(reg.contains_key(k));
        }
    }
}

/// A handle that no identity holds any more gets nothing that is routed;
/// while its identity held it, it got each message meant for that identity
/// once.
pub proof fn lemma_removed_handle_gets_nothing(
    reg: Map<Seq<char>, usize>,
    qs: Seq<Queue>,
    id: Seq<char>,
    msg: Envelope,
)
    requires
        reg.contains_key(id),
        reg[id] < qs.len(),
        forall|x: Seq<char>, y: Seq<char>|
            #[trigger] reg.contains_key(x) && #[trigger] reg.contains_key(y) && x != y ==> reg[x] != reg[y],
    ensures
        deliver_spec(reg.remove(id), qs, msg)[reg[id] as int] == qs[reg[id] as int],
        reaches(msg, id) ==> deliver_spec(reg, qs, msg)[reg[id] as int] == enqueue(qs[reg[id] as int], msg),
{
    let h = reg[id];
    let r = reg.remove(id);
    if is_recipient(r, msg, h as int) {
        match msg.to {
            Some(t) => {
                assert(reg.contains_key(t));
            },
            None => {
                let k = choose|k: Seq<char>| #[trigger] r.contains_key(k) && k != msg.from && r[k] == h as int;
                assert(reg.contains_key(k));
            },
        }
    }
    if reaches(msg, id) {
        assert(reg.contains_key(id) && reg[id] == h);
        assert(is_recipient(reg, msg, h as int));
    }
}

/// Routing only appends to a handle and keeps it open.
proof fn lemma_append_only(reg: Map<Seq<char>, usize>, qs: Seq<Queue>, h: int, msgs: Seq<Envelope>, n: int)
    requires
        0 <= h < qs.len(),
        qs[h].open,
        0 <= n <= msgs.len(),
    ensures
        ({
            let r = deliver_all(reg, qs, msgs.subrange(0, n));
            &&& r.len() == qs.len()
            &&& r[h].open
            &&& r[h].pending.len() >= qs[h].pending.len()
            &&& r[h].pending.subrange(0, qs[h].pending.len() as int) == qs[h].pending
        }),
    decreases n,
{
    if n > 0 {
        lemma_append_only(reg, qs, h, msgs, n - 1);
        assert(msgs.subrange(0, n).drop_last() =~= msgs.subrange(0, n - 1));
        let prev = deliver_all(reg, qs, msgs.subrange(0, n - 1));
        let r = deliver_all(reg, qs, msgs.subrange(0, n));
        if is_recipient(reg, msgs.subrange(0, n).last(), h) {
            assert(r[h].pending == prev[h].pending.push(msgs.subrange(0, n).last()));
            assert(r[h].pending.subrange(0, qs[h].pending.len() as int) =~= prev[h].pending.subrange(
                0,
                qs[h].pending.len() as int,
            ));
        }
    } else {
        assert(msgs.subrange(0, 0) =~= Seq::<Envelope>::empty());
        assert(qs[h].pending.subrange(0, qs[h].pending.len() as int) =~= qs[h].pending);
    }
}

/// Routing `a + b` is routing `a` and then `b`.
proof fn lemma_prefix_split(reg: Map<Seq<char>, usize>, qs: Seq<Queue>, a: Seq<Envelope>, b: Seq<Envelope>)
    ensures
        deliver_all(reg, qs, a + b) == deliver_all(reg, deliver_all(reg, qs, a), b),
    decreases b.len(),
{
    if b.len() == 0 {
        assert(a + b =~= a);
    } else {
        lemma_prefix_split(reg, qs, a, b.drop_last());
        assert((a + b).drop_last() =~= a + b.drop_last());
        assert((a + b).last() == b.last());
    }
}

/// A frame that does not decode changes nothing, so the frames after it are
/// routed just as if it had never come.
pub proof fn lemma_malformed_frame_harmless(
    reg: Map<Seq<char>, usize>,
    qs: Seq<Queue>,
    from: Seq<char>,
    to: Option<Seq<char>>,
    content: Seq<char>,
    notify_miss: bool,
)
    ensures
        frame_spec(reg, qs, from, None, notify_miss) == qs,
        frame_spec(reg, frame_spec(reg, qs, from, None, notify_miss), from, Some((to, content)), notify_miss)
            == frame_spec(reg, qs, from, Some((to, content)), notify_miss),
{
}

} // verus!
