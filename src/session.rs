use vstd::prelude::*;
use crate::broker::{deliver_spec, routed_spec, Broker, Queue};
use crate::message::{
    joined_text, left_text, opt_view, spec_joined_text, spec_left_text, system_identity, Envelope,
    InboundMessage, OutboundMessage,
};

verus! {

/// The two concurrent duties of an active connection.
pub enum Duty {
    Reader,
    Writer,
}

/// One authenticated connection: its identity, its handle, and which of its
/// duties have ended.
pub struct Session {
    identity: String,
    handle: usize,
    reader_done: bool,
    writer_done: bool,
}

/// The mathematical value of a `Session`.
pub struct SessionState {
    pub identity: Seq<char>,
    pub handle: usize,
    pub reader_done: bool,
    pub writer_done: bool,
}

impl View for Session {
    type V = SessionState;

    closed spec fn view(&self) -> SessionState {
        SessionState {
            identity: self.identity@,
            handle: self.handle,
            reader_done: self.reader_done,
            writer_done: self.writer_done,
        }
    }
}

/// Whether both duties have ended.
pub open spec fn finished(s: SessionState) -> bool {
    s.reader_done && s.writer_done
}

/// The session after duty `d` ends.
pub open spec fn end_duty(s: SessionState, d: Duty) -> SessionState {
    match d {
        Duty::Reader => SessionState { reader_done: true, ..s },
        Duty::Writer => SessionState { writer_done: true, ..s },
    }
}

/// Whether the end of `d` is the one that completes the session, and so
/// triggers the departure announcement.
pub open spec fn completes(s: SessionState, d: Duty) -> bool {
    !finished(s) && finished(end_duty(s, d))
}

/// The registry after a duty of session `s` ends: the identity leaves it
/// while it still points at this session's handle.
pub open spec fn teardown_registry(reg: Map<Seq<char>, usize>, s: SessionState) -> Map<Seq<char>, usize> {
    if reg.contains_key(s.identity) && reg[s.identity] == s.handle {
        reg.remove(s.identity)
    } else {
        reg
    }
}

/// The handles after a duty of session `s` ends: its own handle is closed,
/// and the departure is announced if this end completes the session.
pub open spec fn teardown_queues(reg: Map<Seq<char>, usize>, qs: Seq<Queue>, s: SessionState, d: Duty) -> Seq<Queue> {
    let closed = qs.update(s.handle as int, Queue { open: false, pending: Seq::empty() });
    if completes(s, d) {
        deliver_spec(
            teardown_registry(reg, s),
            closed,
            Envelope { from: system_identity(), to: None, content: spec_left_text(s.identity) },
        )
    } else {
        closed
    }
}

/// The handles after one inbound frame of session `s`: `None` stands for a
/// frame that did not decode, and changes nothing.
pub open spec fn frame_spec(
    reg: Map<Seq<char>, usize>,
    qs: Seq<Queue>,
    from: Seq<char>,
    frame: Option<(Option<Seq<char>>, Seq<char>)>,
    notify_miss: bool,
) -> Seq<Queue> {
    match frame {
        None => qs,
        Some((to, content)) => deliver_spec(
            reg,
            qs,
            routed_spec(reg, Envelope { from, to, content }, notify_miss),
        ),
    }
}

pub open spec fn inbound_view(frame: Option<InboundMessage>) -> Option<(Option<Seq<char>>, Seq<char>)> {
    match frame {
        None => None,
        Some(m) => Some((opt_view(m.to), m.content@)),
    }
}

impl Session {
    pub fn identity(&self) -> (r: &String)
        ensures
            r@ == self@.identity,
    {
        &self.identity
    }

    pub fn handle(&self) -> (r: usize)
        ensures
            r == self@.handle,
    {
        self.handle
    }

    /// Whether both duties have ended.
    pub fn is_finished(&self) -> (r: bool)
        ensures
            r == finished(self@),
    {
        self.reader_done && self.writer_done
    }

    /// Registers an authenticated identity on a fresh handle and announces
    /// that it joined.
    pub fn open(broker: &mut Broker, identity: String) -> (s: Session)
        requires
            old(broker).wf(),
            old(broker).queues().len() < usize::MAX,
        ensures
            final(broker).wf(),
            s@ == (SessionState {
                identity: identity@,
                handle: old(broker).queues().len() as usize,
                reader_done: false,
                writer_done: false,
            }),
            final(broker).registry() == old(broker).registry().insert(identity@, s@.handle),
            final(broker).queues() == deliver_spec(
                final(broker).registry(),
                old(broker).queues().push(Queue { open: true, pending: Seq::empty() }),
                Envelope { from: system_identity(), to: None, content: spec_joined_text(identity@) },
            ),
    {
        let text = joined_text(identity.as_str());
        let handle = broker.join(identity.clone());
        broker.announce(text);
        Session { identity, handle, reader_done: false, writer_done: false }
    }

    /// Handles one inbound frame: a decoded message is routed from this
    /// session's identity; `None`, a frame that did not decode, is dropped and
    /// the session goes on.
    pub fn on_frame(&self, broker: &mut Broker, frame: Option<InboundMessage>, notify_miss: bool)
        requires
            old(broker).wf(),
        ensures
            final(broker).wf(),
            final(broker).registry() == old(broker).registry(),
            final(broker).queues() == frame_spec(
                old(broker).registry(),
                old(broker).queues(),
                self@.identity,
                inbound_view(frame),
                notify_miss,
            ),
    {
        match frame {
            Some(m) => {
                let msg = OutboundMessage::from_inbound(&self.identity, m);
                broker.route_message(msg, notify_miss);
            },
            None => {},
        }
    }

    /// Records that duty `d` ended: the identity leaves the registry if it
    /// still points at this session's handle, the handle is closed, and the
    /// departure is announced when this end completes the session. Returns
    /// whether it announced.
    pub fn duty_ended(&mut self, broker: &mut Broker, d: Duty) -> (left: bool)
        requires
            old(broker).wf(),
            old(self)@.handle < old(broker).queues().len(),
        ensures
            final(broker).wf(),
            final(self)@ == end_duty(old(self)@, d),
            left == completes(old(self)@, d),
            final(broker).registry() == teardown_registry(old(broker).registry(), old(self)@),
            final(broker).queues() == teardown_queues(
                old(broker).registry(),
                old(broker).queues(),
                old(self)@,
                d,
            ),
    {
        let was_finished = self.reader_done && self.writer_done;
        broker.deregister(&self.identity, self.handle);
        broker.close(self.handle);
        match d {
            Duty::Reader => self.reader_done = true,
            Duty::Writer => self.writer_done = true,
        }
        if !was_finished && self.reader_done && self.writer_done {
            broker.announce(left_text(self.identity.as_str()));
            true
        } else {
            false
        }
    }
}

} // verus!
