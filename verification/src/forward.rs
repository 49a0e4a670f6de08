//! Forwarding one direction of a connection: what to do with what a socket gave.
//!
//! The sockets are the caller's. The caller receives and tells
//! [`Forwarder::on_receive`] how that went. What it is told to send it sends, and
//! tells [`on_send`] how that went, until it is told to receive again.

use vstd::prelude::*;

#[allow(unused_imports)]
use crate::handler::{Appended, HandlerModel, HandlerRole, WLMessageHandler};
#[allow(unused_imports)]
use crate::registry::{Note, RegistryModel, WLObjectRegistry};

verus! {

/// How an attempt to receive went.
pub enum ReceiveOutcome<'a> {
    /// There is nothing to be received yet.
    WouldBlock,
    /// The attempt failed.
    Failed,
    /// These bytes came, with these file descriptors attached.
    Received { bytes: &'a [u8], rights: Vec<i32> },
}

/// What to do after an attempt to receive.
pub enum ReceiveAction {
    /// Receive again.
    Retry,
    /// Give up with the error of the attempt.
    Fail,
    /// The peer is done: close the other peer's sending side, and stop.
    Finish,
    /// The peer sent what is no Wayland message: give up. The notes are on the
    /// messages before.
    Refuse { notes: Vec<Note> },
    /// Send these bytes, with these file descriptors attached. The notes are on
    /// the messages that were received.
    Send { response: Vec<u8>, rights: Vec<i32>, notes: Vec<Note> },
}

/// What a [`ReceiveOutcome`] says.
pub enum Reception {
    WouldBlock,
    Failed,
    Received { bytes: Seq<u8>, rights: Seq<i32> },
}

impl<'a> View for ReceiveOutcome<'a> {
    type V = Reception;

    open spec fn view(&self) -> Reception {
        match self {
            ReceiveOutcome::WouldBlock => Reception::WouldBlock,
            ReceiveOutcome::Failed => Reception::Failed,
            ReceiveOutcome::Received { bytes, rights } => Reception::Received {
                bytes: bytes@,
                rights: rights@,
            },
        }
    }
}

/// What a [`ReceiveAction`] says.
pub enum ReceiveStep {
    Retry,
    Fail,
    Finish,
    Refuse { notes: Seq<Note> },
    Send { response: Seq<u8>, rights: Seq<i32>, notes: Seq<Note> },
}

impl View for ReceiveAction {
    type V = ReceiveStep;

    open spec fn view(&self) -> ReceiveStep {
        match self {
            ReceiveAction::Retry => ReceiveStep::Retry,
            ReceiveAction::Fail => ReceiveStep::Fail,
            ReceiveAction::Finish => ReceiveStep::Finish,
            ReceiveAction::Refuse { notes } => ReceiveStep::Refuse { notes: notes@ },
            ReceiveAction::Send { response, rights, notes } => ReceiveStep::Send {
                response: response@,
                rights: rights@,
                notes: notes@,
            },
        }
    }
}

/// How an attempt to send went.
#[derive(Clone, Copy, Debug, PartialEq, Eq, Structural)]
pub enum SendOutcome {
    /// The first `n` bytes were accepted, and the file descriptors with them.
    Sent { n: usize },
    /// Nothing can be accepted yet.
    WouldBlock,
    /// The attempt failed.
    Failed,
}

/// What to do after an attempt to send.
pub enum SendAction {
    /// Close the file descriptors in `close`, then send these bytes, with the
    /// file descriptors in `rights` attached.
    Send { response: Vec<u8>, rights: Vec<i32>, close: Vec<i32> },
    /// Close these file descriptors, then receive again.
    Receive { close: Vec<i32> },
    /// Close these file descriptors, then give up with the error of the attempt.
    Fail { close: Vec<i32> },
}

/// What a [`SendAction`] says.
pub enum SendStep {
    Send { response: Seq<u8>, rights: Seq<i32>, close: Seq<i32> },
    Receive { close: Seq<i32> },
    Fail { close: Seq<i32> },
}

impl View for SendAction {
    type V = SendStep;

    open spec fn view(&self) -> SendStep {
        match self {
            SendAction::Send { response, rights, close } => SendStep::Send {
                response: response@,
                rights: rights@,
                close: close@,
            },
            SendAction::Receive { close } => SendStep::Receive { close: close@ },
            SendAction::Fail { close } => SendStep::Fail { close: close@ },
        }
    }
}

/// What follows an attempt to send `response` with the file descriptors `rights`
/// attached. What was not accepted is sent before anything else. File descriptors
/// that went out are closed and not attached again.
pub open spec fn after_send(
    outcome: SendOutcome,
    response: Seq<u8>,
    rights: Seq<i32>,
) -> SendStep {
    match outcome {
        SendOutcome::Sent { n } => if n < response.len() {
            SendStep::Send {
                response: response.skip(n as int),
                rights: Seq::empty(),
                close: rights,
            }
        } else {
            SendStep::Receive { close: rights }
        },
        SendOutcome::WouldBlock => SendStep::Send { response, rights, close: Seq::empty() },
        SendOutcome::Failed => SendStep::Fail { close: rights },
    }
}

/// Forwards one direction of a connection.
pub struct Forwarder {
    handler: WLMessageHandler,
    strict: bool,
}

/// What a [`Forwarder`] holds.
pub struct ForwarderModel {
    pub handler: HandlerModel,
    /// Whether messages must have exactly the size of their arguments.
    pub strict: bool,
}

impl View for Forwarder {
    type V = ForwarderModel;

    closed spec fn view(&self) -> ForwarderModel {
        ForwarderModel { handler: self.handler@, strict: self.strict }
    }
}

/// The handler and the registry after the whole words of `bytes`, up to the
/// first that cannot be taken, and whether all of them could be taken.
pub open spec fn feed(
    handler: HandlerModel,
    registry: RegistryModel,
    bytes: Seq<u8>,
    strict: bool,
) -> (HandlerModel, RegistryModel, bool)
    decreases bytes.len(),
{
    if bytes.len() < 4 {
        (handler, registry, true)
    } else if !handler.takes(registry, bytes.take(4), strict) {
        (handler, registry, false)
    } else {
        let (handler_after, registry_after) = handler.append(registry, bytes.take(4));
        feed(handler_after, registry_after, bytes.skip(4), strict)
    }
}

/// What is worth telling of the messages that the whole words of `bytes`
/// complete, up to the first word that cannot be taken.
pub open spec fn feed_notes(
    handler: HandlerModel,
    registry: RegistryModel,
    bytes: Seq<u8>,
    strict: bool,
) -> Seq<Note>
    decreases bytes.len(),
{
    if bytes.len() < 4 || !handler.takes(registry, bytes.take(4), strict) {
        Seq::empty()
    } else {
        let (handler_after, registry_after) = handler.append(registry, bytes.take(4));
        let rest = feed_notes(handler_after, registry_after, bytes.skip(4), strict);
        match handler.note(registry, bytes.take(4)) {
            Some(note) => seq![note] + rest,
            None => rest,
        }
    }
}

impl ForwarderModel {
    /// The state of a forwarder that has received `bytes`, of the registry with
    /// it, and whether all of `bytes` could be taken.
    pub open spec fn received(self, registry: RegistryModel, bytes: Seq<u8>) -> (
        ForwarderModel,
        RegistryModel,
        bool,
    ) {
        if self.strict && bytes.len() % 4 != 0 {
            (self, registry, false)
        } else {
            let (handler, after, taken) = feed(self.handler, registry, bytes, self.strict);
            (ForwarderModel { handler, ..self }, after, taken)
        }
    }

    /// What is worth telling of the messages that `bytes` complete.
    pub open spec fn received_notes(self, registry: RegistryModel, bytes: Seq<u8>) -> Seq<Note> {
        if self.strict && bytes.len() % 4 != 0 {
            Seq::empty()
        } else {
            feed_notes(self.handler, registry, bytes, self.strict)
        }
    }

    /// What follows an attempt to receive: the state of the forwarder, of the registry
    /// with it, and what is to be done.
    pub open spec fn after_receive(self, registry: RegistryModel, outcome: Reception) -> (
        ForwarderModel,
        RegistryModel,
        ReceiveStep,
    ) {
        match outcome {
            Reception::WouldBlock => (self, registry, ReceiveStep::Retry),
            Reception::Failed => (self, registry, ReceiveStep::Fail),
            Reception::Received { bytes, rights } => if bytes.len() == 0 && rights.len() == 0 {
                (self, registry, ReceiveStep::Finish)
            } else {
                let (fed, after, taken) = self.received(registry, bytes);
                let notes = self.received_notes(registry, bytes);
                if taken {
                    (
                        fed.drained(),
                        after,
                        ReceiveStep::Send {
                            response: fed.handler.output.flatten(),
                            rights,
                            notes,
                        },
                    )
                } else {
                    (fed, after, ReceiveStep::Refuse { notes })
                }
            },
        }
    }

    /// The forwarder with nothing left to be passed on.
    pub open spec fn drained(self) -> ForwarderModel {
        ForwarderModel {
            handler: HandlerModel { output: Seq::empty(), ..self.handler },
            ..self
        }
    }
}

impl Forwarder {
    /// A forwarder through which nothing has come. If it is `strict`, it refuses
    /// messages that do not have exactly the size of their arguments, and
    /// refuses to receive anything but whole words.
    pub fn new(role: HandlerRole, strict: bool) -> (forwarder: Self)
        ensures
            forwarder@.handler == HandlerModel::initial(role),
            forwarder@.handler.wf(),
            forwarder@.strict == strict,
    {
        Self { handler: WLMessageHandler::new(role), strict }
    }

    /// Takes the whole words of `bytes`, up to the first that cannot be taken.
    /// The result is whether all of them were taken, and what is worth telling.
    fn feed(&mut self, registry: &mut WLObjectRegistry, bytes: &[u8]) -> (fed: (bool, Vec<Note>))
        requires
            old(self)@.handler.wf(),
        ensures
            (final(self)@.handler, final(registry)@, fed.0) == feed(
                old(self)@.handler,
                old(registry)@,
                bytes@,
                old(self)@.strict,
            ),
            fed.1@ == feed_notes(
                old(self)@.handler,
                old(registry)@,
                bytes@,
                old(self)@.strict,
            ),
            final(self)@.strict == old(self)@.strict,
            final(self)@.handler.wf(),
    {
        let mut notes: Vec<Note> = Vec::new();
        let mut i: usize = 0;
        proof {
            assert(bytes@.skip(0) =~= bytes@);
            let all = feed_notes(self@.handler, registry@, bytes@, self@.strict);
            assert(notes@ + all =~= all);
        }
        while bytes.len() - i >= 4
            invariant
                i <= bytes@.len(),
                self@.handler.wf(),
                self@.strict == old(self)@.strict,
                feed(self@.handler, registry@, bytes@.skip(i as int), self@.strict) == feed(
                    old(self)@.handler,
                    old(registry)@,
                    bytes@,
                    old(self)@.strict,
                ),
                notes@ + feed_notes(
                    self@.handler,
                    registry@,
                    bytes@.skip(i as int),
                    self@.strict,
                ) == feed_notes(old(self)@.handler, old(registry)@, bytes@, old(self)@.strict),
            decreases bytes@.len() - i,
        {
            let x: [u8; 4] = [bytes[i], bytes[i + 1], bytes[i + 2], bytes[i + 3]];
            let ghost noted = notes@;
            proof {
                assert(x@ =~= bytes@.skip(i as int).take(4));
                assert(bytes@.skip(i as int).skip(4) =~= bytes@.skip(i + 4));
            }
            match self.handler.try_append_word(registry, x, self.strict) {
                Appended::Taken { note } => {
                    if let Some(note) = note {
                        notes.push(note);
                        proof {
                            let rest = feed_notes(
                                self@.handler,
                                registry@,
                                bytes@.skip(i + 4),
                                self@.strict,
                            );
                            assert(noted.push(note) + rest =~= noted + (seq![note] + rest));
                        }
                    }
                },
                Appended::Refused => {
                    assert(notes@ + Seq::<Note>::empty() =~= notes@);
                    return (false, notes);
                },
            }
            i = i + 4;
        }
        assert(notes@ + Seq::<Note>::empty() =~= notes@);
        (true, notes)
    }

    /// Takes out all messages that are to be passed on, one after the other.
    fn drain(&mut self) -> (response: Vec<u8>)
        requires
            old(self)@.handler.wf(),
        ensures
            response@ == old(self)@.handler.output.flatten(),
            final(self)@ == old(self)@.drained(),
            final(self)@.handler.wf(),
    {
        let mut response: Vec<u8> = Vec::new();
        loop
            invariant
                self@.handler.wf(),
                self@.drained() == old(self)@.drained(),
                response@ + self@.handler.output.flatten() == old(self)@.handler.output.flatten(),
            ensures
                self@.handler.wf(),
                self@.drained() == old(self)@.drained(),
                response@ + self@.handler.output.flatten() == old(self)@.handler.output.flatten(),
                self@.handler.output.len() == 0,
            decreases self@.handler.output.len(),
        {
            let ghost output = self@.handler.output;
            match self.handler.pop() {
                Some(message) => {
                    let mut message = message;
                    response.append(&mut message);
                    assert(output.skip(1) =~= output.drop_first());
                },
                None => {
                    break;
                },
            }
        }
        assert(self@.handler.output =~= Seq::empty());
        response
    }

    /// Decides what to do after an attempt to receive.
    pub fn on_receive(
        &mut self,
        registry: &mut WLObjectRegistry,
        outcome: ReceiveOutcome,
    ) -> (action: ReceiveAction)
        requires
            old(self)@.handler.wf(),
        ensures
            final(self)@.handler.wf(),
            (final(self)@, final(registry)@, action@) == old(self)@.after_receive(
                old(registry)@,
                outcome@,
            ),
            match outcome {
                ReceiveOutcome::WouldBlock => {
                    &&& action is Retry
                    &&& final(self)@ == old(self)@
                    &&& final(registry)@ == old(registry)@
                },
                ReceiveOutcome::Failed => {
                    &&& action is Fail
                    &&& final(self)@ == old(self)@
                    &&& final(registry)@ == old(registry)@
                },
                ReceiveOutcome::Received { bytes, rights } => if bytes@.len() == 0 && rights@.len()
                    == 0 {
                    &&& action is Finish
                    &&& final(self)@ == old(self)@
                    &&& final(registry)@ == old(registry)@
                } else {
                    let (fed, after, taken) = old(self)@.received(old(registry)@, bytes@);
                    let told = old(self)@.received_notes(old(registry)@, bytes@);
                    &&& final(registry)@ == after
                    &&& if taken {
                        &&& action matches ReceiveAction::Send { response, rights: attached, notes }
                        &&& response@ == fed.handler.output.flatten()
                        &&& attached@ == rights@
                        &&& notes@ == told
                        &&& final(self)@ == fed.drained()
                    } else {
                        &&& action matches ReceiveAction::Refuse { notes }
                        &&& notes@ == told
                        &&& final(self)@ == fed
                    }
                },
            },
    {
        match outcome {
            ReceiveOutcome::WouldBlock => ReceiveAction::Retry,
            ReceiveOutcome::Failed => ReceiveAction::Fail,
            ReceiveOutcome::Received { bytes, rights } => {
                if bytes.len() == 0 && rights.len() == 0 {
                    return ReceiveAction::Finish;
                }
                if self.strict && bytes.len() % 4 != 0 {
                    return ReceiveAction::Refuse { notes: Vec::new() };
                }
                let (taken, notes) = self.feed(registry, bytes);
                if !taken {
                    return ReceiveAction::Refuse { notes };
                }
                let response = self.drain();
                ReceiveAction::Send { response, rights, notes }
            },
        }
    }
}

/// Decides what to do after an attempt to send `response` with the file
/// descriptors `rights` attached.
pub fn on_send(outcome: SendOutcome, response: Vec<u8>, rights: Vec<i32>) -> (action: SendAction)
    ensures
        action@ == after_send(outcome, response@, rights@),
{
    match outcome {
        SendOutcome::Sent { n } => {
            if n < response.len() {
                let rest = vstd::slice::slice_to_vec(&response.as_slice()[n..response.len()]);
                assert(rest@ =~= response@.skip(n as int));
                SendAction::Send { response: rest, rights: Vec::new(), close: rights }
            } else {
                SendAction::Receive { close: rights }
            }
        },
        SendOutcome::WouldBlock => SendAction::Send { response, rights, close: Vec::new() },
        SendOutcome::Failed => SendAction::Fail { close: rights },
    }
}

} // verus!
