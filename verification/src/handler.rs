//! Cutting one direction of a connection into messages, and deciding on each.

use std::collections::VecDeque;

use vstd::prelude::*;

#[allow(unused_imports)]
use crate::{bytes, message, registry};
use crate::bytes::word_to_ne_bytes;
use crate::message::{
    check_event_size, check_request_size, read_event, read_header, read_request, BUF_LEN,
    HEADER_LEN,
};
#[allow(unused_imports)]
use crate::registry::{Note, RegistryModel, WLObjectRegistry};

verus! {

/// The direction that a handler stands in.
#[derive(Clone, Copy, Debug, PartialEq, Eq, Structural)]
pub enum HandlerRole {
    /// From the compositor to the client.
    InBound,
    /// From the client to the compositor.
    OutBound,
}

/// The part of a message that a handler waits for.
#[derive(Clone, Copy, Debug, PartialEq, Eq, Structural)]
pub enum HandlerState {
    Header,
    Body,
}

/// Takes the words of one direction of a connection, and gives out the messages
/// that are to be passed on.
pub struct WLMessageHandler {
    role: HandlerRole,
    ptr: usize,
    len: usize,
    state: HandlerState,
    buf: [u8; BUF_LEN],
    output: VecDeque<Vec<u8>>,
}

/// What has become of a word.
#[derive(Clone, Copy, Debug, PartialEq, Eq)]
pub enum Appended {
    /// The word cannot be taken.
    Refused,
    /// The word was taken. If it completed a message, there may be something
    /// worth telling of that message.
    Taken { note: Option<Note> },
}

/// What a [`WLMessageHandler`] holds.
pub struct HandlerModel {
    pub role: HandlerRole,
    /// The number of bytes of the current message that have come.
    pub ptr: int,
    /// The number of bytes that are waited for: those of the header, then those
    /// of the whole message.
    pub len: int,
    pub state: HandlerState,
    pub buf: Seq<u8>,
    /// The messages that are to be passed on, the oldest first.
    pub output: Seq<Seq<u8>>,
}

/// What a complete message does: the registry after it, and whether it is
/// passed on.
pub open spec fn judge(role: HandlerRole, registry: RegistryModel, m: Seq<u8>) -> (
    RegistryModel,
    bool,
) {
    match role {
        HandlerRole::OutBound => (
            registry.after_request(message::request_of(registry, m)),
            true,
        ),
        HandlerRole::InBound => {
            let event = message::event_of(registry, m);
            (registry.after_event(event), !registry.blocks(event))
        },
    }
}

/// What is worth telling of a complete message.
pub open spec fn remark(role: HandlerRole, registry: RegistryModel, m: Seq<u8>) -> Option<Note> {
    match role {
        HandlerRole::OutBound => registry.request_note(message::request_of(registry, m)),
        HandlerRole::InBound => registry::event_note(message::event_of(registry, m)),
    }
}

/// Whether a complete message can be read, and, if `strict`, has exactly the
/// size of its arguments.
pub open spec fn judgeable(
    role: HandlerRole,
    registry: RegistryModel,
    m: Seq<u8>,
    strict: bool,
) -> bool {
    match role {
        HandlerRole::OutBound => {
            &&& message::request_readable(registry, m)
            &&& strict ==> message::request_sized(
                message::request_of(registry, m),
                m,
            )
        },
        HandlerRole::InBound => {
            &&& message::event_readable(registry, m)
            &&& strict ==> message::event_sized(message::event_of(registry, m), m)
        },
    }
}

impl HandlerModel {
    /// A handler to which no word has come.
    pub open spec fn initial(role: HandlerRole) -> HandlerModel {
        HandlerModel {
            role,
            ptr: 0,
            len: HEADER_LEN as int,
            state: HandlerState::Header,
            buf: Seq::new(BUF_LEN as nat, |i: int| 0u8),
            output: Seq::empty(),
        }
    }

    /// A handler waits for the rest of a message, of which it has whole words.
    pub open spec fn wf(self) -> bool {
        &&& self.buf.len() == BUF_LEN
        &&& self.ptr % 4 == 0
        &&& match self.state {
            HandlerState::Header => 0 <= self.ptr < self.len == HEADER_LEN,
            HandlerState::Body => {
                &&& HEADER_LEN <= self.ptr <= BUF_LEN
                &&& 0 <= self.len < 0x1_0000
                &&& self.ptr != self.len
            },
        }
    }

    /// The handler with the bytes of `x` stored, before it looks whether the
    /// message is complete.
    pub open spec fn stored(self, x: Seq<u8>) -> HandlerModel {
        let buf = bytes::overwrite(self.buf, self.ptr, x);
        let ptr = self.ptr + x.len();
        if self.state is Header && ptr == self.len {
            HandlerModel {
                ptr,
                len: message::msg_size(buf) as int,
                state: HandlerState::Body,
                buf,
                ..self
            }
        } else {
            HandlerModel { ptr, buf, ..self }
        }
    }

    /// Whether all of the current message has come.
    pub open spec fn complete(self) -> bool {
        self.state is Body && self.ptr == self.len
    }

    /// The handler after the word `x`, and the registry with it: a message that
    /// `x` completes is judged, and moved to the output if it is passed on.
    pub open spec fn append(self, registry: RegistryModel, x: Seq<u8>) -> (
        HandlerModel,
        RegistryModel,
    ) {
        let next = self.stored(x);
        if next.complete() {
            let (after, pass) = judge(self.role, registry, next.buf);
            (
                HandlerModel {
                    ptr: 0,
                    len: HEADER_LEN as int,
                    state: HandlerState::Header,
                    output: if pass {
                        self.output.push(next.buf.take(next.len))
                    } else {
                        self.output
                    },
                    ..next
                },
                after,
            )
        } else {
            (next, registry)
        }
    }

    /// What is worth telling of the message that the word `x` completes, if it
    /// completes one.
    pub open spec fn note(self, registry: RegistryModel, x: Seq<u8>) -> Option<Note> {
        let next = self.stored(x);
        if next.complete() {
            remark(self.role, registry, next.buf)
        } else {
            None
        }
    }

    /// Whether the handler can take the word `x`: there is room for it, and the
    /// message that it completes, if it completes one, can be judged. If
    /// `strict`, a header that `x` completes must tell a size that holds the
    /// header itself.
    pub open spec fn takes(self, registry: RegistryModel, x: Seq<u8>, strict: bool) -> bool {
        let next = self.stored(x);
        &&& self.ptr + x.len() <= BUF_LEN
        &&& strict && self.state is Header && next.state is Body ==> next.len >= HEADER_LEN
        &&& next.complete() ==> judgeable(self.role, registry, next.buf, strict)
    }
}

impl View for WLMessageHandler {
    type V = HandlerModel;

    closed spec fn view(&self) -> HandlerModel {
        HandlerModel {
            role: self.role,
            ptr: self.ptr as int,
            len: self.len as int,
            state: self.state,
            buf: self.buf@,
            output: self.output@.map_values(|message: Vec<u8>| message@),
        }
    }
}

impl WLMessageHandler {
    /// A handler to which no word has come.
    pub fn new(role: HandlerRole) -> (handler: Self)
        ensures
            handler@ == HandlerModel::initial(role),
            handler@.wf(),
    {
        let handler = Self {
            role,
            ptr: 0,
            len: HEADER_LEN,
            state: HandlerState::Header,
            buf: [0; BUF_LEN],
            output: VecDeque::new(),
        };
        proof {
            let initial = HandlerModel::initial(role);
            assert(handler@.buf =~= initial.buf);
            assert(handler@.output =~= initial.output);
        }
        handler
    }

    /// Takes a message header apart: the object id, the size and the opcode.
    pub fn parse_header(x: [u8; 8]) -> (header: (u32, u32, u32))
        ensures
            header == (
                message::object_id(x@),
                message::msg_size(x@),
                message::opcode(x@),
            ),
            header.1 < 0x1_0000,
            header.2 < 0x1_0000,
    {
        read_header(x.as_slice())
    }

    /// Writes `x` over the four bytes of the buffer from index `at` on.
    fn put_word(&mut self, at: usize, x: [u8; 4])
        requires
            at + 4 <= BUF_LEN,
        ensures
            final(self)@ == (HandlerModel {
                buf: bytes::overwrite(old(self)@.buf, at as int, x@),
                ..old(self)@
            }),
    {
        self.buf[at] = x[0];
        self.buf[at + 1] = x[1];
        self.buf[at + 2] = x[2];
        self.buf[at + 3] = x[3];
        proof {
            assert(self@.buf =~= bytes::overwrite(old(self)@.buf, at as int, x@));
        }
    }

    /// Writes `new_size` into the header of the message in the buffer. The
    /// header has room for its lower sixteen bits.
    pub fn set_size(&mut self, new_size: u32)
        ensures
            final(self)@ == (HandlerModel { buf: final(self)@.buf, ..old(self)@ }),
            final(self)@.buf.len() == old(self)@.buf.len(),
            message::object_id(final(self)@.buf) == message::object_id(
                old(self)@.buf,
            ),
            message::msg_size(final(self)@.buf) == new_size % 0x1_0000,
            message::opcode(final(self)@.buf) == message::opcode(old(self)@.buf),
            final(self)@.buf.skip(HEADER_LEN as int) == old(self)@.buf.skip(HEADER_LEN as int),
            old(self)@.wf() ==> final(self)@.wf(),
    {
        let (object_id, _size, opcode) = read_header(self.buf.as_slice());
        let metadata = new_size << 16 | opcode;
        assert(metadata / 0x1_0000 == new_size % 0x1_0000 && metadata % 0x1_0000 == opcode)
            by (bit_vector)
            requires
                metadata == new_size << 16 | opcode,
                opcode < 0x1_0000,
        ;
        self.put_word(0, word_to_ne_bytes(object_id));
        self.put_word(4, word_to_ne_bytes(metadata));
        proof {
            assert(self@.buf.skip(HEADER_LEN as int) =~= old(self)@.buf.skip(HEADER_LEN as int));
        }
    }

    /// Judges the complete message in the buffer, and records in the registry
    /// what it tells. The result is whether the message is passed on, and what is
    /// worth telling of it; there is none where the message cannot be judged.
    fn judge_message(&self, registry: &mut WLObjectRegistry, strict: bool) -> (judged: Option<
        (bool, Option<Note>),
    >)
        ensures
            judged is Some <==> judgeable(self@.role, old(registry)@, self@.buf, strict),
            judged matches Some((pass, note)) ==> {
                &&& (final(registry)@, pass) == judge(self@.role, old(registry)@, self@.buf)
                &&& note == remark(self@.role, old(registry)@, self@.buf)
            },
            judged is None ==> final(registry)@ == old(registry)@,
    {
        let m = self.buf.as_slice();
        match self.role {
            HandlerRole::OutBound => match read_request(registry, m) {
                Some(request) => {
                    if strict && !check_request_size(request, m) {
                        return None;
                    }
                    let note = registry.note_request(request);
                    Some((true, note))
                },
                None => None,
            },
            HandlerRole::InBound => match read_event(registry, m) {
                Some(event) => {
                    if strict && !check_event_size(event, m) {
                        return None;
                    }
                    let pass = registry.note_event(event);
                    Some((pass, event.note()))
                },
                None => None,
            },
        }
    }

    /// Takes the next word, if it can be taken. A word that cannot be taken
    /// changes nothing.
    pub fn try_append_word(
        &mut self,
        registry: &mut WLObjectRegistry,
        x: [u8; 4],
        strict: bool,
    ) -> (appended: Appended)
        requires
            old(self)@.wf(),
        ensures
            appended is Taken <==> old(self)@.takes(old(registry)@, x@, strict),
            appended matches Appended::Taken { note } ==> {
                &&& note == old(self)@.note(old(registry)@, x@)
                &&& (final(self)@, final(registry)@) == old(self)@.append(old(registry)@, x@)
            },
            appended is Refused ==> final(self)@ == old(self)@ && final(registry)@ == old(
                registry,
            )@,
            final(self)@.wf(),
    {
        let ptr = self.ptr;
        if ptr > BUF_LEN - 4 {
            return Appended::Refused;
        }
        let before: [u8; 4] = [
            self.buf[ptr],
            self.buf[ptr + 1],
            self.buf[ptr + 2],
            self.buf[ptr + 3],
        ];
        let ghost next = self@.stored(x@);
        self.put_word(ptr, x);
        let mut len = self.len;
        let mut in_body = matches!(self.state, HandlerState::Body);
        let mut fits = true;
        if !in_body && ptr + 4 == len {
            let (_object_id, size, _opcode) = read_header(self.buf.as_slice());
            fits = !strict || size >= 8;
            len = size as usize;
            in_body = true;
        }
        let mut judged = Some((true, None));
        if fits && in_body && ptr + 4 == len {
            judged = self.judge_message(registry, strict);
        }
        match judged {
            Some((pass, note)) if fits => {
                if in_body && ptr + 4 == len {
                    if pass {
                        let message = vstd::slice::slice_to_vec(&self.buf.as_slice()[0..len]);
                        let ghost output = self@.output;
                        self.output.push_back(message);
                        proof {
                            assert(message@ =~= next.buf.take(next.len));
                            assert(self@.output =~= output.push(message@));
                        }
                    }
                    self.ptr = 0;
                    self.len = HEADER_LEN;
                    self.state = HandlerState::Header;
                } else {
                    self.ptr = ptr + 4;
                    self.len = len;
                    self.state = if in_body {
                        HandlerState::Body
                    } else {
                        HandlerState::Header
                    };
                }
                Appended::Taken { note }
            },
            _ => {
                self.put_word(ptr, before);
                proof {
                    assert(self@.buf =~= old(self)@.buf);
                }
                Appended::Refused
            },
        }
    }

    /// Takes the next word, and says what is worth telling of the message that
    /// it completes, if it completes one.
    pub fn append_word(&mut self, registry: &mut WLObjectRegistry, x: [u8; 4]) -> (note: Option<
        Note,
    >)
        requires
            old(self)@.wf(),
            old(self)@.takes(old(registry)@, x@, false),
        ensures
            note == old(self)@.note(old(registry)@, x@),
            (final(self)@, final(registry)@) == old(self)@.append(old(registry)@, x@),
            final(self)@.wf(),
    {
        match self.try_append_word(registry, x, false) {
            Appended::Taken { note } => note,
            Appended::Refused => None,
        }
    }

    /// Gives out the oldest message that is to be passed on.
    pub fn pop(&mut self) -> (message: Option<Vec<u8>>)
        ensures
            message is Some <==> old(self)@.output.len() > 0,
            message matches Some(m) ==> {
                &&& m@ == old(self)@.output[0]
                &&& final(self)@ == (HandlerModel {
                    output: old(self)@.output.skip(1),
                    ..old(self)@
                })
            },
            message is None ==> final(self)@ == old(self)@,
            old(self)@.wf() ==> final(self)@.wf(),
    {
        let message = self.output.pop_front();
        proof {
            if message is Some {
                assert(self@.output =~= old(self)@.output.skip(1));
            }
        }
        message
    }
}

} // verus!
