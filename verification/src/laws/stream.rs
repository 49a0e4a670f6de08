//! How a stream of bytes is cut into messages and put together again.

use vstd::prelude::*;

#[allow(unused_imports)]
use crate::{bytes, forward, handler, message};
#[allow(unused_imports)]
use crate::handler::{HandlerModel, HandlerRole, HandlerState};
#[allow(unused_imports)]
use crate::message::{BUF_LEN, HEADER_LEN};
#[allow(unused_imports)]
use crate::registry::{RegistryModel, Request};

verus! {

/// The bytes that a handler has of the current message.
pub open spec fn pending(handler: HandlerModel) -> Seq<u8> {
    handler.buf.take(handler.ptr)
}

/// What an outbound handler has given out and still holds is, byte for byte, what
/// it has been fed: nothing is lost, changed or moved. Of a part of a word at the
/// end nothing is taken.
pub proof fn law_outbound_is_byte_for_byte(
    handler: HandlerModel,
    registry: RegistryModel,
    bytes: Seq<u8>,
    strict: bool,
)
    requires
        handler.wf(),
        handler.role is OutBound,
        forward::feed(handler, registry, bytes, strict).2,
    ensures
        ({
            let after = forward::feed(handler, registry, bytes, strict).0;
            after.output.flatten() + pending(after) == handler.output.flatten() + pending(handler)
                + bytes.take((bytes.len() / 4 * 4) as int)
        }),
    decreases bytes.len(),
{
    let sent = handler.output.flatten() + pending(handler);
    if bytes.len() < 4 {
        assert(sent + bytes.take(0) =~= sent);
    } else {
        let x = bytes.take(4);
        let (next, registry_next) = handler.append(registry, x);
        lemma_append_keeps_wf(handler, registry, x);
        lemma_outbound_word(handler, registry, x);
        law_outbound_is_byte_for_byte(next, registry_next, bytes.skip(4), strict);
        lemma_take_words(sent, bytes);
    }
}

/// The whole words of `bytes` are its first word and the whole words of the rest.
proof fn lemma_take_words(sent: Seq<u8>, bytes: Seq<u8>)
    requires
        bytes.len() >= 4,
    ensures
        sent + bytes.take(4) + bytes.skip(4).take((bytes.skip(4).len() / 4 * 4) as int) == sent
            + bytes.take((bytes.len() / 4 * 4) as int),
{
    let rest = bytes.skip(4);
    let n = (rest.len() / 4 * 4) as int;
    assert(sent + bytes.take(4) + rest.take(n) =~= sent + bytes.take(n + 4));
}

/// An outbound handler gives out or holds each word that it is fed.
proof fn lemma_outbound_word(handler: HandlerModel, registry: RegistryModel, x: Seq<u8>)
    requires
        handler.wf(),
        handler.role is OutBound,
        x.len() == 4,
        handler.ptr + 4 <= BUF_LEN,
    ensures
        ({
            let next = handler.append(registry, x).0;
            &&& next.role is OutBound
            &&& next.output.flatten() + pending(next) == handler.output.flatten() + pending(handler)
                + x
        }),
{
    let stored = handler.stored(x);
    let next = handler.append(registry, x).0;
    let sent = handler.output.flatten();
    assert(stored.buf.take(stored.ptr) =~= pending(handler) + x);
    assert(sent + (pending(handler) + x) =~= sent + pending(handler) + x);
    if stored.complete() {
        handler.output.lemma_flatten_push(stored.buf.take(stored.len));
        assert(sent + stored.buf.take(stored.len) + pending(next) =~= sent + stored.buf.take(
            stored.len,
        ));
    }
}

/// A word keeps a handler well formed.
pub(crate) proof fn lemma_append_keeps_wf(handler: HandlerModel, registry: RegistryModel, x: Seq<u8>)
    requires
        handler.wf(),
        x.len() == 4,
        handler.ptr + 4 <= BUF_LEN,
    ensures
        handler.append(registry, x).0.wf(),
{
    let stored = handler.stored(x);
    let metadata = bytes::word_at(stored.buf, 4);
    assert(metadata / 0x1_0000 < 0x1_0000) by (bit_vector);
}

/// Words keep a handler well formed, and its role.
pub(crate) proof fn lemma_feed_keeps_wf(
    handler: HandlerModel,
    registry: RegistryModel,
    bytes: Seq<u8>,
    strict: bool,
)
    requires
        handler.wf(),
    ensures
        forward::feed(handler, registry, bytes, strict).0.wf(),
        forward::feed(handler, registry, bytes, strict).0.role == handler.role,
    decreases bytes.len(),
{
    if bytes.len() >= 4 && handler.takes(registry, bytes.take(4), strict) {
        lemma_append_keeps_wf(handler, registry, bytes.take(4));
        let (next, registry_next) = handler.append(registry, bytes.take(4));
        lemma_feed_keeps_wf(next, registry_next, bytes.skip(4), strict);
    }
}

/// The messages that a handler still holds for others to take do not matter for
/// what it does with further words: it adds to them.
pub proof fn law_output_is_only_added_to(
    handler: HandlerModel,
    registry: RegistryModel,
    bytes: Seq<u8>,
    strict: bool,
)
    ensures
        ({
            let empty = HandlerModel { output: Seq::empty(), ..handler };
            let (after, registry_after, taken) = forward::feed(empty, registry, bytes, strict);
            forward::feed(handler, registry, bytes, strict) == (
                HandlerModel { output: handler.output + after.output, ..after },
                registry_after,
                taken,
            )
        }),
{
    let empty = HandlerModel { output: Seq::empty(), ..handler };
    assert(handler.output + empty.output =~= handler.output);
    lemma_output_prefix(empty, handler.output, registry, bytes, strict);
}

/// Messages in front of the output stay in front of it.
proof fn lemma_output_prefix(
    handler: HandlerModel,
    prefix: Seq<Seq<u8>>,
    registry: RegistryModel,
    bytes: Seq<u8>,
    strict: bool,
)
    ensures
        ({
            let (after, registry_after, taken) = forward::feed(handler, registry, bytes, strict);
            forward::feed(
                HandlerModel { output: prefix + handler.output, ..handler },
                registry,
                bytes,
                strict,
            ) == (
                HandlerModel { output: prefix + after.output, ..after },
                registry_after,
                taken,
            )
        }),
    decreases bytes.len(),
{
    if bytes.len() >= 4 {
        let x = bytes.take(4);
        lemma_word_output_prefix(handler, prefix, registry, x, strict);
        if handler.takes(registry, x, strict) {
            let (next, registry_next) = handler.append(registry, x);
            lemma_output_prefix(next, prefix, registry_next, bytes.skip(4), strict);
        }
    }
}

/// Messages in front of the output stay in front of it when a word comes.
proof fn lemma_word_output_prefix(
    handler: HandlerModel,
    prefix: Seq<Seq<u8>>,
    registry: RegistryModel,
    x: Seq<u8>,
    strict: bool,
)
    ensures
        ({
            let longer = HandlerModel { output: prefix + handler.output, ..handler };
            let (next, registry_next) = handler.append(registry, x);
            &&& longer.takes(registry, x, strict) == handler.takes(registry, x, strict)
            &&& longer.append(registry, x) == (
                HandlerModel { output: prefix + next.output, ..next },
                registry_next,
            )
        }),
{
    let stored = handler.stored(x);
    let message = stored.buf.take(stored.len);
    assert((prefix + handler.output).push(message) =~= prefix + handler.output.push(message));
}

/// How the stream is cut where it is received does not matter, as long as it is
/// cut between words: feeding `a` and then `b` is feeding both at once.
pub proof fn law_cuts_do_not_matter(
    handler: HandlerModel,
    registry: RegistryModel,
    a: Seq<u8>,
    b: Seq<u8>,
    strict: bool,
)
    requires
        a.len() % 4 == 0,
    ensures
        ({
            let (handler_a, registry_a, taken_a) = forward::feed(handler, registry, a, strict);
            forward::feed(handler, registry, a + b, strict) == if taken_a {
                forward::feed(handler_a, registry_a, b, strict)
            } else {
                (handler_a, registry_a, false)
            }
        }),
    decreases a.len(),
{
    if a.len() == 0 {
        assert(a + b =~= b);
    } else {
        assert((a + b).take(4) =~= a.take(4));
        assert((a + b).skip(4) =~= a.skip(4) + b);
        if handler.takes(registry, a.take(4), strict) {
            let (next, registry_next) = handler.append(registry, a.take(4));
            law_cuts_do_not_matter(next, registry_next, a.skip(4), b, strict);
        }
    }
}

/// Whether `m` is a message on the wire: whole words, the header among them, and
/// as many bytes as the header tells.
pub open spec fn is_message(m: Seq<u8>) -> bool {
    &&& m.len() >= HEADER_LEN
    &&& m.len() % 4 == 0
    &&& m.len() == message::msg_size(m)
}

/// A buffer that held `buf`, after the message `m` was stored in it.
pub open spec fn buffer_with(buf: Seq<u8>, m: Seq<u8>) -> Seq<u8> {
    m + buf.skip(m.len() as int)
}

/// Whether a handler is at the same place of the message `m` as its buffer is.
spec fn is_within(handler: HandlerModel, m: Seq<u8>) -> bool {
    &&& handler.wf()
    &&& handler.ptr < m.len()
    &&& handler.state is Body ==> handler.len == m.len()
    &&& handler.buf.take(handler.ptr) == m.take(handler.ptr)
}

/// What the rest of a message does, once a handler has its first words.
proof fn lemma_rest_of_message(
    handler: HandlerModel,
    registry: RegistryModel,
    m: Seq<u8>,
    strict: bool,
)
    requires
        is_message(m),
        is_within(handler, m),
    ensures
        ({
            let buf = buffer_with(handler.buf, m);
            let (after, pass) = handler::judge(handler.role, registry, buf);
            let fed = forward::feed(handler, registry, m.skip(handler.ptr), strict);
            &&& fed.2 == handler::judgeable(handler.role, registry, buf, strict)
            &&& fed.2 ==> fed.1 == after && fed.0 == (HandlerModel {
                ptr: 0,
                len: HEADER_LEN as int,
                state: HandlerState::Header,
                buf,
                output: if pass {
                    handler.output.push(m)
                } else {
                    handler.output
                },
                ..handler
            })
        }),
    decreases m.len() - handler.ptr,
{
    let rest = m.skip(handler.ptr);
    let x = rest.take(4);
    lemma_message_fits(m);
    lemma_word_of_message(handler, m);
    lemma_stored_buffer(handler, m);
    if handler.ptr + 4 == m.len() {
        lemma_last_word(handler, registry, x, strict);
        assert(forward::feed(handler, registry, rest, strict) == forward::feed(
            handler,
            registry,
            x,
            strict,
        ));
    } else {
        lemma_inner_word(handler, registry, rest, strict);
        lemma_rest_of_message(handler.stored(x), registry, m, strict);
    }
}

/// The word that completes a message has it judged.
proof fn lemma_last_word(handler: HandlerModel, registry: RegistryModel, x: Seq<u8>, strict: bool)
    requires
        x.len() == 4,
        handler.ptr + 4 <= BUF_LEN,
        handler.stored(x).complete(),
        handler.stored(x).len >= HEADER_LEN,
    ensures
        ({
            let stored = handler.stored(x);
            let (after, pass) = handler::judge(handler.role, registry, stored.buf);
            let fed = forward::feed(handler, registry, x, strict);
            &&& fed.2 == handler::judgeable(handler.role, registry, stored.buf, strict)
            &&& fed.2 ==> fed.1 == after && fed.0 == (HandlerModel {
                ptr: 0,
                len: HEADER_LEN as int,
                state: HandlerState::Header,
                buf: stored.buf,
                output: if pass {
                    handler.output.push(stored.buf.take(stored.len))
                } else {
                    handler.output
                },
                ..handler
            })
        }),
{
    assert(x.take(4) =~= x);
    let (next, registry_next) = handler.append(registry, x);
    assert(x.skip(4).len() == 0);
    assert(forward::feed(next, registry_next, x.skip(4), strict) == (next, registry_next, true));
}

/// A word that does not complete a message is stored.
proof fn lemma_inner_word(
    handler: HandlerModel,
    registry: RegistryModel,
    bytes: Seq<u8>,
    strict: bool,
)
    requires
        bytes.len() >= 4,
        handler.wf(),
        handler.ptr + 4 <= BUF_LEN,
        !handler.stored(bytes.take(4)).complete(),
        handler.stored(bytes.take(4)).len >= HEADER_LEN,
    ensures
        handler.stored(bytes.take(4)).wf(),
        forward::feed(handler, registry, bytes, strict) == forward::feed(
            handler.stored(bytes.take(4)),
            registry,
            bytes.skip(4),
            strict,
        ),
{
    lemma_append_keeps_wf(handler, registry, bytes.take(4));
}

/// How the buffer of a handler changes with the next word of a message.
proof fn lemma_stored_buffer(handler: HandlerModel, m: Seq<u8>)
    requires
        is_within(handler, m),
        handler.ptr + 4 <= m.len() <= BUF_LEN,
    ensures
        ({
            let rest = m.skip(handler.ptr);
            let stored = handler.stored(rest.take(4));
            let buf = buffer_with(handler.buf, m);
            &&& buffer_with(stored.buf, m) == buf
            &&& buf.take(m.len() as int) == m
            &&& handler.ptr + 4 == m.len() ==> stored.buf == buf && rest == rest.take(4)
            &&& rest.skip(4) == m.skip(handler.ptr + 4)
        }),
{
    let rest = m.skip(handler.ptr);
    let stored = handler.stored(rest.take(4));
    let buf = buffer_with(handler.buf, m);
    assert(buffer_with(stored.buf, m) =~= buf);
    assert(buf.take(m.len() as int) =~= m);
    assert(rest.skip(4) =~= m.skip(handler.ptr + 4));
    if handler.ptr + 4 == m.len() {
        assert(rest =~= rest.take(4));
        assert forall|i: int| 0 <= i < BUF_LEN implies stored.buf[i] == buf[i] by {
            if i < handler.ptr {
                assert(handler.buf.take(handler.ptr)[i] == m.take(handler.ptr)[i]);
            }
        }
        assert(stored.buf =~= buf);
    }
}

/// A message is smaller than the buffer.
proof fn lemma_message_fits(m: Seq<u8>)
    requires
        is_message(m),
    ensures
        m.len() < 0x1_0000,
{
    let metadata = bytes::word_at(m, 4);
    assert(metadata / 0x1_0000 < 0x1_0000) by (bit_vector);
}

/// The next word of a message takes a handler to the next place of the message,
/// or completes the message.
proof fn lemma_word_of_message(handler: HandlerModel, m: Seq<u8>)
    requires
        is_message(m),
        m.len() < 0x1_0000,
        is_within(handler, m),
    ensures
        ({
            let x = m.skip(handler.ptr).take(4);
            let stored = handler.stored(x);
            &&& x.len() == 4
            &&& handler.ptr + 4 <= m.len()
            &&& stored.ptr == handler.ptr + 4
            &&& stored.buf.take(stored.ptr) == m.take(stored.ptr)
            &&& stored.state is Body ==> stored.len == m.len()
            &&& stored.complete() <==> stored.ptr == m.len()
        }),
{
    let ptr = handler.ptr;
    let x = m.skip(ptr).take(4);
    let stored = handler.stored(x);
    assert(stored.buf.take(ptr + 4) =~= handler.buf.take(ptr) + x);
    assert(m.take(ptr + 4) =~= m.take(ptr) + x);
    if handler.state is Header && ptr + 4 == HEADER_LEN {
        assert(stored.buf.take(8)[4] == m.take(8)[4]);
        assert(stored.buf.take(8)[5] == m.take(8)[5]);
        assert(stored.buf.take(8)[6] == m.take(8)[6]);
        assert(stored.buf.take(8)[7] == m.take(8)[7]);
        assert(message::msg_size(stored.buf) == message::msg_size(m));
    }
}

/// A handler between two messages takes a message if and only if it can be
/// judged, judges it once, and is between two messages again; the message is given
/// out as it came, unless it is blocked.
pub proof fn law_message_is_judged_once(
    handler: HandlerModel,
    registry: RegistryModel,
    m: Seq<u8>,
    strict: bool,
)
    requires
        handler.wf(),
        handler.ptr == 0,
        is_message(m),
    ensures
        ({
            let buf = buffer_with(handler.buf, m);
            let (after, pass) = handler::judge(handler.role, registry, buf);
            let fed = forward::feed(handler, registry, m, strict);
            &&& fed.2 == handler::judgeable(handler.role, registry, buf, strict)
            &&& fed.2 ==> fed.1 == after && fed.0 == (HandlerModel {
                buf,
                output: if pass {
                    handler.output.push(m)
                } else {
                    handler.output
                },
                ..handler
            })
        }),
{
    assert(handler.buf.take(0) =~= m.take(0));
    assert(m.skip(0) =~= m);
    lemma_rest_of_message(handler, registry, m, strict);
}

/// What has become of a handler and the registry after some messages.
pub struct Relayed {
    pub registry: RegistryModel,
    pub buf: Seq<u8>,
    /// Those of the messages that are passed on.
    pub passed: Seq<Seq<u8>>,
}

/// What the messages `messages` do, one after the other, to a handler between two
/// messages whose buffer holds `buf`. There is no result if one of them cannot be
/// judged.
pub open spec fn relay(
    role: HandlerRole,
    registry: RegistryModel,
    buf: Seq<u8>,
    messages: Seq<Seq<u8>>,
    strict: bool,
) -> Option<Relayed>
    decreases messages.len(),
{
    if messages.len() == 0 {
        Some(Relayed { registry, buf, passed: Seq::empty() })
    } else {
        let m = messages.first();
        let with_m = buffer_with(buf, m);
        if !handler::judgeable(role, registry, with_m, strict) {
            None
        } else {
            let (after, pass) = handler::judge(role, registry, with_m);
            match relay(role, after, with_m, messages.drop_first(), strict) {
                Some(rest) => Some(
                    Relayed {
                        passed: if pass {
                            seq![m] + rest.passed
                        } else {
                            rest.passed
                        },
                        ..rest
                    },
                ),
                None => None,
            }
        }
    }
}

/// A handler that is fed any number of messages judges them in order, and gives
/// out those that are passed on, each as it came, in the order in which they came.
pub proof fn law_messages_keep_their_order(
    handler: HandlerModel,
    registry: RegistryModel,
    messages: Seq<Seq<u8>>,
    strict: bool,
)
    requires
        handler.wf(),
        handler.ptr == 0,
        forall|i: int| 0 <= i < messages.len() ==> is_message(#[trigger] messages[i]),
    ensures
        ({
            let fed = forward::feed(handler, registry, messages.flatten(), strict);
            match relay(handler.role, registry, handler.buf, messages, strict) {
                Some(r) => fed == (
                    HandlerModel { buf: r.buf, output: handler.output + r.passed, ..handler },
                    r.registry,
                    true,
                ),
                None => !fed.2,
            }
        }),
    decreases messages.len(),
{
    if messages.len() == 0 {
        assert(handler.output + Seq::<Seq<u8>>::empty() =~= handler.output);
    } else {
        let m = messages.first();
        let rest = messages.drop_first();
        assert(is_message(messages[0]));
        assert forall|i: int| 0 <= i < rest.len() implies is_message(#[trigger] rest[i]) by {
            assert(is_message(messages[i + 1]));
        }
        let (next, registry_next, taken) = forward::feed(handler, registry, m, strict);
        law_message_is_judged_once(handler, registry, m, strict);
        law_cuts_do_not_matter(handler, registry, m, rest.flatten(), strict);
        if taken {
            lemma_message_fits(m);
            law_messages_keep_their_order(next, registry_next, rest, strict);
            if let Some(r) = relay(next.role, registry_next, next.buf, rest, strict) {
                lemma_outputs(handler.output, m, r.passed);
            }
        }
    }
}

/// One more message at the end of the output, and others behind it.
proof fn lemma_outputs(output: Seq<Seq<u8>>, m: Seq<u8>, passed: Seq<Seq<u8>>)
    ensures
        output.push(m) + passed == output + (seq![m] + passed),
{
    assert(output.push(m) + passed =~= output + (seq![m] + passed));
}

/// Each message that is passed on was among those that came, so nothing is ever
/// made up.
pub proof fn law_nothing_is_made_up(
    role: HandlerRole,
    registry: RegistryModel,
    buf: Seq<u8>,
    messages: Seq<Seq<u8>>,
    strict: bool,
    i: int,
)
    requires
        relay(role, registry, buf, messages, strict) matches Some(r) && 0 <= i
            < r.passed.len(),
    ensures
        messages.contains(relay(role, registry, buf, messages, strict).unwrap().passed[i]),
    decreases messages.len(),
{
    let m = messages.first();
    let with_m = buffer_with(buf, m);
    let (after, pass) = handler::judge(role, registry, with_m);
    let passed = relay(role, after, with_m, messages.drop_first(), strict).unwrap().passed;
    if pass && i == 0 {
        assert(messages[0] == m);
    } else {
        let j = if pass {
            i - 1
        } else {
            i
        };
        law_nothing_is_made_up(role, after, with_m, messages.drop_first(), strict, j);
        let k = choose|k: int|
            0 <= k < messages.drop_first().len() && messages.drop_first()[k] == passed[j];
        assert(messages[k + 1] == passed[j]);
    }
}

/// A client's messages are all passed on.
pub proof fn law_outbound_messages_all_pass(
    registry: RegistryModel,
    buf: Seq<u8>,
    messages: Seq<Seq<u8>>,
    strict: bool,
)
    requires
        relay(HandlerRole::OutBound, registry, buf, messages, strict) is Some,
    ensures
        relay(HandlerRole::OutBound, registry, buf, messages, strict).unwrap().passed == messages,
    decreases messages.len(),
{
    if messages.len() > 0 {
        let m = messages.first();
        let with_m = buffer_with(buf, m);
        let after = handler::judge(HandlerRole::OutBound, registry, with_m).0;
        law_outbound_messages_all_pass(after, with_m, messages.drop_first(), strict);
        assert(seq![m] + messages.drop_first() =~= messages);
    }
}

/// Whether the client's request in `m` reads the word behind the header.
pub open spec fn reads_id(registry: RegistryModel, m: Seq<u8>) -> bool {
    let request = message::request_of(registry, m);
    !(request is Other) && !(request is Bind)
}

/// What is decided about a message depends on the bytes of that message alone, not
/// on what the buffer holds behind it. A request that makes an object must be long
/// enough to hold its id.
pub proof fn law_messages_are_judged_by_their_bytes(
    role: HandlerRole,
    registry: RegistryModel,
    m1: Seq<u8>,
    m2: Seq<u8>,
    strict: bool,
)
    requires
        m1.len() == BUF_LEN,
        m2.len() == BUF_LEN,
        message::msg_size(m1) >= HEADER_LEN,
        m1.take(message::msg_size(m1) as int) == m2.take(message::msg_size(m1) as int),
        role is OutBound && reads_id(registry, m1) ==> message::msg_size(m1) >= 12,
    ensures
        handler::judgeable(role, registry, m1, strict) == handler::judgeable(
            role,
            registry,
            m2,
            strict,
        ),
        handler::judgeable(role, registry, m1, strict) ==> handler::judge(role, registry, m1)
            == handler::judge(role, registry, m2),
{
    let n = message::msg_size(m1) as int;
    lemma_same_words(m1, m2, n, 0);
    lemma_same_words(m1, m2, n, 4);
    assert(message::msg_size(m1) == message::msg_size(m2));
    if n >= 12 {
        lemma_same_words(m1, m2, n, 8);
    }
    if n >= 20 {
        lemma_same_words(m1, m2, n, 16);
    }
    lemma_same_name(m1, m2, n, 4);
    lemma_same_name(m1, m2, n, 8);
    if message::has_name(m1, 8) {
        lemma_same_words(m1, m2, n, 20 + message::name_len(m1));
    }
    lemma_same_activation(m1, m2, n);
    lemma_same_activation(m2, m1, n);
}

/// Words within equal prefixes are equal.
proof fn lemma_same_words(m1: Seq<u8>, m2: Seq<u8>, n: int, i: int)
    requires
        0 <= i,
        i + 4 <= n <= m1.len(),
        n <= m2.len(),
        m1.take(n) == m2.take(n),
    ensures
        bytes::word_at(m1, i) == bytes::word_at(m2, i),
{
    assert forall|j: int| 0 <= j < n implies m1[j] == m2[j] by {
        assert(m1.take(n)[j] == m1[j]);
        assert(m2.take(n)[j] == m2[j]);
    }
}

/// Equal messages have equal string arguments.
proof fn lemma_same_name(m1: Seq<u8>, m2: Seq<u8>, n: int, tail: int)
    requires
        n == message::msg_size(m1) == message::msg_size(m2),
        n <= m1.len(),
        n <= m2.len(),
        m1.take(n) == m2.take(n),
        tail >= 0,
    ensures
        message::has_name(m1, tail) == message::has_name(m2, tail),
        message::has_name(m1, tail) ==> {
            &&& message::name_len(m1) == message::name_len(m2)
            &&& message::name_field(m1) == message::name_field(m2)
        },
{
    if n >= 16 {
        lemma_same_words(m1, m2, n, 12);
        let len = message::name_len(m1);
        if n == 16 + len + tail {
            assert(m1.take(n).subrange(16, 16 + len) =~= message::name_field(m1));
            assert(m2.take(n).subrange(16, 16 + len) =~= message::name_field(m2));
        }
    }
}

/// Equal configure events name the window as activated alike.
proof fn lemma_same_activation(m1: Seq<u8>, m2: Seq<u8>, n: int)
    requires
        n == message::msg_size(m1) == message::msg_size(m2),
        n <= m1.len(),
        n <= m2.len(),
        m1.take(n) == m2.take(n),
    ensures
        message::is_activated(m1) ==> message::is_activated(m2),
{
    if message::is_activated(m1) {
        let i = choose|i: int|
            0 <= i && 24 + 4 * i <= n && #[trigger] message::window_state(m1, i)
                == message::STATE_ACTIVATED;
        lemma_same_words(m1, m2, n, 20 + 4 * i);
        assert(message::window_state(m2, i) == message::STATE_ACTIVATED);
    }
}

/// The object id, the size and the opcode determine the bytes of a header. So once
/// the size that a header had before is written back into it, the buffer is what it
/// was.
pub proof fn law_header_is_its_fields(m1: Seq<u8>, m2: Seq<u8>)
    requires
        m1.len() >= HEADER_LEN,
        m2.len() >= HEADER_LEN,
        message::object_id(m1) == message::object_id(m2),
        message::msg_size(m1) == message::msg_size(m2),
        message::opcode(m1) == message::opcode(m2),
    ensures
        m1.take(HEADER_LEN as int) == m2.take(HEADER_LEN as int),
        m1.skip(HEADER_LEN as int) == m2.skip(HEADER_LEN as int) ==> m1 == m2,
{
    let (w1, w2) = (bytes::word_at(m1, 4), bytes::word_at(m2, 4));
    assert(w1 == w2) by (bit_vector)
        requires
            w1 / 0x1_0000 == w2 / 0x1_0000,
            w1 % 0x1_0000 == w2 % 0x1_0000,
    ;
    lemma_word_is_its_bytes(m1, m2, 0);
    lemma_word_is_its_bytes(m1, m2, 4);
    assert(m1.take(HEADER_LEN as int) =~= m2.take(HEADER_LEN as int));
    assert(m1.take(HEADER_LEN as int) + m1.skip(HEADER_LEN as int) =~= m1);
    assert(m2.take(HEADER_LEN as int) + m2.skip(HEADER_LEN as int) =~= m2);
}

/// Equal words have equal bytes.
proof fn lemma_word_is_its_bytes(m1: Seq<u8>, m2: Seq<u8>, i: int)
    requires
        bytes::word_at(m1, i) == bytes::word_at(m2, i),
    ensures
        m1[i] == m2[i],
        m1[i + 1] == m2[i + 1],
        m1[i + 2] == m2[i + 2],
        m1[i + 3] == m2[i + 3],
{
    let (a1, b1, c1, d1) = (m1[i], m1[i + 1], m1[i + 2], m1[i + 3]);
    let (a2, b2, c2, d2) = (m2[i], m2[i + 1], m2[i + 2], m2[i + 3]);
    assert(a1 + b1 * 0x100 + c1 * 0x1_0000 + d1 * 0x100_0000 == a2 + b2 * 0x100 + c2 * 0x1_0000
        + d2 * 0x100_0000 ==> a1 == a2 && b1 == b2 && c1 == c2 && d1 == d2) by (bit_vector);
    assert(d1 + c1 * 0x100 + b1 * 0x1_0000 + a1 * 0x100_0000 == d2 + c2 * 0x100 + b2 * 0x1_0000
        + a2 * 0x100_0000 ==> a1 == a2 && b1 == b2 && c1 == c2 && d1 == d2) by (bit_vector);
}

} // verus!
