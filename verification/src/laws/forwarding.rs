//! Byte-for-byte forwarding of everything but the messages that are blocked.

use vstd::prelude::*;

#[allow(unused_imports)]
use crate::{forward, handler};
#[allow(unused_imports)]
use crate::forward::ForwarderModel;
#[allow(unused_imports)]
use crate::handler::{HandlerModel, HandlerRole, HandlerState};
#[allow(unused_imports)]
use crate::laws::stream;
#[allow(unused_imports)]
use crate::message::{BUF_LEN, HEADER_LEN};
#[allow(unused_imports)]
use crate::registry::RegistryModel;

verus! {

/// Where in the stream a handler is after the word `x`.
pub open spec fn moved(handler: HandlerModel, x: Seq<u8>) -> HandlerModel {
    let next = handler.stored(x);
    if next.complete() {
        HandlerModel { ptr: 0, len: HEADER_LEN as int, state: HandlerState::Header, ..next }
    } else {
        next
    }
}

/// Where in the stream a handler is after the whole words of `bytes`.
pub open spec fn position(handler: HandlerModel, bytes: Seq<u8>) -> HandlerModel
    decreases bytes.len(),
{
    if bytes.len() < 4 {
        handler
    } else {
        position(moved(handler, bytes.take(4)), bytes.skip(4))
    }
}

/// The messages that the whole words of `bytes` complete, in the order in which
/// they are completed. They depend on the headers in the stream alone.
pub open spec fn frames(handler: HandlerModel, bytes: Seq<u8>) -> Seq<Seq<u8>>
    decreases bytes.len(),
{
    if bytes.len() < 4 {
        Seq::empty()
    } else {
        let next = handler.stored(bytes.take(4));
        let rest = frames(moved(handler, bytes.take(4)), bytes.skip(4));
        if next.complete() {
            seq![next.buf.take(next.len)] + rest
        } else {
            rest
        }
    }
}

/// For each message that the whole words of `bytes` complete whether it is passed
/// on.
pub open spec fn verdicts(handler: HandlerModel, registry: RegistryModel, bytes: Seq<u8>) -> Seq<
    bool,
>
    decreases bytes.len(),
{
    if bytes.len() < 4 {
        Seq::empty()
    } else {
        let next = handler.stored(bytes.take(4));
        let (after, registry_after) = handler.append(registry, bytes.take(4));
        let rest = verdicts(after, registry_after, bytes.skip(4));
        if next.complete() {
            seq![handler::judge(handler.role, registry, next.buf).1] + rest
        } else {
            rest
        }
    }
}

/// Those of `messages` that have a verdict to be passed on, in their order.
pub open spec fn survivors(messages: Seq<Seq<u8>>, verdicts: Seq<bool>) -> Seq<Seq<u8>>
    decreases messages.len(),
{
    if messages.len() == 0 {
        Seq::empty()
    } else {
        let rest = survivors(messages.drop_last(), verdicts.drop_last());
        if verdicts.last() {
            rest.push(messages.last())
        } else {
            rest
        }
    }
}

/// Whether a handler has room for each of the whole words of `bytes`.
pub open spec fn has_room(handler: HandlerModel, bytes: Seq<u8>) -> bool
    decreases bytes.len(),
{
    bytes.len() < 4 || {
        &&& handler.ptr + 4 <= BUF_LEN
        &&& has_room(moved(handler, bytes.take(4)), bytes.skip(4))
    }
}

/// Cutting the stream into messages loses, changes and moves nothing: the messages
/// and the part of a message that waits for its rest are the stream.
pub proof fn law_frames_are_the_stream(handler: HandlerModel, bytes: Seq<u8>)
    requires
        handler.wf(),
        bytes.len() % 4 == 0,
        has_room(handler, bytes),
    ensures
        frames(handler, bytes).flatten() + stream::pending(position(handler, bytes))
            == stream::pending(handler) + bytes,
    decreases bytes.len(),
{
    let start = stream::pending(handler);
    if bytes.len() == 0 {
        assert(Seq::<u8>::empty() + start =~= start + bytes);
    } else {
        let x = bytes.take(4);
        let rest = bytes.skip(4);
        let later = frames(moved(handler, x), rest);
        let end = stream::pending(position(handler, bytes));
        lemma_moved(handler, x);
        law_frames_are_the_stream(moved(handler, x), rest);
        assert(x + rest =~= bytes);
        if handler.stored(x).complete() {
            lemma_flatten_first(start + x, later);
            lemma_join_complete(start, x, rest, later.flatten(), end);
        } else {
            lemma_join(start, x, rest, later.flatten(), end);
        }
    }
}

/// A word moves a handler on by its bytes, and keeps it well formed.
proof fn lemma_moved(handler: HandlerModel, x: Seq<u8>)
    requires
        handler.wf(),
        x.len() == 4,
        handler.ptr + 4 <= BUF_LEN,
    ensures
        moved(handler, x).wf(),
        handler.stored(x).complete() ==> {
            &&& stream::pending(moved(handler, x)) == Seq::<u8>::empty()
            &&& handler.stored(x).buf.take(handler.stored(x).len) == stream::pending(handler) + x
        },
        !handler.stored(x).complete() ==> stream::pending(moved(handler, x)) == stream::pending(
            handler,
        ) + x,
{
    let next = handler.stored(x);
    stream::lemma_append_keeps_wf(handler, RegistryModel::initial(), x);
    assert(next.buf.take(next.ptr) =~= stream::pending(handler) + x);
    assert(next.buf.take(0) =~= Seq::empty());
}

/// A message in front of others, as bytes.
proof fn lemma_flatten_first(m: Seq<u8>, later: Seq<Seq<u8>>)
    ensures
        (seq![m] + later).flatten() == m + later.flatten(),
{
    assert((seq![m] + later).drop_first() =~= later);
    assert((seq![m] + later).first() == m);
}

/// A word that completes no message.
proof fn lemma_join(start: Seq<u8>, x: Seq<u8>, rest: Seq<u8>, later: Seq<u8>, end: Seq<u8>)
    requires
        later + end == (start + x) + rest,
    ensures
        later + end == start + (x + rest),
{
    assert((start + x) + rest =~= start + (x + rest));
}

/// A word that completes a message.
proof fn lemma_join_complete(
    start: Seq<u8>,
    x: Seq<u8>,
    rest: Seq<u8>,
    later: Seq<u8>,
    end: Seq<u8>,
)
    requires
        later + end == Seq::<u8>::empty() + rest,
    ensures
        ((start + x) + later) + end == start + (x + rest),
{
    assert(Seq::<u8>::empty() + rest =~= rest);
    assert(((start + x) + later) + end =~= (start + x) + (later + end));
    assert((start + x) + rest =~= start + (x + rest));
}

/// What a handler does with the words that it takes: it adds to its output the
/// messages that the words complete and that have a verdict to be passed on, and
/// is where the stream takes it, whatever the registry holds.
pub proof fn law_verdicts_only_drop_messages(
    handler: HandlerModel,
    registry: RegistryModel,
    bytes: Seq<u8>,
    strict: bool,
)
    requires
        forward::feed(handler, registry, bytes, strict).2,
    ensures
        has_room(handler, bytes),
        verdicts(handler, registry, bytes).len() == frames(handler, bytes).len(),
        forward::feed(handler, registry, bytes, strict).0 == (HandlerModel {
            output: handler.output + survivors(
                frames(handler, bytes),
                verdicts(handler, registry, bytes),
            ),
            ..position(handler, bytes)
        }),
    decreases bytes.len(),
{
    if bytes.len() < 4 {
        assert(handler.output + Seq::<Seq<u8>>::empty() =~= handler.output);
    } else {
        let x = bytes.take(4);
        let rest = bytes.skip(4);
        let next = handler.stored(x);
        let m = next.buf.take(next.len);
        let pass = handler::judge(handler.role, registry, next.buf).1;
        let (after, registry_after) = handler.append(registry, x);
        law_verdicts_only_drop_messages(after, registry_after, rest, strict);
        lemma_output_is_no_position(moved(handler, x), after.output, rest);
        assert(after == (HandlerModel { output: after.output, ..moved(handler, x) }));
        let later = frames(after, rest);
        let later_verdicts = verdicts(after, registry_after, rest);
        if next.complete() {
            lemma_survivors_of_both(seq![m], seq![pass], later, later_verdicts);
            lemma_survivor(m, pass);
            let s = survivors(later, later_verdicts);
            if pass {
                assert(handler.output.push(m) + s =~= handler.output + (seq![m] + s));
            } else {
                assert(Seq::<Seq<u8>>::empty() + s =~= s);
            }
        }
    }
}

/// What a handler holds to be taken does not change where it is in the stream.
proof fn lemma_output_is_no_position(
    handler: HandlerModel,
    output: Seq<Seq<u8>>,
    bytes: Seq<u8>,
)
    ensures
        ({
            let other = HandlerModel { output, ..handler };
            &&& frames(other, bytes) == frames(handler, bytes)
            &&& has_room(other, bytes) == has_room(handler, bytes)
            &&& position(other, bytes) == (HandlerModel { output, ..position(handler, bytes) })
        }),
    decreases bytes.len(),
{
    if bytes.len() >= 4 {
        let other = HandlerModel { output, ..handler };
        let x = bytes.take(4);
        assert(moved(other, x) == (HandlerModel { output, ..moved(handler, x) }));
        lemma_output_is_no_position(moved(handler, x), output, bytes.skip(4));
    }
}

/// What survives of one message.
proof fn lemma_survivor(m: Seq<u8>, pass: bool)
    ensures
        survivors(seq![m], seq![pass]) == if pass {
            seq![m]
        } else {
            Seq::empty()
        },
{
    assert(seq![m].drop_last() =~= Seq::empty());
    assert(survivors(seq![m].drop_last(), seq![pass].drop_last()) =~= Seq::empty());
    assert(Seq::<Seq<u8>>::empty().push(m) =~= seq![m]);
}

/// What survives of some messages and of some later ones.
proof fn lemma_survivors_of_both(
    a: Seq<Seq<u8>>,
    va: Seq<bool>,
    b: Seq<Seq<u8>>,
    vb: Seq<bool>,
)
    requires
        a.len() == va.len(),
        b.len() == vb.len(),
    ensures
        survivors(a + b, va + vb) == survivors(a, va) + survivors(b, vb),
    decreases b.len(),
{
    if b.len() == 0 {
        assert(a + b =~= a);
        assert(va + vb =~= va);
        assert(survivors(a, va) + Seq::<Seq<u8>>::empty() =~= survivors(a, va));
    } else {
        lemma_survivors_of_both(a, va, b.drop_last(), vb.drop_last());
        assert((a + b).drop_last() =~= a + b.drop_last());
        assert((va + vb).drop_last() =~= va + vb.drop_last());
        let (sa, sb) = (survivors(a, va), survivors(b.drop_last(), vb.drop_last()));
        assert((sa + sb).push(b.last()) =~= sa + sb.push(b.last()));
    }
}

/// What a forwarder sends on when it receives `pieces`, one after the other: the
/// forwarder after that, the bytes that it sent, and whether it took them all. With
/// each piece stands the registry as it is when the piece is received: between two
/// pieces the other direction may change it.
pub open spec fn forwarded(
    forwarder: ForwarderModel,
    pieces: Seq<(RegistryModel, Seq<u8>)>,
) -> (ForwarderModel, Seq<u8>, bool)
    decreases pieces.len(),
{
    if pieces.len() == 0 {
        (forwarder, Seq::empty(), true)
    } else {
        let (before, sent, all) = forwarded(forwarder, pieces.drop_last());
        let (registry, piece) = pieces.last();
        let (after, _, taken) = before.received(registry, piece);
        (after.drained(), sent + after.handler.output.flatten(), all && taken)
    }
}

/// The bytes of `pieces`, one after the other.
pub open spec fn received_bytes(pieces: Seq<(RegistryModel, Seq<u8>)>) -> Seq<u8>
    decreases pieces.len(),
{
    if pieces.len() == 0 {
        Seq::empty()
    } else {
        received_bytes(pieces.drop_last()) + pieces.last().1
    }
}

/// From the client to the compositor the relay forwards byte for byte: whatever
/// the other direction does meanwhile, what was sent on and the part of a message
/// that still waits for its rest are what was received.
pub proof fn law_requests_are_forwarded_byte_for_byte(
    forwarder: ForwarderModel,
    pieces: Seq<(RegistryModel, Seq<u8>)>,
)
    requires
        forwarder.handler.wf(),
        forwarder.handler.role is OutBound,
        forwarder.handler.output.len() == 0,
        forall|i: int| 0 <= i < pieces.len() ==> (#[trigger] pieces[i]).1.len() % 4 == 0,
        forwarded(forwarder, pieces).2,
    ensures
        ({
            let (after, sent, _) = forwarded(forwarder, pieces);
            &&& after.handler.wf()
            &&& after.handler.role is OutBound
            &&& after.handler.output.len() == 0
            &&& sent + stream::pending(after.handler) == stream::pending(forwarder.handler) + received_bytes(pieces)
        }),
    decreases pieces.len(),
{
    let start = stream::pending(forwarder.handler);
    if pieces.len() == 0 {
        assert(Seq::<u8>::empty() + start =~= start + Seq::<u8>::empty());
    } else {
        let (before, sent, _) = forwarded(forwarder, pieces.drop_last());
        let (registry, piece) = pieces.last();
        assert(pieces[pieces.len() - 1].1.len() % 4 == 0);
        law_requests_are_forwarded_byte_for_byte(forwarder, pieces.drop_last());
        lemma_piece(before, registry, piece);
        let after = before.received(registry, piece).0;
        lemma_sent(
            sent,
            after.handler.output.flatten(),
            stream::pending(after.handler),
            stream::pending(before.handler),
            piece,
            start,
            received_bytes(pieces.drop_last()),
        );
    }
}

/// What an outbound forwarder makes of one piece.
proof fn lemma_piece(before: ForwarderModel, registry: RegistryModel, piece: Seq<u8>)
    requires
        before.handler.wf(),
        before.handler.role is OutBound,
        before.handler.output.len() == 0,
        piece.len() % 4 == 0,
        before.received(registry, piece).2,
    ensures
        ({
            let after = before.received(registry, piece).0;
            &&& after.drained().handler.wf()
            &&& after.handler.role is OutBound
            &&& stream::pending(after.drained().handler) == stream::pending(after.handler)
            &&& after.handler.output.flatten() + stream::pending(after.handler) == stream::pending(before.handler)
                + piece
        }),
{
    stream::law_outbound_is_byte_for_byte(before.handler, registry, piece, before.strict);
    stream::lemma_feed_keeps_wf(before.handler, registry, piece, before.strict);
    let waiting = stream::pending(before.handler);
    assert(piece.take((piece.len() / 4 * 4) as int) =~= piece);
    assert(before.handler.output.flatten() + waiting =~= waiting);
}

/// What was sent before and what is sent now, put together.
proof fn lemma_sent(
    sent: Seq<u8>,
    output: Seq<u8>,
    rest: Seq<u8>,
    waiting: Seq<u8>,
    piece: Seq<u8>,
    start: Seq<u8>,
    earlier: Seq<u8>,
)
    requires
        sent + waiting == start + earlier,
        output + rest == waiting + piece,
    ensures
        sent + output + rest == start + (earlier + piece),
{
    assert(sent + output + rest =~= sent + (output + rest));
    assert(sent + (waiting + piece) =~= (sent + waiting) + piece);
    assert((start + earlier) + piece =~= start + (earlier + piece));
}

/// For each message that a forwarder completes when it receives `pieces` whether
/// it is passed on.
pub open spec fn piece_verdicts(
    forwarder: ForwarderModel,
    pieces: Seq<(RegistryModel, Seq<u8>)>,
) -> Seq<bool>
    decreases pieces.len(),
{
    if pieces.len() == 0 {
        Seq::empty()
    } else {
        let before = forwarded(forwarder, pieces.drop_last()).0;
        let (registry, piece) = pieces.last();
        piece_verdicts(forwarder, pieces.drop_last()) + verdicts(before.handler, registry, piece)
    }
}

/// In either direction the relay forwards byte for byte, but for the messages that
/// it blocks: it cuts what was received into messages, which, with the part of a
/// message that still waits for its rest, are what was received; and it sends on
/// those that have a verdict to be passed on, in their order. That holds however
/// the stream is cut into pieces, and whatever the other direction does meanwhile.
pub proof fn law_all_but_the_blocked_is_forwarded(
    forwarder: ForwarderModel,
    pieces: Seq<(RegistryModel, Seq<u8>)>,
)
    requires
        forwarder.handler.wf(),
        forwarder.handler.output.len() == 0,
        forall|i: int| 0 <= i < pieces.len() ==> (#[trigger] pieces[i]).1.len() % 4 == 0,
        forwarded(forwarder, pieces).2,
    ensures
        ({
            let (after, sent, _) = forwarded(forwarder, pieces);
            let received = received_bytes(pieces);
            let messages = frames(forwarder.handler, received);
            &&& messages.flatten() + stream::pending(after.handler) == stream::pending(
                forwarder.handler,
            ) + received
            &&& piece_verdicts(forwarder, pieces).len() == messages.len()
            &&& sent == survivors(messages, piece_verdicts(forwarder, pieces)).flatten()
        }),
{
    lemma_forwarded(forwarder, pieces);
    law_frames_are_the_stream(forwarder.handler, received_bytes(pieces));
}

/// Whether `after` is where a forwarder with the handler `start` is when it has
/// received `received` and come to the verdicts `judged`, and `sent` is what it has
/// sent.
spec fn has_forwarded(
    start: HandlerModel,
    received: Seq<u8>,
    judged: Seq<bool>,
    after: ForwarderModel,
    sent: Seq<u8>,
) -> bool {
    &&& received.len() % 4 == 0
    &&& has_room(start, received)
    &&& after.handler == position(start, received)
    &&& after.handler.output.len() == 0
    &&& judged.len() == frames(start, received).len()
    &&& sent == survivors(frames(start, received), judged).flatten()
}

/// Where a forwarder is after some pieces, and what it has sent.
proof fn lemma_forwarded(forwarder: ForwarderModel, pieces: Seq<(RegistryModel, Seq<u8>)>)
    requires
        forwarder.handler.output.len() == 0,
        forall|i: int| 0 <= i < pieces.len() ==> (#[trigger] pieces[i]).1.len() % 4 == 0,
        forwarded(forwarder, pieces).2,
    ensures
        has_forwarded(
            forwarder.handler,
            received_bytes(pieces),
            piece_verdicts(forwarder, pieces),
            forwarded(forwarder, pieces).0,
            forwarded(forwarder, pieces).1,
        ),
    decreases pieces.len(),
{
    if pieces.len() > 0 {
        let earlier = pieces.drop_last();
        let (before, sent, _) = forwarded(forwarder, earlier);
        let (registry, piece) = pieces.last();
        assert(pieces[pieces.len() - 1].1.len() % 4 == 0);
        lemma_forwarded(forwarder, earlier);
        lemma_forwarded_step(
            forwarder.handler,
            received_bytes(earlier),
            piece_verdicts(forwarder, earlier),
            before,
            sent,
            registry,
            piece,
        );
    }
}

/// One more piece.
proof fn lemma_forwarded_step(
    start: HandlerModel,
    received: Seq<u8>,
    judged: Seq<bool>,
    before: ForwarderModel,
    sent: Seq<u8>,
    registry: RegistryModel,
    piece: Seq<u8>,
)
    requires
        has_forwarded(start, received, judged, before, sent),
        piece.len() % 4 == 0,
        before.received(registry, piece).2,
    ensures
        has_forwarded(
            start,
            received + piece,
            judged + verdicts(before.handler, registry, piece),
            before.received(registry, piece).0.drained(),
            sent + before.received(registry, piece).0.handler.output.flatten(),
        ),
{
    lemma_one_piece(before, registry, piece);
    lemma_later_words(start, received, piece);
    lemma_sent_messages(
        frames(start, received),
        judged,
        frames(before.handler, piece),
        verdicts(before.handler, registry, piece),
    );
}

/// What survives of some messages and of some later ones, as bytes.
proof fn lemma_sent_messages(
    a: Seq<Seq<u8>>,
    va: Seq<bool>,
    b: Seq<Seq<u8>>,
    vb: Seq<bool>,
)
    requires
        a.len() == va.len(),
        b.len() == vb.len(),
    ensures
        survivors(a + b, va + vb).flatten() == survivors(a, va).flatten() + survivors(
            b,
            vb,
        ).flatten(),
{
    lemma_survivors_of_both(a, va, b, vb);
    vstd::seq_lib::lemma_flatten_concat(survivors(a, va), survivors(b, vb));
}

/// What a forwarder with nothing left to send makes of one piece.
proof fn lemma_one_piece(before: ForwarderModel, registry: RegistryModel, piece: Seq<u8>)
    requires
        before.handler.output.len() == 0,
        before.received(registry, piece).2,
    ensures
        ({
            let after = before.received(registry, piece).0;
            &&& has_room(before.handler, piece)
            &&& verdicts(before.handler, registry, piece).len() == frames(
                before.handler,
                piece,
            ).len()
            &&& after.drained().handler == position(before.handler, piece)
            &&& after.handler.output == survivors(
                frames(before.handler, piece),
                verdicts(before.handler, registry, piece),
            )
        }),
{
    law_verdicts_only_drop_messages(before.handler, registry, piece, before.strict);
    lemma_position_keeps_output(before.handler, piece);
    let added = survivors(
        frames(before.handler, piece),
        verdicts(before.handler, registry, piece),
    );
    assert(before.handler.output + added =~= added);
    assert(before.handler.output =~= Seq::empty());
}

/// Where a handler is after the words of both `a` and `b`.
proof fn lemma_later_words(handler: HandlerModel, a: Seq<u8>, b: Seq<u8>)
    requires
        a.len() % 4 == 0,
    ensures
        position(handler, a + b) == position(position(handler, a), b),
        frames(handler, a + b) == frames(handler, a) + frames(position(handler, a), b),
        has_room(handler, a + b) == (has_room(handler, a) && has_room(position(handler, a), b)),
    decreases a.len(),
{
    if a.len() == 0 {
        assert(a + b =~= b);
        assert(Seq::<Seq<u8>>::empty() + frames(handler, b) =~= frames(handler, b));
    } else {
        let x = a.take(4);
        assert((a + b).take(4) =~= x);
        assert((a + b).skip(4) =~= a.skip(4) + b);
        lemma_later_words(moved(handler, x), a.skip(4), b);
        let next = handler.stored(x);
        let m = next.buf.take(next.len);
        let (fa, fb) = (frames(moved(handler, x), a.skip(4)), frames(position(handler, a), b));
        assert(seq![m] + (fa + fb) =~= (seq![m] + fa) + fb);
    }
}

/// The position in the stream leaves the output alone.
proof fn lemma_position_keeps_output(handler: HandlerModel, bytes: Seq<u8>)
    ensures
        position(handler, bytes).output == handler.output,
    decreases bytes.len(),
{
    if bytes.len() >= 4 {
        lemma_position_keeps_output(moved(handler, bytes.take(4)), bytes.skip(4));
    }
}

} // verus!
