//! What the socket accepts is what is forwarded, however it accepts it.

use vstd::prelude::*;

#[allow(unused_imports)]
use crate::forward;
#[allow(unused_imports)]
use crate::forward::{ForwarderModel, SendOutcome, SendStep};
#[allow(unused_imports)]
use crate::laws::{forwarding, stream};
#[allow(unused_imports)]
use crate::registry::RegistryModel;

verus! {

/// What has come of some attempts to send one response.
pub struct Attempts {
    /// The bytes that the socket accepted, in the order in which it did.
    pub accepted: Seq<u8>,
    /// The file descriptors that went out.
    pub delivered: Seq<i32>,
    /// The file descriptors that were closed.
    pub closed: Seq<i32>,
    /// What follows the last attempt.
    pub next: SendStep,
}

/// The bytes that the socket accepts in one attempt to send `response`.
pub open spec fn accepted_by(outcome: SendOutcome, response: Seq<u8>) -> Seq<u8> {
    match outcome {
        SendOutcome::Sent { n } => if n < response.len() {
            response.take(n as int)
        } else {
            response
        },
        _ => Seq::empty(),
    }
}

/// The file descriptors that go out in one attempt with `rights` attached.
pub open spec fn delivered_by(outcome: SendOutcome, rights: Seq<i32>) -> Seq<i32> {
    match outcome {
        SendOutcome::Sent { .. } => rights,
        _ => Seq::empty(),
    }
}

/// The attempts to send `response` with `rights` attached, if they go as
/// `outcomes` says. There are no more of them once the response is sent or an
/// attempt has failed.
pub open spec fn attempts(
    response: Seq<u8>,
    rights: Seq<i32>,
    outcomes: Seq<SendOutcome>,
) -> Attempts
    decreases outcomes.len(),
{
    if outcomes.len() == 0 {
        Attempts {
            accepted: Seq::empty(),
            delivered: Seq::empty(),
            closed: Seq::empty(),
            next: SendStep::Send { response, rights, close: Seq::empty() },
        }
    } else {
        let outcome = outcomes.first();
        let accepted = accepted_by(outcome, response);
        let delivered = delivered_by(outcome, rights);
        let step = forward::after_send(outcome, response, rights);
        match step {
            SendStep::Send { response: unsent, rights: waiting, close } => {
                let later = attempts(unsent, waiting, outcomes.drop_first());
                Attempts {
                    accepted: accepted + later.accepted,
                    delivered: delivered + later.delivered,
                    closed: close + later.closed,
                    next: later.next,
                }
            },
            SendStep::Receive { close } => Attempts {
                accepted,
                delivered,
                closed: close,
                next: step,
            },
            SendStep::Fail { close } => Attempts { accepted, delivered, closed: close, next: step },
        }
    }
}

/// Before the next receive, the socket has accepted the response, all of it and
/// once, and the file descriptors have gone out once and are closed. Until then,
/// what it has accepted and what is to be sent next are the response, and only file
/// descriptors that have gone out are closed. After a failure all are closed.
pub proof fn law_a_response_is_sent_once(
    response: Seq<u8>,
    rights: Seq<i32>,
    outcomes: Seq<SendOutcome>,
)
    ensures
        ({
            let made = attempts(response, rights, outcomes);
            match made.next {
                SendStep::Receive { .. } => {
                    &&& made.accepted == response
                    &&& made.delivered == rights
                    &&& made.closed == rights
                },
                SendStep::Send { response: unsent, rights: waiting, .. } => {
                    &&& made.accepted + unsent == response
                    &&& made.delivered + waiting == rights
                    &&& made.closed == made.delivered
                },
                SendStep::Fail { .. } => {
                    &&& made.accepted.is_prefix_of(response)
                    &&& made.delivered.is_prefix_of(rights)
                    &&& made.closed == rights
                },
            }
        }),
    decreases outcomes.len(),
{
    if outcomes.len() == 0 {
        assert(Seq::<u8>::empty() + response =~= response);
        assert(Seq::<i32>::empty() + rights =~= rights);
    } else {
        let outcome = outcomes.first();
        let accepted = accepted_by(outcome, response);
        match forward::after_send(outcome, response, rights) {
            SendStep::Send { response: unsent, rights: waiting, close } => {
                let later = attempts(unsent, waiting, outcomes.drop_first());
                law_a_response_is_sent_once(unsent, waiting, outcomes.drop_first());
                assert(accepted + unsent =~= response);
                assert(delivered_by(outcome, rights) + waiting =~= rights);
                assert(close + waiting =~= rights);
                if let SendStep::Send { response: last, rights: last_rights, .. } = later.next {
                    assert((accepted + later.accepted) + last =~= accepted + (later.accepted
                        + last));
                    assert((close + later.delivered) + last_rights =~= close + (later.delivered
                        + last_rights));
                }
            },
            _ => {},
        }
    }
}

/// An attempt that would have blocked changes nothing: the same response is sent
/// again, with the same file descriptors.
pub proof fn law_a_blocked_send_is_repeated(
    response: Seq<u8>,
    rights: Seq<i32>,
    outcomes: Seq<SendOutcome>,
)
    requires
        outcomes.len() > 0,
        outcomes.first() is WouldBlock,
    ensures
        attempts(response, rights, outcomes) == attempts(response, rights, outcomes.drop_first()),
{
    let later = attempts(response, rights, outcomes.drop_first());
    assert(Seq::<u8>::empty() + later.accepted =~= later.accepted);
    assert(Seq::<i32>::empty() + later.delivered =~= later.delivered);
    assert(Seq::<i32>::empty() + later.closed =~= later.closed);
}

/// What follows an attempt is to give up if and only if it failed, and to receive
/// again if and only if all that was left was accepted, however much that was.
/// Otherwise the rest is sent: what was accepted and the rest are the response, and the
/// rest goes out with the file descriptors that are still attached. Each file
/// descriptor is either closed or attached again; it is attached again only after an
/// attempt that would have blocked.
pub proof fn law_only_a_failure_gives_up(
    outcome: SendOutcome,
    response: Seq<u8>,
    rights: Seq<i32>,
)
    ensures
        ({
            let step = forward::after_send(outcome, response, rights);
            &&& step is Fail <==> outcome is Failed
            &&& step is Receive <==> (outcome matches SendOutcome::Sent { n } && n
                >= response.len())
            &&& step matches SendStep::Fail { close } ==> close == rights
            &&& step matches SendStep::Receive { close } ==> close == rights
            &&& step matches SendStep::Send { response: unsent, rights: waiting, close } ==> {
                &&& outcome is WouldBlock ==> unsent == response && waiting == rights
                    && close.len() == 0
                &&& outcome matches SendOutcome::Sent { n } ==> {
                    &&& unsent.len() == response.len() - n
                    &&& unsent.is_suffix_of(response)
                    &&& waiting.len() == 0
                    &&& close == rights
                }
            }
        }),
{
}

/// The number of bytes that the socket says it accepted.
pub open spec fn accepted_count(outcomes: Seq<SendOutcome>) -> int
    decreases outcomes.len(),
{
    if outcomes.len() == 0 {
        0
    } else {
        accepted_count(outcomes.drop_last()) + match outcomes.last() {
            SendOutcome::Sent { n } => n as int,
            _ => 0,
        }
    }
}

/// As long as no attempt fails, nothing is given up: the relay receives again once the
/// accepted bytes add up to the response, and until then it sends the rest.
pub proof fn law_attempts_without_failure_end_in_receive(
    response: Seq<u8>,
    rights: Seq<i32>,
    outcomes: Seq<SendOutcome>,
)
    requires
        forall|i: int| 0 <= i < outcomes.len() ==> !(#[trigger] outcomes[i] is Failed),
    ensures
        ({
            let next = attempts(response, rights, outcomes).next;
            &&& !(next is Fail)
            &&& next is Receive <==> accepted_count(outcomes) >= response.len() && exists|i: int|
                0 <= i < outcomes.len() && #[trigger] outcomes[i] is Sent
            &&& next matches SendStep::Send { response: unsent, .. } ==> unsent.len()
                == response.len() - accepted_count(outcomes)
        }),
    decreases outcomes.len(),
{
    if outcomes.len() > 0 {
        let outcome = outcomes.first();
        let rest = outcomes.drop_first();
        assert(outcomes[0] == outcome);
        assert forall|i: int| 0 <= i < rest.len() implies !(#[trigger] rest[i] is Failed) by {
            assert(!(outcomes[i + 1] is Failed));
        }
        lemma_count_first(outcomes);
        lemma_count_is_no_less(rest);
        law_only_a_failure_gives_up(outcome, response, rights);
        if let SendStep::Send { response: unsent, rights: waiting, .. } = forward::after_send(
            outcome,
            response,
            rights,
        ) {
            law_attempts_without_failure_end_in_receive(unsent, waiting, rest);
            if exists|i: int| 0 <= i < rest.len() && #[trigger] rest[i] is Sent {
                let i = choose|i: int| 0 <= i < rest.len() && #[trigger] rest[i] is Sent;
                assert(outcomes[i + 1] is Sent);
            }
            if exists|i: int| 0 <= i < outcomes.len() && #[trigger] outcomes[i] is Sent {
                let i = choose|i: int| 0 <= i < outcomes.len() && #[trigger] outcomes[i] is Sent;
                if i > 0 {
                    assert(rest[i - 1] is Sent);
                } else if accepted_count(rest) > 0 {
                    lemma_counted_is_sent(rest);
                }
            }
        }
    }
}

/// The first outcome counted before the others.
proof fn lemma_count_first(outcomes: Seq<SendOutcome>)
    requires
        outcomes.len() > 0,
    ensures
        accepted_count(outcomes) == accepted_count(outcomes.drop_first()) + match outcomes.first() {
            SendOutcome::Sent { n } => n as int,
            _ => 0,
        },
    decreases outcomes.len(),
{
    if outcomes.len() > 1 {
        lemma_count_first(outcomes.drop_last());
        assert(outcomes.drop_last().drop_first() =~= outcomes.drop_first().drop_last());
    } else {
        assert(outcomes.drop_first() =~= outcomes.drop_last());
    }
}

/// A count is no less than zero.
proof fn lemma_count_is_no_less(outcomes: Seq<SendOutcome>)
    ensures
        accepted_count(outcomes) >= 0,
    decreases outcomes.len(),
{
    if outcomes.len() > 0 {
        lemma_count_is_no_less(outcomes.drop_last());
    }
}

/// Where bytes are counted, something was sent.
proof fn lemma_counted_is_sent(outcomes: Seq<SendOutcome>)
    requires
        accepted_count(outcomes) > 0,
    ensures
        exists|i: int| 0 <= i < outcomes.len() && #[trigger] outcomes[i] is Sent,
    decreases outcomes.len(),
{
    if outcomes.last() is Sent {
        assert(outcomes[outcomes.len() - 1] is Sent);
    } else {
        let earlier = outcomes.drop_last();
        lemma_counted_is_sent(earlier);
        let i = choose|i: int| 0 <= i < earlier.len() && #[trigger] earlier[i] is Sent;
        assert(outcomes[i] is Sent);
    }
}

/// The response of a forwarder to the last of `pieces`.
pub open spec fn last_response(
    forwarder: ForwarderModel,
    pieces: Seq<(RegistryModel, Seq<u8>)>,
) -> Seq<u8> {
    let before = forwarding::forwarded(forwarder, pieces.drop_last()).0;
    let (registry, piece) = pieces.last();
    before.received(registry, piece).0.handler.output.flatten()
}

/// What the socket accepts when a forwarder receives `pieces`, one after the other.
/// With the piece at the same place, `sends` holds the file descriptors that came
/// with it and how the attempts to send the response to it go.
pub open spec fn accepted_bytes(
    forwarder: ForwarderModel,
    pieces: Seq<(RegistryModel, Seq<u8>)>,
    sends: Seq<(Seq<i32>, Seq<SendOutcome>)>,
) -> Seq<u8>
    decreases pieces.len(),
{
    if pieces.len() == 0 {
        Seq::empty()
    } else {
        let (rights, outcomes) = sends.last();
        accepted_bytes(forwarder, pieces.drop_last(), sends.drop_last()) + attempts(
            last_response(forwarder, pieces),
            rights,
            outcomes,
        ).accepted
    }
}

/// Whether after each of `pieces` the attempts went on until the forwarder was to
/// receive again.
pub open spec fn all_sent(
    forwarder: ForwarderModel,
    pieces: Seq<(RegistryModel, Seq<u8>)>,
    sends: Seq<(Seq<i32>, Seq<SendOutcome>)>,
) -> bool
    decreases pieces.len(),
{
    pieces.len() == 0 || {
        let (rights, outcomes) = sends.last();
        &&& all_sent(forwarder, pieces.drop_last(), sends.drop_last())
        &&& attempts(last_response(forwarder, pieces), rights, outcomes).next is Receive
    }
}

/// The socket accepts, byte for byte and in order, what is forwarded, whether it
/// accepts it at once, in parts, or not until later.
pub proof fn law_the_socket_gets_what_is_forwarded(
    forwarder: ForwarderModel,
    pieces: Seq<(RegistryModel, Seq<u8>)>,
    sends: Seq<(Seq<i32>, Seq<SendOutcome>)>,
)
    requires
        all_sent(forwarder, pieces, sends),
    ensures
        accepted_bytes(forwarder, pieces, sends) == forwarding::forwarded(forwarder, pieces).1,
    decreases pieces.len(),
{
    if pieces.len() > 0 {
        let (rights, outcomes) = sends.last();
        law_the_socket_gets_what_is_forwarded(forwarder, pieces.drop_last(), sends.drop_last());
        law_a_response_is_sent_once(last_response(forwarder, pieces), rights, outcomes);
    }
}

/// From the one socket to the other the relay forwards byte for byte, but for the
/// messages that it blocks: what the one socket gave is cut into messages, and the
/// other accepts those that have a verdict to be passed on, in their order.
pub proof fn law_socket_to_socket(
    forwarder: ForwarderModel,
    pieces: Seq<(RegistryModel, Seq<u8>)>,
    sends: Seq<(Seq<i32>, Seq<SendOutcome>)>,
)
    requires
        forwarder.handler.wf(),
        forwarder.handler.output.len() == 0,
        forall|i: int| 0 <= i < pieces.len() ==> (#[trigger] pieces[i]).1.len() % 4 == 0,
        forwarding::forwarded(forwarder, pieces).2,
        all_sent(forwarder, pieces, sends),
    ensures
        ({
            let after = forwarding::forwarded(forwarder, pieces).0;
            let received = forwarding::received_bytes(pieces);
            let messages = forwarding::frames(forwarder.handler, received);
            &&& messages.flatten() + stream::pending(after.handler) == stream::pending(
                forwarder.handler,
            ) + received
            &&& accepted_bytes(forwarder, pieces, sends) == forwarding::survivors(
                messages,
                forwarding::piece_verdicts(forwarder, pieces),
            ).flatten()
        }),
{
    law_the_socket_gets_what_is_forwarded(forwarder, pieces, sends);
    forwarding::law_all_but_the_blocked_is_forwarded(forwarder, pieces);
}

} // verus!
