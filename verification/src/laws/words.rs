//! What a handler does with each word, and a forwarder with what it receives.

use vstd::prelude::*;

#[allow(unused_imports)]
use crate::{bytes, forward, handler, message};
#[allow(unused_imports)]
use crate::forward::{
    ForwarderModel, ReceiveAction, ReceiveOutcome, ReceiveStep, Reception, SendAction, SendStep,
};
#[allow(unused_imports)]
use crate::handler::{HandlerModel, HandlerRole, HandlerState};
#[allow(unused_imports)]
use crate::laws::{stream, wire};
#[allow(unused_imports)]
use crate::registry::{Note, RegistryModel};

verus! {

/// A handler waits first for the eight bytes of a header, has a buffer of zeros, and
/// nothing to give out.
pub proof fn law_a_new_handler_waits_for_a_header(role: HandlerRole, i: int)
    ensures
        ({
            let h = HandlerModel::initial(role);
            &&& h.wf()
            &&& h.role == role
            &&& h.ptr == 0
            &&& h.len == 8
            &&& h.state is Header
            &&& h.buf.len() == 65544
            &&& 0 <= i < 65544 ==> h.buf[i] == 0
            &&& h.output.len() == 0
        }),
{
}

/// What a handler must be to take words: it has whole words of a header, or all of
/// one and then whole words up to the end of its buffer, and not yet the whole
/// message.
pub proof fn law_when_a_handler_is_well_formed(h: HandlerModel)
    ensures
        h.wf() <==> {
            &&& h.buf.len() == 65544
            &&& h.state is Header ==> h.len == 8 && (h.ptr == 0 || h.ptr == 4)
            &&& h.state is Body ==> {
                &&& 8 <= h.ptr <= 65544
                &&& h.ptr % 4 == 0
                &&& 0 <= h.len <= 65535
                &&& h.len != h.ptr
            }
        },
{
}

/// Overwriting changes the bytes that are overwritten and no others.
pub proof fn law_overwriting_is_local(s: Seq<u8>, at: int, t: Seq<u8>, i: int)
    requires
        0 <= at,
        at + t.len() <= s.len(),
        0 <= i < s.len(),
    ensures
        bytes::overwrite(s, at, t).len() == s.len(),
        at <= i < at + t.len() ==> bytes::overwrite(s, at, t)[i] == t[i - at],
        i < at || at + t.len() <= i ==> bytes::overwrite(s, at, t)[i] == s[i],
{
}

/// Whether the buffer `b` is that of `h` with the word `x` where the next word goes.
pub open spec fn holds_next(h: HandlerModel, x: Seq<u8>, b: Seq<u8>) -> bool {
    &&& b.len() == h.buf.len()
    &&& forall|i: int|
        0 <= i < b.len() ==> #[trigger] b[i] == if h.ptr <= i < h.ptr + 4 {
            x[i - h.ptr]
        } else {
            h.buf[i]
        }
}

/// A word is taken unless the buffer is full, or the message that it completes cannot
/// be judged, or, if `strict`, it is the second word of a header that tells a size of
/// less than eight bytes. It completes a message if it is the last of as many bytes as
/// the header tells, and the header may be all there is of the message.
pub proof fn law_when_a_word_is_taken(
    h: HandlerModel,
    registry: RegistryModel,
    x: Seq<u8>,
    b: Seq<u8>,
    strict: bool,
)
    requires
        h.wf(),
        x.len() == 4,
        h.ptr <= 65540 ==> holds_next(h, x, b),
    ensures
        ({
            let second = h.state is Header && h.ptr == 4;
            let size = bytes::word_at(x, 0) / 65536;
            let complete = (h.state is Body && h.ptr + 4 == h.len) || (second && size == 8);
            h.takes(registry, x, strict) <==> {
                &&& h.ptr <= 65540
                &&& strict && second ==> size >= 8
                &&& complete ==> handler::judgeable(h.role, registry, b, strict)
            }
        }),
{
    if h.ptr <= 65540 {
        lemma_stored(h, x, b);
    }
}

/// A word that does not complete a message is stored, and changes nothing else; with
/// the second word of a header the handler goes on to the size that it tells.
pub proof fn law_a_word_is_stored(
    h: HandlerModel,
    registry: RegistryModel,
    x: Seq<u8>,
    b: Seq<u8>,
)
    requires
        h.wf(),
        x.len() == 4,
        h.ptr <= 65540,
        holds_next(h, x, b),
        h.state is Body ==> h.ptr + 4 != h.len,
        h.state is Header && h.ptr == 4 ==> bytes::word_at(x, 0) / 65536 != 8,
    ensures
        ({
            let second = h.state is Header && h.ptr == 4;
            let (next, after) = h.append(registry, x);
            &&& after == registry
            &&& h.note(registry, x) is None
            &&& next.role == h.role
            &&& next.ptr == h.ptr + 4
            &&& next.buf == b
            &&& next.output == h.output
            &&& second ==> next.state is Body && next.len == bytes::word_at(x, 0) / 65536
            &&& !second ==> next.state == h.state && next.len == h.len
        }),
{
    lemma_stored(h, x, b);
}

/// A word that completes a message has it judged and told of, once; the message is
/// added to the output as it came unless it is held back, and the handler waits for the
/// next header.
pub proof fn law_a_last_word_has_the_message_judged(
    h: HandlerModel,
    registry: RegistryModel,
    x: Seq<u8>,
    b: Seq<u8>,
)
    requires
        h.wf(),
        x.len() == 4,
        h.ptr <= 65540,
        holds_next(h, x, b),
        h.state is Body ==> h.ptr + 4 == h.len,
        h.state is Header ==> h.ptr == 4 && bytes::word_at(x, 0) / 65536 == 8,
    ensures
        ({
            let (next, after) = h.append(registry, x);
            let pass = handler::judge(h.role, registry, b).1;
            &&& after == handler::judge(h.role, registry, b).0
            &&& h.note(registry, x) == handler::remark(h.role, registry, b)
            &&& next.role == h.role
            &&& next.ptr == 0
            &&& next.len == 8
            &&& next.state is Header
            &&& next.buf == b
            &&& !pass ==> next.output == h.output
            &&& pass ==> {
                &&& next.output.len() == h.output.len() + 1
                &&& next.output.drop_last() == h.output
                &&& next.output.last() == b.take(h.ptr + 4)
            }
        }),
{
    lemma_stored(h, x, b);
    let m = b.take(h.ptr + 4);
    assert(h.output.push(m).drop_last() =~= h.output);
}

/// Where a word is stored.
proof fn lemma_stored(h: HandlerModel, x: Seq<u8>, b: Seq<u8>)
    requires
        h.wf(),
        x.len() == 4,
        h.ptr <= 65540,
        holds_next(h, x, b),
    ensures
        h.stored(x).buf == b,
        h.ptr == 4 ==> message::msg_size(b) == bytes::word_at(x, 0) / 65536,
{
    assert(h.stored(x).buf =~= b);
    if h.ptr == 4 {
        assert(b[4] == x[0]);
        assert(b[5] == x[1]);
        assert(b[6] == x[2]);
        assert(b[7] == x[3]);
    }
}

/// Less than a word is left alone. Of a whole word it is tried whether it is taken, and
/// a word that is not taken changes nothing.
pub proof fn law_bytes_are_fed_by_words(
    h: HandlerModel,
    registry: RegistryModel,
    x: Seq<u8>,
    strict: bool,
)
    requires
        x.len() <= 4,
    ensures
        ({
            let (next, after, taken) = forward::feed(h, registry, x, strict);
            let notes = forward::feed_notes(h, registry, x, strict);
            &&& taken <==> x.len() < 4 || h.takes(registry, x, strict)
            &&& x.len() < 4 || !taken ==> next == h && after == registry && notes.len() == 0
            &&& x.len() == 4 && taken ==> {
                &&& (next, after) == h.append(registry, x)
                &&& h.note(registry, x) is None ==> notes.len() == 0
                &&& h.note(registry, x) matches Some(note) ==> notes.len() == 1 && notes[0] == note
            }
        }),
{
    if x.len() == 4 {
        assert(x.take(4) =~= x);
        let (next, after) = h.append(registry, x);
        assert(x.skip(4).len() == 0);
        assert(forward::feed(next, after, x.skip(4), strict) == (next, after, true));
        assert(forward::feed_notes(next, after, x.skip(4), strict).len() == 0);
    }
}

/// How the stream is cut between words does not matter for what is told either: of both
/// pieces is told what is told of each, up to the first word that cannot be taken.
#[verifier::rlimit(40)]
pub proof fn law_cuts_do_not_matter_for_notes(
    h: HandlerModel,
    registry: RegistryModel,
    a: Seq<u8>,
    b: Seq<u8>,
    strict: bool,
)
    requires
        a.len() % 4 == 0,
    ensures
        ({
            let (h_a, registry_a, taken_a) = forward::feed(h, registry, a, strict);
            let told = forward::feed_notes(h, registry, a, strict);
            forward::feed_notes(h, registry, a + b, strict) == if taken_a {
                told + forward::feed_notes(h_a, registry_a, b, strict)
            } else {
                told
            }
        }),
    decreases a.len(),
{
    if a.len() == 0 {
        assert(a + b =~= b);
        let told = forward::feed_notes(h, registry, b, strict);
        assert(Seq::<Note>::empty() + told =~= told);
    } else {
        assert((a + b).take(4) =~= a.take(4));
        assert((a + b).skip(4) =~= a.skip(4) + b);
        if h.takes(registry, a.take(4), strict) {
            let (next, registry_next) = h.append(registry, a.take(4));
            law_cuts_do_not_matter_for_notes(next, registry_next, a.skip(4), b, strict);
            if let Some(note) = h.note(registry, a.take(4)) {
                let (later, after, _) = forward::feed(next, registry_next, a.skip(4), strict);
                let x = forward::feed_notes(next, registry_next, a.skip(4), strict);
                let y = forward::feed_notes(later, after, b, strict);
                assert(seq![note] + (x + y) =~= (seq![note] + x) + y);
            }
        }
    }
}

/// A part of a word at the end of what is fed is left alone.
pub proof fn law_a_part_of_a_word_is_left_alone(
    h: HandlerModel,
    registry: RegistryModel,
    a: Seq<u8>,
    part: Seq<u8>,
    strict: bool,
)
    requires
        a.len() % 4 == 0,
        part.len() < 4,
    ensures
        forward::feed(h, registry, a + part, strict) == forward::feed(h, registry, a, strict),
        forward::feed_notes(h, registry, a + part, strict) == forward::feed_notes(
            h,
            registry,
            a,
            strict,
        ),
{
    let (h_a, registry_a, _) = forward::feed(h, registry, a, strict);
    stream::law_cuts_do_not_matter(h, registry, a, part, strict);
    law_cuts_do_not_matter_for_notes(h, registry, a, part, strict);
    law_bytes_are_fed_by_words(h_a, registry_a, part, strict);
    let told = forward::feed_notes(h, registry, a, strict);
    assert(forward::feed_notes(h_a, registry_a, part, strict) =~= Seq::empty());
    assert(told + Seq::<Note>::empty() =~= told);
}

/// A message that can be judged strictly can be judged.
proof fn lemma_strict_is_lenient(role: HandlerRole, registry: RegistryModel, m: Seq<u8>)
    ensures
        handler::judgeable(role, registry, m, true) ==> handler::judgeable(
            role,
            registry,
            m,
            false,
        ),
{
}

/// To be strict is to refuse more, and nothing else: what is taken strictly is taken,
/// and does the same, where it is not.
#[verifier::rlimit(40)]
pub proof fn law_strictness_only_refuses(h: HandlerModel, registry: RegistryModel, a: Seq<u8>)
    requires
        forward::feed(h, registry, a, true).2,
    ensures
        forward::feed(h, registry, a, false) == forward::feed(h, registry, a, true),
        forward::feed_notes(h, registry, a, false) == forward::feed_notes(h, registry, a, true),
    decreases a.len(),
{
    if a.len() >= 4 {
        let x = a.take(4);
        lemma_strict_is_lenient(h.role, registry, h.stored(x).buf);
        let (next, after) = h.append(registry, x);
        law_strictness_only_refuses(next, after, a.skip(4));
    }
}

/// Where a stream is refused, it is refused at a word: all that comes before that word
/// is taken, and has its effect, and the word has none.
pub proof fn law_a_refusal_is_of_one_word(
    h: HandlerModel,
    registry: RegistryModel,
    a: Seq<u8>,
    strict: bool,
) -> (n: int)
    requires
        !forward::feed(h, registry, a, strict).2,
    ensures
        n % 4 == 0,
        0 <= n,
        n + 4 <= a.len(),
        ({
            let (next, after, taken) = forward::feed(h, registry, a.take(n), strict);
            &&& taken
            &&& !next.takes(after, a.subrange(n, n + 4), strict)
            &&& forward::feed(h, registry, a, strict) == (next, after, false)
            &&& forward::feed_notes(h, registry, a, strict) == forward::feed_notes(
                h,
                registry,
                a.take(n),
                strict,
            )
        }),
    decreases a.len(),
{
    let n = lemma_refused(h, registry, a, strict);
    reveal(fed);
    let next = fed(h, registry, a.take(n), strict);
    law_bytes_are_fed_by_words(next.handler, next.registry, a.subrange(n, n + 4), strict);
    n
}

/// What has become of a handler and of the registry, and what was told.
struct Fed {
    handler: HandlerModel,
    registry: RegistryModel,
    taken: bool,
    notes: Seq<Note>,
}

/// What feeding `a` does.
#[verifier::opaque]
spec fn fed(h: HandlerModel, registry: RegistryModel, a: Seq<u8>, strict: bool) -> Fed {
    let (handler, after, taken) = forward::feed(h, registry, a, strict);
    Fed {
        handler,
        registry: after,
        taken,
        notes: forward::feed_notes(h, registry, a, strict),
    }
}

/// What feeding `a` and then `b` does.
proof fn lemma_fed_both(
    h: HandlerModel,
    registry: RegistryModel,
    a: Seq<u8>,
    b: Seq<u8>,
    strict: bool,
)
    requires
        a.len() % 4 == 0,
    ensures
        ({
            let first = fed(h, registry, a, strict);
            let second = fed(first.handler, first.registry, b, strict);
            fed(h, registry, a + b, strict) == if first.taken {
                Fed { notes: first.notes + second.notes, ..second }
            } else {
                first
            }
        }),
{
    reveal(fed);
    stream::law_cuts_do_not_matter(h, registry, a, b, strict);
    law_cuts_do_not_matter_for_notes(h, registry, a, b, strict);
}

/// What feeding a word or less does: nothing, unless it is a word that is taken.
proof fn lemma_fed_word(h: HandlerModel, registry: RegistryModel, x: Seq<u8>, strict: bool)
    requires
        x.len() <= 4,
    ensures
        ({
            let after = fed(h, registry, x, strict);
            &&& x.len() < 4 ==> after.taken
            &&& x.len() < 4 || !after.taken ==> after.handler == h && after.registry == registry
                && after.notes == Seq::<Note>::empty()
        }),
{
    reveal(fed);
    law_bytes_are_fed_by_words(h, registry, x, strict);
    let notes = fed(h, registry, x, strict).notes;
    if notes.len() == 0 {
        assert(notes =~= Seq::empty());
    }
}

/// Where a stream is refused.
proof fn lemma_refused(h: HandlerModel, registry: RegistryModel, a: Seq<u8>, strict: bool) -> (n:
    int)
    requires
        !forward::feed(h, registry, a, strict).2,
    ensures
        n % 4 == 0,
        0 <= n,
        n + 4 <= a.len(),
        ({
            let next = fed(h, registry, a.take(n), strict);
            &&& next.taken
            &&& !fed(next.handler, next.registry, a.subrange(n, n + 4), strict).taken
            &&& fed(h, registry, a, strict) == (Fed { taken: false, ..next })
        }),
{
    assert(!fed(h, registry, a, strict).taken) by {
        reveal(fed);
    }
    lemma_fed_refused(h, registry, a, strict)
}

/// Where a stream is refused.
proof fn lemma_fed_refused(
    h: HandlerModel,
    registry: RegistryModel,
    a: Seq<u8>,
    strict: bool,
) -> (n: int)
    requires
        !fed(h, registry, a, strict).taken,
    ensures
        n % 4 == 0,
        0 <= n,
        n + 4 <= a.len(),
        ({
            let next = fed(h, registry, a.take(n), strict);
            &&& next.taken
            &&& !fed(next.handler, next.registry, a.subrange(n, n + 4), strict).taken
            &&& fed(h, registry, a, strict) == (Fed { taken: false, ..next })
        }),
    decreases a.len(),
{
    if a.len() < 4 {
        lemma_fed_word(h, registry, a, strict);
        0
    } else {
        let x = a.take(4);
        let rest = a.skip(4);
        let first = fed(h, registry, x, strict);
        assert(x + rest =~= a);
        lemma_fed_both(h, registry, x, rest, strict);
        lemma_fed_word(h, registry, x, strict);
        if !first.taken {
            lemma_fed_word(h, registry, a.take(0), strict);
            assert(a.subrange(0, 4) =~= x);
            0
        } else {
            let n = lemma_fed_refused(first.handler, first.registry, rest, strict);
            assert(x + rest.take(n) =~= a.take(n + 4));
            assert(a.subrange(n + 4, n + 8) =~= rest.subrange(n, n + 4));
            lemma_fed_both(h, registry, x, rest.take(n), strict);
            n + 4
        }
    }
}

/// Of a message that can be judged is told once, whatever the words before left behind
/// in the buffer.
pub proof fn law_a_message_is_told_of_once(
    h: HandlerModel,
    registry: RegistryModel,
    m: Seq<u8>,
    strict: bool,
)
    requires
        h.wf(),
        h.ptr == 0,
        m.len() >= 8,
        m.len() % 4 == 0,
        m.len() == bytes::word_at(m, 4) / 65536,
        handler::judgeable(h.role, registry, m + h.buf.skip(m.len() as int), strict),
    ensures
        forward::feed_notes(h, registry, m, strict) == match handler::remark(
            h.role,
            registry,
            m + h.buf.skip(m.len() as int),
        ) {
            Some(note) => seq![note],
            None => Seq::<Note>::empty(),
        },
{
    let n = m.len() as int;
    let metadata = bytes::word_at(m, 4);
    assert(metadata / 65536 < 65536) by (bit_vector);
    lemma_told_once(h, registry, m, strict);
    reveal(fed);
}

/// What is told of a message.
proof fn lemma_told_once(h: HandlerModel, registry: RegistryModel, m: Seq<u8>, strict: bool)
    requires
        h.wf(),
        h.ptr == 0,
        8 <= m.len() < 65536,
        m.len() % 4 == 0,
        m.len() == bytes::word_at(m, 4) / 65536,
        handler::judgeable(h.role, registry, m + h.buf.skip(m.len() as int), strict),
    ensures
        fed(h, registry, m, strict).notes == match handler::remark(
            h.role,
            registry,
            m + h.buf.skip(m.len() as int),
        ) {
            Some(note) => seq![note],
            None => Seq::<Note>::empty(),
        },
{
    let n = m.len() as int;
    let buf = m + h.buf.skip(n);
    let before = m.take(n - 4);
    let x = m.skip(n - 4);
    let inner = fed(h, registry, before, strict);
    lemma_inner_words(h, registry, m, strict, n - 4);
    assert(before + x =~= m);
    assert(holds_next(inner.handler, x, buf));
    if n == 8 {
        assert(x[0] == m[4] && x[1] == m[5] && x[2] == m[6] && x[3] == m[7]);
    }
    lemma_fed_both(h, registry, before, x, strict);
    lemma_last_word_is_told(inner.handler, registry, x, buf, strict);
    let told = fed(inner.handler, registry, x, strict).notes;
    assert(Seq::<Note>::empty() + told =~= told);
}

/// What is told of the last word of a message is told of the message.
proof fn lemma_last_word_is_told(
    h: HandlerModel,
    registry: RegistryModel,
    x: Seq<u8>,
    b: Seq<u8>,
    strict: bool,
)
    requires
        h.wf(),
        x.len() == 4,
        h.ptr <= 65540,
        holds_next(h, x, b),
        h.state is Body ==> h.ptr + 4 == h.len,
        h.state is Header ==> h.ptr == 4 && bytes::word_at(x, 0) / 65536 == 8,
        handler::judgeable(h.role, registry, b, strict),
    ensures
        fed(h, registry, x, strict).notes == match handler::remark(h.role, registry, b) {
            Some(note) => seq![note],
            None => Seq::<Note>::empty(),
        },
{
    reveal(fed);
    law_when_a_word_is_taken(h, registry, x, b, strict);
    law_a_last_word_has_the_message_judged(h, registry, x, b);
    law_bytes_are_fed_by_words(h, registry, x, strict);
    let told = forward::feed_notes(h, registry, x, strict);
    match handler::remark(h.role, registry, b) {
        Some(note) => {
            assert(told =~= seq![note]);
        },
        None => {
            assert(told =~= Seq::empty());
        },
    }
}

/// A word of a message but the last is stored, and nothing is told of it.
proof fn lemma_inner_word(
    h: HandlerModel,
    registry: RegistryModel,
    x: Seq<u8>,
    b: Seq<u8>,
    strict: bool,
)
    requires
        h.wf(),
        x.len() == 4,
        h.ptr <= 65540,
        holds_next(h, x, b),
        h.state is Body ==> h.ptr + 4 != h.len,
        h.state is Header && h.ptr == 4 ==> bytes::word_at(x, 0) / 65536 > 8,
    ensures
        ({
            let next = fed(h, registry, x, strict);
            let second = h.state is Header && h.ptr == 4;
            &&& next.taken
            &&& next.registry == registry
            &&& next.notes == Seq::<Note>::empty()
            &&& next.handler.wf()
            &&& next.handler.role == h.role
            &&& next.handler.ptr == h.ptr + 4
            &&& next.handler.buf == b
            &&& second ==> next.handler.state is Body && next.handler.len == bytes::word_at(x, 0)
                / 65536
            &&& !second ==> next.handler.state == h.state && next.handler.len == h.len
        }),
{
    reveal(fed);
    law_when_a_word_is_taken(h, registry, x, b, strict);
    law_a_word_is_stored(h, registry, x, b);
    law_bytes_are_fed_by_words(h, registry, x, strict);
    stream::lemma_append_keeps_wf(h, registry, x);
    assert(forward::feed_notes(h, registry, x, strict) =~= Seq::empty());
}

/// The words of a message but the last are stored, and nothing is told of them.
proof fn lemma_inner_words(
    h: HandlerModel,
    registry: RegistryModel,
    m: Seq<u8>,
    strict: bool,
    n: int,
)
    requires
        h.wf(),
        h.ptr == 0,
        8 <= m.len() < 65536,
        m.len() % 4 == 0,
        m.len() == bytes::word_at(m, 4) / 65536,
        0 <= n < m.len(),
        n % 4 == 0,
    ensures
        ({
            let next = fed(h, registry, m.take(n), strict);
            &&& next.taken
            &&& next.registry == registry
            &&& next.notes == Seq::<Note>::empty()
            &&& next.handler.wf()
            &&& next.handler.role == h.role
            &&& next.handler.ptr == n
            &&& next.handler.buf == m.take(n) + h.buf.skip(n)
            &&& n < 8 ==> next.handler.state is Header
            &&& n >= 8 ==> next.handler.state is Body && next.handler.len == m.len()
        }),
    decreases n,
{
    if n == 0 {
        lemma_fed_word(h, registry, m.take(0), strict);
        assert(m.take(0) + h.buf.skip(0) =~= h.buf);
    } else {
        let before = m.take(n - 4);
        let x = m.subrange(n - 4, n);
        let b = m.take(n) + h.buf.skip(n);
        let inner = fed(h, registry, before, strict);
        lemma_inner_words(h, registry, m, strict, n - 4);
        assert(before + x =~= m.take(n));
        assert(holds_next(inner.handler, x, b));
        if n == 8 {
            assert(x[0] == m[4] && x[1] == m[5] && x[2] == m[6] && x[3] == m[7]);
        }
        lemma_inner_word(inner.handler, registry, x, b, strict);
        lemma_fed_both(h, registry, before, x, strict);
        assert(Seq::<Note>::empty() + Seq::<Note>::empty() =~= Seq::<Note>::empty());
    }
}

/// A strict forwarder refuses to receive a part of a word, whatever comes before it,
/// and is not changed by it. Another forwarder leaves that part alone. But for that, a
/// forwarder hands what it receives to its handler, and stays as strict as it is.
pub proof fn law_what_is_received_is_fed(
    f: ForwarderModel,
    registry: RegistryModel,
    a: Seq<u8>,
    part: Seq<u8>,
)
    requires
        a.len() % 4 == 0,
        part.len() < 4,
    ensures
        ({
            let (next, after, taken) = f.received(registry, a + part);
            let told = f.received_notes(registry, a + part);
            &&& next.strict == f.strict
            &&& f.strict && part.len() > 0 ==> {
                &&& !taken
                &&& next == f
                &&& after == registry
                &&& told.len() == 0
            }
            &&& !f.strict || part.len() == 0 ==> {
                &&& (next.handler, after, taken) == forward::feed(
                    f.handler,
                    registry,
                    a,
                    f.strict,
                )
                &&& told == forward::feed_notes(f.handler, registry, a, f.strict)
            }
        }),
{
    let all = a + part;
    let whole = fed(f.handler, registry, a, f.strict);
    assert(all.len() % 4 == part.len());
    lemma_received(f, registry, all);
    lemma_fed_both(f.handler, registry, a, part, f.strict);
    lemma_fed_word(whole.handler, whole.registry, part, f.strict);
    assert(whole.notes + Seq::<Note>::empty() =~= whole.notes);
    lemma_fed_is_feed(f.handler, registry, a, f.strict);
}

/// What a forwarder does with what it receives, by what its handler does.
proof fn lemma_received(f: ForwarderModel, registry: RegistryModel, a: Seq<u8>)
    ensures
        ({
            let after = fed(f.handler, registry, a, f.strict);
            let refused = f.strict && a.len() % 4 != 0;
            &&& refused ==> {
                &&& f.received(registry, a) == (f, registry, false)
                &&& f.received_notes(registry, a).len() == 0
            }
            &&& !refused ==> {
                &&& f.received(registry, a) == (
                    ForwarderModel { handler: after.handler, ..f },
                    after.registry,
                    after.taken,
                )
                &&& f.received_notes(registry, a) == after.notes
            }
        }),
{
    reveal(fed);
}

/// What feeding `a` does, part by part.
proof fn lemma_fed_is_feed(h: HandlerModel, registry: RegistryModel, a: Seq<u8>, strict: bool)
    ensures
        ({
            let after = fed(h, registry, a, strict);
            &&& forward::feed(h, registry, a, strict) == (
                after.handler,
                after.registry,
                after.taken,
            )
            &&& forward::feed_notes(h, registry, a, strict) == after.notes
        }),
{
    reveal(fed);
}

/// A forwarder between two messages takes whole messages if and only if each of them
/// can be judged, one after the other. It then has those to send that are passed on, as
/// they came and in their order, behind what it had to send before, and is between two
/// messages again.
pub proof fn law_whole_messages_are_received(
    f: ForwarderModel,
    registry: RegistryModel,
    messages: Seq<Seq<u8>>,
)
    requires
        f.handler.wf(),
        f.handler.ptr == 0,
        forall|i: int| 0 <= i < messages.len() ==> stream::is_message(#[trigger] messages[i]),
    ensures
        ({
            let (next, after, taken) = f.received(registry, messages.flatten());
            let relayed = stream::relay(
                f.handler.role,
                registry,
                f.handler.buf,
                messages,
                f.strict,
            );
            &&& taken <==> relayed is Some
            &&& relayed matches Some(r) ==> {
                &&& after == r.registry
                &&& next.handler.ptr == 0
                &&& next.handler.output == f.handler.output + r.passed
            }
        }),
{
    lemma_whole_words(messages);
    stream::law_messages_keep_their_order(f.handler, registry, messages, f.strict);
}

/// Messages are whole words.
proof fn lemma_whole_words(messages: Seq<Seq<u8>>)
    requires
        forall|i: int| 0 <= i < messages.len() ==> stream::is_message(#[trigger] messages[i]),
    ensures
        messages.flatten().len() % 4 == 0,
    decreases messages.len(),
{
    if messages.len() > 0 {
        let rest = messages.drop_first();
        assert(stream::is_message(messages[0]));
        assert forall|i: int| 0 <= i < rest.len() implies stream::is_message(
            #[trigger] rest[i],
        ) by {
            assert(stream::is_message(messages[i + 1]));
        }
        lemma_whole_words(rest);
    }
}

/// Every well-formed `wl_registry.global` goes through a handler, strict or not, as it
/// came, whatever its handle, its name and its version.
pub proof fn law_every_global_goes_through(
    h: HandlerModel,
    registry: RegistryModel,
    m: Seq<u8>,
    handle: u32,
    name: Seq<u8>,
    padded: int,
    strict: bool,
)
    requires
        h.wf(),
        h.ptr == 0,
        h.role is InBound,
        !name.contains(0),
        vstd::utf8::valid_utf8(name),
        padded % 4 == 0,
        name.len() < padded <= name.len() + 4,
        m.len() == 20 + padded,
        registry.wl_registry.contains(bytes::word_at(m, 0)),
        bytes::word_at(m, 4) == (20 + padded) * 65536,
        bytes::word_at(m, 8) == handle,
        bytes::word_at(m, 12) == name.len() + 1,
        m.subrange(16, 16 + name.len() as int) == name,
        m[16 + name.len() as int] == 0,
    ensures
        ({
            let (next, after, taken) = forward::feed(h, registry, m, strict);
            &&& taken
            &&& next.output == h.output.push(m)
            &&& name == seq![119u8, 108, 95, 115, 101, 97, 116] ==> after.wl_seat_handle == handle
            &&& name == seq![120u8, 100, 103, 95, 119, 109, 95, 98, 97, 115, 101]
                ==> after.xdg_wm_base_handle == handle
        }),
{
    lemma_buffered_global(h.buf, registry, m, handle, name, padded, strict);
    lemma_goes_through(h, registry, m, strict);
    lemma_fed_is_feed(h, registry, m, strict);
}

/// A message that can be judged and is not held back goes through.
proof fn lemma_goes_through(h: HandlerModel, registry: RegistryModel, m: Seq<u8>, strict: bool)
    requires
        h.wf(),
        h.ptr == 0,
        stream::is_message(m),
        handler::judgeable(h.role, registry, stream::buffer_with(h.buf, m), strict),
        handler::judge(h.role, registry, stream::buffer_with(h.buf, m)).1,
    ensures
        ({
            let next = fed(h, registry, m, strict);
            &&& next.taken
            &&& next.handler.output == h.output.push(m)
            &&& next.registry == handler::judge(
                h.role,
                registry,
                stream::buffer_with(h.buf, m),
            ).0
        }),
{
    reveal(fed);
    stream::law_message_is_judged_once(h, registry, m, strict);
}

/// Every well-formed `wl_registry.bind` goes through a handler, strict or not, as it
/// came, whatever its handle, its name, its version and the new id.
pub proof fn law_every_bind_goes_through(
    h: HandlerModel,
    registry: RegistryModel,
    m: Seq<u8>,
    handle: u32,
    name: Seq<u8>,
    padded: int,
    version: u32,
    id: u32,
    strict: bool,
)
    requires
        h.wf(),
        h.ptr == 0,
        h.role is OutBound,
        !name.contains(0),
        vstd::utf8::valid_utf8(name),
        padded % 4 == 0,
        name.len() < padded <= name.len() + 4,
        m.len() == 24 + padded,
        bytes::word_at(m, 0) != registry.wl_display,
        registry.wl_registry.contains(bytes::word_at(m, 0)),
        bytes::word_at(m, 4) == (24 + padded) * 65536,
        bytes::word_at(m, 8) == handle,
        bytes::word_at(m, 12) == name.len() + 1,
        m.subrange(16, 16 + name.len() as int) == name,
        m[16 + name.len() as int] == 0,
        bytes::word_at(m, 16 + padded) == version,
        bytes::word_at(m, 20 + padded) == id,
    ensures
        ({
            let (next, after, taken) = forward::feed(h, registry, m, strict);
            &&& taken
            &&& next.output == h.output.push(m)
            &&& handle == registry.wl_seat_handle ==> after.wl_seat.contains(id)
            &&& handle != registry.wl_seat_handle && handle == registry.xdg_wm_base_handle
                ==> after.xdg_wm_base.contains(id)
        }),
{
    lemma_buffered_bind(h.buf, registry, m, handle, name, padded, version, id, strict);
    lemma_goes_through(h, registry, m, strict);
    lemma_fed_is_feed(h, registry, m, strict);
}

/// The word at byte `i` of a message is in the buffer as it came.
proof fn lemma_buffered_word(held: Seq<u8>, m: Seq<u8>, i: int)
    requires
        held.len() == 65544,
        0 <= i,
        i + 4 <= m.len(),
    ensures
        bytes::word_at(stream::buffer_with(held, m), i) == bytes::word_at(m, i),
{
}

/// The name in a message is in the buffer as it came.
proof fn lemma_buffered_name(held: Seq<u8>, m: Seq<u8>, name: Seq<u8>)
    requires
        held.len() == 65544,
        20 + name.len() <= m.len() < 65536,
    ensures
        ({
            let buf = stream::buffer_with(held, m);
            &&& buf.len() == 65544
            &&& buf.subrange(16, 16 + name.len() as int) == m.subrange(16, 16 + name.len() as int)
            &&& buf[16 + name.len() as int] == m[16 + name.len() as int]
        }),
{
    let buf = stream::buffer_with(held, m);
    assert(buf.subrange(16, 16 + name.len() as int) =~= m.subrange(16, 16 + name.len() as int));
}

/// A message with this size in its header is one on the wire.
proof fn lemma_sized(m: Seq<u8>, size: int)
    requires
        m.len() == size,
        size >= 8,
        size % 4 == 0,
        bytes::word_at(m, 4) == size * 65536,
    ensures
        stream::is_message(m),
        size < 65536,
{
    let metadata = bytes::word_at(m, 4);
    assert(metadata / 65536 < 65536) by (bit_vector);
}

/// A well-formed `wl_registry.global` in the buffer.
proof fn lemma_buffered_global(
    held: Seq<u8>,
    registry: RegistryModel,
    m: Seq<u8>,
    handle: u32,
    name: Seq<u8>,
    padded: int,
    strict: bool,
)
    requires
        held.len() == 65544,
        !name.contains(0),
        vstd::utf8::valid_utf8(name),
        padded % 4 == 0,
        name.len() < padded <= name.len() + 4,
        m.len() == 20 + padded,
        registry.wl_registry.contains(bytes::word_at(m, 0)),
        bytes::word_at(m, 4) == (20 + padded) * 65536,
        bytes::word_at(m, 8) == handle,
        bytes::word_at(m, 12) == name.len() + 1,
        m.subrange(16, 16 + name.len() as int) == name,
        m[16 + name.len() as int] == 0,
    ensures
        ({
            let buf = stream::buffer_with(held, m);
            let (after, pass) = handler::judge(HandlerRole::InBound, registry, buf);
            &&& stream::is_message(m)
            &&& handler::judgeable(HandlerRole::InBound, registry, buf, strict)
            &&& pass
            &&& name == seq![119u8, 108, 95, 115, 101, 97, 116] ==> after.wl_seat_handle == handle
            &&& name == seq![120u8, 100, 103, 95, 119, 109, 95, 98, 97, 115, 101]
                ==> after.xdg_wm_base_handle == handle
        }),
{
    let buf = stream::buffer_with(held, m);
    lemma_sized(m, 20 + padded);
    lemma_buffered_word(held, m, 0);
    lemma_buffered_word(held, m, 4);
    lemma_buffered_word(held, m, 8);
    lemma_buffered_word(held, m, 12);
    lemma_buffered_name(held, m, name);
    wire::law_every_global_is_taken(registry, buf, handle, name, padded, strict);
    assert(seq![119u8, 108, 95, 115, 101, 97, 116].len() == 7);
    assert(seq![120u8, 100, 103, 95, 119, 109, 95, 98, 97, 115, 101].len() == 11);
}

/// A well-formed `wl_registry.bind` in the buffer.
proof fn lemma_buffered_bind(
    held: Seq<u8>,
    registry: RegistryModel,
    m: Seq<u8>,
    handle: u32,
    name: Seq<u8>,
    padded: int,
    version: u32,
    id: u32,
    strict: bool,
)
    requires
        held.len() == 65544,
        !name.contains(0),
        vstd::utf8::valid_utf8(name),
        padded % 4 == 0,
        name.len() < padded <= name.len() + 4,
        m.len() == 24 + padded,
        bytes::word_at(m, 0) != registry.wl_display,
        registry.wl_registry.contains(bytes::word_at(m, 0)),
        bytes::word_at(m, 4) == (24 + padded) * 65536,
        bytes::word_at(m, 8) == handle,
        bytes::word_at(m, 12) == name.len() + 1,
        m.subrange(16, 16 + name.len() as int) == name,
        m[16 + name.len() as int] == 0,
        bytes::word_at(m, 16 + padded) == version,
        bytes::word_at(m, 20 + padded) == id,
    ensures
        ({
            let buf = stream::buffer_with(held, m);
            let (after, pass) = handler::judge(HandlerRole::OutBound, registry, buf);
            &&& stream::is_message(m)
            &&& handler::judgeable(HandlerRole::OutBound, registry, buf, strict)
            &&& pass
            &&& handle == registry.wl_seat_handle ==> after.wl_seat.contains(id)
            &&& handle != registry.wl_seat_handle && handle == registry.xdg_wm_base_handle
                ==> after.xdg_wm_base.contains(id)
        }),
{
    let buf = stream::buffer_with(held, m);
    lemma_sized(m, 24 + padded);
    lemma_buffered_word(held, m, 0);
    lemma_buffered_word(held, m, 4);
    lemma_buffered_word(held, m, 8);
    lemma_buffered_word(held, m, 12);
    lemma_buffered_word(held, m, 16 + padded);
    lemma_buffered_word(held, m, 20 + padded);
    lemma_buffered_name(held, m, name);
    wire::law_every_bind_is_taken(registry, buf, handle, name, padded, version, id, strict);
}

/// A forwarder that has sent what it had to send is otherwise as it was.
pub proof fn law_sending_only_empties_the_output(f: ForwarderModel)
    ensures
        f.drained().strict == f.strict,
        f.drained().handler.role == f.handler.role,
        f.drained().handler.ptr == f.handler.ptr,
        f.drained().handler.len == f.handler.len,
        f.drained().handler.state == f.handler.state,
        f.drained().handler.buf == f.handler.buf,
        f.drained().handler.output.len() == 0,
{
}

/// The relay gives up with an error only after an attempt that failed, receives again
/// only after one that would have blocked, and is done only after one that gave neither
/// bytes nor file descriptors; none of these changes anything. Otherwise it refuses what
/// it cannot take, and sends on what is passed on, if only the file descriptors, which
/// go with it as they came.
pub proof fn law_what_follows_a_receive(
    f: ForwarderModel,
    registry: RegistryModel,
    outcome: Reception,
)
    ensures
        ({
            let (next, after, step) = f.after_receive(registry, outcome);
            &&& step is Fail <==> outcome is Failed
            &&& step is Retry <==> outcome is WouldBlock
            &&& step is Finish <==> (outcome matches Reception::Received { bytes, rights }
                && bytes.len() == 0 && rights.len() == 0)
            &&& step is Fail || step is Retry || step is Finish ==> next == f && after == registry
            &&& step is Send <==> (outcome matches Reception::Received { bytes, rights } && (
            bytes.len() > 0 || rights.len() > 0) && f.received(registry, bytes).2)
            &&& step matches ReceiveStep::Send { response, rights: attached, notes } ==> {
                &&& outcome matches Reception::Received { bytes, rights }
                &&& response == f.received(registry, bytes).0.handler.output.flatten()
                &&& attached == rights
                &&& notes == f.received_notes(registry, bytes)
                &&& next == f.received(registry, bytes).0.drained()
                &&& after == f.received(registry, bytes).1
            }
            &&& step matches ReceiveStep::Refuse { notes } ==> {
                &&& outcome matches Reception::Received { bytes, .. }
                &&& notes == f.received_notes(registry, bytes)
                &&& next == f.received(registry, bytes).0
                &&& after == f.received(registry, bytes).1
            }
        }),
{
}

/// What is received without bytes, but with file descriptors, has just these sent on, and
/// what was still to be sent.
pub proof fn law_file_descriptors_alone_are_sent_on(
    f: ForwarderModel,
    registry: RegistryModel,
    rights: Seq<i32>,
)
    requires
        rights.len() > 0,
    ensures
        ({
            let nothing = Seq::<u8>::empty();
            let (next, after, step) = f.after_receive(
                registry,
                (Reception::Received { bytes: nothing, rights }),
            );
            &&& after == registry
            &&& next == f.drained()
            &&& step matches ReceiveStep::Send { response, rights: attached, notes } && response
                == f.handler.output.flatten() && attached == rights && notes.len() == 0
        }),
{
    let nothing = Seq::<u8>::empty();
    law_bytes_are_fed_by_words(f.handler, registry, nothing, f.strict);
}

/// Whole messages that can all be judged are answered by sending those that are passed
/// on, byte for byte and in their order.
pub proof fn law_whole_messages_are_sent_on(
    f: ForwarderModel,
    registry: RegistryModel,
    messages: Seq<Seq<u8>>,
    rights: Seq<i32>,
)
    requires
        f.handler.wf(),
        f.handler.ptr == 0,
        f.handler.output.len() == 0,
        messages.flatten().len() > 0,
        forall|i: int| 0 <= i < messages.len() ==> stream::is_message(#[trigger] messages[i]),
    ensures
        ({
            let (_, after, step) = f.after_receive(
                registry,
                (Reception::Received { bytes: messages.flatten(), rights }),
            );
            match stream::relay(f.handler.role, registry, f.handler.buf, messages, f.strict) {
                Some(r) => {
                    &&& after == r.registry
                    &&& step matches ReceiveStep::Send { response, rights: attached, .. }
                        && response == r.passed.flatten() && attached == rights
                },
                None => step is Refuse,
            }
        }),
{
    law_whole_messages_are_received(f, registry, messages);
    if let Some(r) = stream::relay(f.handler.role, registry, f.handler.buf, messages, f.strict) {
        assert(f.handler.output + r.passed =~= r.passed);
    }
}

/// What is said of outcomes and actions is what they hold.
pub proof fn law_views_are_of_what_is_held(
    outcome: ReceiveOutcome,
    received: ReceiveAction,
    sent: SendAction,
)
    ensures
        outcome is WouldBlock <==> outcome@ is WouldBlock,
        outcome is Failed <==> outcome@ is Failed,
        outcome matches ReceiveOutcome::Received { bytes, rights } ==> outcome@
            == (Reception::Received { bytes: bytes@, rights: rights@ }),
        received is Retry <==> received@ is Retry,
        received is Fail <==> received@ is Fail,
        received is Finish <==> received@ is Finish,
        received matches ReceiveAction::Refuse { notes } ==> received@ == (ReceiveStep::Refuse {
            notes: notes@,
        }),
        received matches ReceiveAction::Send { response, rights, notes } ==> received@
            == (ReceiveStep::Send { response: response@, rights: rights@, notes: notes@ }),
        sent matches SendAction::Send { response, rights, close } ==> sent@ == (SendStep::Send {
            response: response@,
            rights: rights@,
            close: close@,
        }),
        sent matches SendAction::Receive { close } ==> sent@ == (SendStep::Receive {
            close: close@,
        }),
        sent matches SendAction::Fail { close } ==> sent@ == (SendStep::Fail { close: close@ }),
{
}

} // verus!
