//! What the bytes of a message say.

use vstd::prelude::*;

#[allow(unused_imports)]
use crate::{bytes, handler, message};
#[allow(unused_imports)]
use crate::handler::HandlerRole;
#[allow(unused_imports)]
use crate::registry::{Event, Interface, RegistryModel, Request};

verus! {

/// A word has its four bytes as digits to the base 256, the first of them the
/// lowest on a little-endian machine and the highest on a big-endian one.
pub proof fn law_word_has_its_bytes(s: Seq<u8>, i: int)
    ensures
        ({
            let w = bytes::word_at(s, i);
            match vstd::endian::endianness() {
                vstd::endian::Endian::Little => {
                    &&& w % 256 == s[i]
                    &&& w / 256 % 256 == s[i + 1]
                    &&& w / 65536 % 256 == s[i + 2]
                    &&& w / 16777216 == s[i + 3]
                },
                vstd::endian::Endian::Big => {
                    &&& w % 256 == s[i + 3]
                    &&& w / 256 % 256 == s[i + 2]
                    &&& w / 65536 % 256 == s[i + 1]
                    &&& w / 16777216 == s[i]
                },
            }
        }),
{
    let (a, b, c, d) = (s[i], s[i + 1], s[i + 2], s[i + 3]);
    lemma_digits(a, b, c, d);
    lemma_digits(d, c, b, a);
}

/// Four bytes as digits to the base 256.
proof fn lemma_digits(a: u8, b: u8, c: u8, d: u8)
    ensures
        ({
            let w = (a + b * 0x100 + c * 0x1_0000 + d * 0x100_0000) as u32;
            &&& w % 256 == a
            &&& w / 256 % 256 == b
            &&& w / 65536 % 256 == c
            &&& w / 16777216 == d
        }),
{
    let w = (a + b * 0x100 + c * 0x1_0000 + d * 0x100_0000) as u32;
    assert(w % 256 == a && w / 256 % 256 == b && w / 65536 % 256 == c && w / 16777216 == d)
        by (bit_vector)
        requires
            w == (a + b * 0x100 + c * 0x1_0000 + d * 0x100_0000) as u32,
    ;
}

/// A header is two words: the object id, and the size and the opcode as the upper
/// and the lower half of one word.
pub proof fn law_header_has_two_words(m: Seq<u8>)
    ensures
        message::object_id(m) == bytes::word_at(m, 0),
        message::msg_size(m) * 65536 + message::opcode(m) == bytes::word_at(m, 4),
        message::msg_size(m) < 65536,
        message::opcode(m) < 65536,
{
    let w = bytes::word_at(m, 4);
    assert(w / 65536 < 65536) by (bit_vector);
}

/// What stands before the first NUL is NUL-free and followed by a NUL, and there is
/// such a part of every string that holds a NUL.
pub proof fn law_text_ends_at_its_first_nul(s: Seq<u8>, text: Seq<u8>)
    ensures
        bytes::until_nul(s) == Some(text) <==> {
            &&& !text.contains(0)
            &&& text.push(0).is_prefix_of(s)
        },
        bytes::until_nul(s) is None <==> !s.contains(0),
{
    if bytes::until_nul(s) is Some {
        let n = choose|n: int| bytes::first_nul_at(s, n);
        assert(bytes::first_nul_at(s, n));
        assert(s.contains(s[n]));
        let t = s.take(n);
        assert(forall|i: int| 0 <= i < n ==> t[i] == s[i]);
        assert(!t.contains(0));
        assert(t.push(0) =~= s.take(n + 1));
    }
    if s.contains(0) {
        lemma_first_nul_exists(s, s.len() as int);
    }
    if !text.contains(0) && text.push(0).is_prefix_of(s) {
        let n = text.len() as int;
        let p = text.push(0);
        assert(p =~= s.take(n + 1));
        assert(s[n] == p[n]);
        assert forall|i: int| 0 <= i < n implies s[i] != 0 by {
            assert(s[i] == p[i]);
            assert(text.contains(text[i]));
        }
        assert(bytes::first_nul_at(s, n));
        let k = choose|k: int| bytes::first_nul_at(s, k);
        assert(bytes::first_nul_at(s, k));
        assert(k == n);
        assert(s.take(n) =~= text);
    }
}

/// A string with a NUL has a first one.
proof fn lemma_first_nul_exists(s: Seq<u8>, n: int)
    requires
        0 <= n <= s.len(),
        exists|i: int| 0 <= i < n && s[i] == 0,
    ensures
        exists|k: int| bytes::first_nul_at(s, k),
    decreases n,
{
    if exists|i: int| 0 <= i < n - 1 && s[i] == 0 {
        lemma_first_nul_exists(s, n - 1);
    } else {
        assert(bytes::first_nul_at(s, n - 1));
    }
}

/// Which request a client's message makes is said by the object that it is about
/// and by its opcode, and the object that it makes by the word behind the header.
pub proof fn law_requests_by_object_and_opcode(registry: RegistryModel, m: Seq<u8>)
    ensures
        ({
            let o = bytes::word_at(m, 0);
            let op = bytes::word_at(m, 4) % 65536;
            let a = bytes::word_at(m, 8);
            let request = message::request_of(registry, m);
            let display = o == registry.wl_display;
            let known = display || registry.wl_registry.contains(o);
            let seat = !known && registry.wl_seat.contains(o);
            let wm_base = !known && !seat && registry.xdg_wm_base.contains(o);
            let surface = !known && !seat && !wm_base && registry.xdg_surface.contains(o);
            &&& request == (Request::GetRegistry { id: a }) <==> display && op == 1
            &&& request == (Request::GetPointer { id: a }) <==> seat && op == 0
            &&& request == (Request::GetKeyboard { id: a }) <==> seat && op == 1
            &&& request == (Request::GetXdgSurface { id: a }) <==> wm_base && op == 2
            &&& request == (Request::GetToplevel { id: a }) <==> surface && op == 1
            &&& request is Bind <==> known && !display && op == 0
            &&& request is Bind ==> request->handle == a
            &&& !(display && op == 1) && !(known && !display && op == 0) && !(seat && op == 0) && !(
            seat && op == 1) && !(wm_base && op == 2) && !(surface && op == 1) ==> request is Other
        }),
{
}

/// The size that a request is held to is that of a header and one word, if it makes
/// an object of one of the kinds that have no further arguments; others are held to
/// none. A configure event is held to its header, three words and its states.
pub proof fn law_sizes_that_are_asked_for(request: Request, event: Event, m: Seq<u8>)
    ensures
        ({
            let size = bytes::word_at(m, 4) / 65536;
            &&& message::request_sized(request, m) <==> size == 12 || request is Bind
                || request is GetXdgSurface || request is Other
            &&& message::event_sized(event, m) <==> size == 20 + bytes::word_at(m, 16)
                || event is Global || event is KeyboardEnter || event is KeyboardLeave
                || event is Other
        }),
{
}

/// Which event a compositor's message sends is said by the object that it is about
/// and by its opcode.
pub proof fn law_events_by_object_and_opcode(registry: RegistryModel, m: Seq<u8>)
    ensures
        ({
            let o = bytes::word_at(m, 0);
            let op = bytes::word_at(m, 4) % 65536;
            let event = message::event_of(registry, m);
            let known = registry.wl_registry.contains(o);
            let keyboard = !known && !registry.wl_pointer.contains(o)
                && registry.wl_keyboard.contains(o);
            let toplevel = !known && !registry.wl_pointer.contains(o)
                && !registry.wl_keyboard.contains(o) && registry.xdg_toplevel.contains_key(o);
            &&& event is Global <==> known && op == 0
            &&& event is Global ==> event->handle == bytes::word_at(m, 8)
            &&& event is KeyboardEnter <==> keyboard && op == 1
            &&& event is KeyboardLeave <==> keyboard && op == 2
            &&& event is Configure <==> toplevel && op == 0
            &&& event is Configure ==> {
                &&& event->toplevel == o
                &&& event->width == bytes::word_at(m, 8) as i32
                &&& event->height == bytes::word_at(m, 12) as i32
            }
            &&& event is Configure ==> (event->activated <==> exists|p: int|
                20 <= p && p + 4 <= bytes::word_at(m, 4) / 65536 && p % 4 == 0
                    && #[trigger] bytes::word_at(m, p) == 4)
        }),
{
    law_activated_by_any_state_word(m);
}

/// A window is named as activated wherever in the states the entry stands, and
/// only then.
pub proof fn law_activated_by_any_state_word(m: Seq<u8>)
    ensures
        message::is_activated(m) <==> exists|p: int|
            20 <= p && p + 4 <= bytes::word_at(m, 4) / 65536 && p % 4 == 0
                && #[trigger] bytes::word_at(m, p) == 4,
{
    if message::is_activated(m) {
        let i = choose|i: int|
            0 <= i && 24 + 4 * i <= message::msg_size(m) && #[trigger] message::window_state(m, i)
                == message::STATE_ACTIVATED;
        assert(bytes::word_at(m, 20 + 4 * i) == 4);
    }
    if exists|p: int|
        20 <= p && p + 4 <= bytes::word_at(m, 4) / 65536 && p % 4 == 0 && #[trigger] bytes::word_at(
            m,
            p,
        ) == 4 {
        let p = choose|p: int|
            20 <= p && p + 4 <= bytes::word_at(m, 4) / 65536 && p % 4 == 0
                && #[trigger] bytes::word_at(m, p) == 4;
        let i = (p - 20) / 4;
        assert(p == 20 + 4 * i);
        assert(message::window_state(m, i) == message::STATE_ACTIVATED);
    }
}

/// A configure event with a list of states names the window as activated if and
/// only if the list holds 4. So neither the order of the entries nor further
/// entries undo it.
pub proof fn law_activated_by_a_list_of_states(m: Seq<u8>, states: Seq<u32>)
    requires
        bytes::word_at(m, 4) / 65536 == 20 + 4 * states.len(),
        forall|i: int|
            0 <= i < states.len() ==> #[trigger] states[i] == bytes::word_at(m, 20 + 4 * i),
    ensures
        message::is_activated(m) <==> states.contains(4),
{
    law_activated_by_any_state_word(m);
    if states.contains(4) {
        let i = choose|i: int| 0 <= i < states.len() && states[i] == 4;
        assert(bytes::word_at(m, 20 + 4 * i) == 4);
    }
    if message::is_activated(m) {
        let p = choose|p: int|
            20 <= p && p + 4 <= bytes::word_at(m, 4) / 65536 && p % 4 == 0
                && #[trigger] bytes::word_at(m, p) == 4;
        let i = (p - 20) / 4;
        assert(p == 20 + 4 * i);
        assert(states[i] == 4);
    }
}

/// A configure event that has all the states of another is activated if the other
/// is, in whatever order and among whatever further states they stand.
pub proof fn law_more_states_do_not_undo_activation(
    m1: Seq<u8>,
    states1: Seq<u32>,
    m2: Seq<u8>,
    states2: Seq<u32>,
)
    requires
        bytes::word_at(m1, 4) / 65536 == 20 + 4 * states1.len(),
        forall|i: int|
            0 <= i < states1.len() ==> #[trigger] states1[i] == bytes::word_at(m1, 20 + 4 * i),
        bytes::word_at(m2, 4) / 65536 == 20 + 4 * states2.len(),
        forall|i: int|
            0 <= i < states2.len() ==> #[trigger] states2[i] == bytes::word_at(m2, 20 + 4 * i),
        forall|s: u32| #[trigger] states1.contains(s) ==> states2.contains(s),
    ensures
        message::is_activated(m1) ==> message::is_activated(m2),
{
    law_activated_by_a_list_of_states(m1, states1);
    law_activated_by_a_list_of_states(m2, states2);
}

/// The bytes of the name "wl_seat".
proof fn lemma_wl_seat()
    ensures
        vstd::utf8::encode_utf8("wl_seat"@) == seq![119u8, 108, 95, 115, 101, 97, 116],
{
    reveal_strlit("wl_seat");
    vstd::utf8::is_ascii_chars_encode_utf8("wl_seat"@);
    let e = vstd::utf8::encode_utf8("wl_seat"@);
    assert("wl_seat"@[0] as u8 == e[0]);
    assert("wl_seat"@[1] as u8 == e[1]);
    assert("wl_seat"@[2] as u8 == e[2]);
    assert("wl_seat"@[3] as u8 == e[3]);
    assert("wl_seat"@[4] as u8 == e[4]);
    assert("wl_seat"@[5] as u8 == e[5]);
    assert("wl_seat"@[6] as u8 == e[6]);
    assert(e =~= seq![119u8, 108, 95, 115, 101, 97, 116]);
}

/// The bytes of the name "xdg_wm_base".
proof fn lemma_xdg_wm_base()
    ensures
        vstd::utf8::encode_utf8("xdg_wm_base"@) == seq![
            120u8,
            100,
            103,
            95,
            119,
            109,
            95,
            98,
            97,
            115,
            101,
        ],
{
    reveal_strlit("xdg_wm_base");
    vstd::utf8::is_ascii_chars_encode_utf8("xdg_wm_base"@);
    let e = vstd::utf8::encode_utf8("xdg_wm_base"@);
    assert("xdg_wm_base"@[0] as u8 == e[0]);
    assert("xdg_wm_base"@[1] as u8 == e[1]);
    assert("xdg_wm_base"@[2] as u8 == e[2]);
    assert("xdg_wm_base"@[3] as u8 == e[3]);
    assert("xdg_wm_base"@[4] as u8 == e[4]);
    assert("xdg_wm_base"@[5] as u8 == e[5]);
    assert("xdg_wm_base"@[6] as u8 == e[6]);
    assert("xdg_wm_base"@[7] as u8 == e[7]);
    assert("xdg_wm_base"@[8] as u8 == e[8]);
    assert("xdg_wm_base"@[9] as u8 == e[9]);
    assert("xdg_wm_base"@[10] as u8 == e[10]);
    assert(e =~= seq![120u8, 100, 103, 95, 119, 109, 95, 98, 97, 115, 101]);
}

/// The string argument of a message, and what follows from it.
proof fn lemma_named(m: Seq<u8>, name: Seq<u8>, padded: int, tail: int)
    requires
        m.len() == 65544,
        !name.contains(0),
        vstd::utf8::valid_utf8(name),
        padded % 4 == 0,
        name.len() < padded <= name.len() + 4,
        tail == 4 || tail == 8,
        bytes::word_at(m, 4) == (16 + padded + tail) * 65536,
        bytes::word_at(m, 12) == name.len() + 1,
        m.subrange(16, 16 + name.len() as int) == name,
        m[16 + name.len() as int] == 0,
    ensures
        message::has_name(m, tail),
        message::name_len(m) == padded,
        bytes::until_nul(message::name_field(m)) == Some(name),
{
    let field = message::name_field(m);
    let n = name.len() as int;
    assert(message::name_len(m) == padded);
    assert(name.push(0) =~= field.take(n + 1)) by {
        assert forall|i: int| 0 <= i < n implies name[i] == field[i] by {
            assert(m.subrange(16, 16 + n)[i] == m[16 + i]);
        }
    }
    assert(name.push(0).is_prefix_of(field)) by {
        assert(forall|i: int| 0 <= i < n + 1 ==> name.push(0)[i] == field[i]);
    }
    law_text_ends_at_its_first_nul(field, name);
}

/// Every well-formed `wl_registry.global` is taken, whatever the length of its
/// name, and read for what it holds: the handle, and the interface by its name. The
/// handle of a seat or of a window manager is recorded, and nothing else changes.
pub proof fn law_every_global_is_taken(
    registry: RegistryModel,
    m: Seq<u8>,
    handle: u32,
    name: Seq<u8>,
    padded: int,
    strict: bool,
)
    requires
        m.len() == 65544,
        registry.wl_registry.contains(bytes::word_at(m, 0)),
        !name.contains(0),
        vstd::utf8::valid_utf8(name),
        padded % 4 == 0,
        name.len() < padded <= name.len() + 4,
        bytes::word_at(m, 4) == (20 + padded) * 65536,
        bytes::word_at(m, 8) == handle,
        bytes::word_at(m, 12) == name.len() + 1,
        m.subrange(16, 16 + name.len() as int) == name,
        m[16 + name.len() as int] == 0,
    ensures
        handler::judgeable(HandlerRole::InBound, registry, m, strict),
        bytes::until_nul(message::name_field(m)) == Some(name),
        ({
            let seat = seq![119u8, 108, 95, 115, 101, 97, 116];
            let wm_base = seq![120u8, 100, 103, 95, 119, 109, 95, 98, 97, 115, 101];
            let (after, pass) = handler::judge(HandlerRole::InBound, registry, m);
            &&& message::event_of(registry, m) == (Event::Global {
                handle,
                interface: if name == seat {
                    Interface::WlSeat
                } else if name == wm_base {
                    Interface::XdgWmBase
                } else {
                    Interface::Other
                },
            })
            &&& pass
            &&& after == if name == seat {
                RegistryModel { wl_seat_handle: handle, ..registry }
            } else if name == wm_base {
                RegistryModel { xdg_wm_base_handle: handle, ..registry }
            } else {
                registry
            }
        }),
{
    lemma_named(m, name, padded, 4);
    lemma_wl_seat();
    lemma_xdg_wm_base();
}

/// Every well-formed `wl_registry.bind` is taken, whatever the length of its name and
/// whatever its version, and read for what it holds: the handle, and the new id in its
/// last word. The id is recorded by the handle, whatever the name, and nothing else
/// changes.
pub proof fn law_every_bind_is_taken(
    registry: RegistryModel,
    m: Seq<u8>,
    handle: u32,
    name: Seq<u8>,
    padded: int,
    version: u32,
    id: u32,
    strict: bool,
)
    requires
        m.len() == 65544,
        bytes::word_at(m, 0) != registry.wl_display,
        registry.wl_registry.contains(bytes::word_at(m, 0)),
        !name.contains(0),
        vstd::utf8::valid_utf8(name),
        padded % 4 == 0,
        name.len() < padded <= name.len() + 4,
        bytes::word_at(m, 4) == (24 + padded) * 65536,
        bytes::word_at(m, 8) == handle,
        bytes::word_at(m, 12) == name.len() + 1,
        m.subrange(16, 16 + name.len() as int) == name,
        m[16 + name.len() as int] == 0,
        bytes::word_at(m, 16 + padded) == version,
        bytes::word_at(m, 20 + padded) == id,
    ensures
        handler::judgeable(HandlerRole::OutBound, registry, m, strict),
        bytes::until_nul(message::name_field(m)) == Some(name),
        ({
            let (after, pass) = handler::judge(HandlerRole::OutBound, registry, m);
            &&& message::request_of(registry, m) == (Request::Bind { handle, id })
            &&& pass
            &&& after == if handle == registry.wl_seat_handle {
                RegistryModel { wl_seat: registry.wl_seat.insert(id), ..registry }
            } else if handle == registry.xdg_wm_base_handle {
                RegistryModel { xdg_wm_base: registry.xdg_wm_base.insert(id), ..registry }
            } else {
                registry
            }
        }),
{
    lemma_named(m, name, padded, 8);
}

/// A message has a string argument before its last `tail` bytes if and only if its
/// length rounds up to what is there, and the string ends with a NUL and is UTF-8.
pub proof fn law_string_argument_by_its_bytes(m: Seq<u8>, tail: int)
    requires
        m.len() == 65544,
        tail == 4 || tail == 8,
    ensures
        message::has_name(m, tail) <==> {
            let there = bytes::word_at(m, 4) / 65536 - 16 - tail;
            let told = bytes::word_at(m, 12);
            &&& told <= there < told + 4
            &&& there % 4 == 0
            &&& exists|n: int|
                16 <= n < 16 + there && #[trigger] m[n] == 0 && (forall|j: int|
                    16 <= j < n ==> m[j] != 0) && vstd::utf8::valid_utf8(m.subrange(16, n))
        },
        message::has_name(m, tail) ==> message::name_len(m) == bytes::word_at(m, 4) / 65536 - 16
            - tail,
{
    let there = bytes::word_at(m, 4) / 65536 - 16 - tail;
    let told = bytes::word_at(m, 12);
    let field = message::name_field(m);
    assert(bytes::word_at(m, 4) / 65536 < 65536) by {
        law_header_has_two_words(m);
    }
    if message::name_len(m) == there {
        assert(told <= there < told + 4);
        assert(there % 4 == 0);
        if bytes::until_nul(field) is Some {
            let k = choose|k: int| bytes::first_nul_at(field, k);
            assert(bytes::first_nul_at(field, k));
            assert(m[16 + k] == field[k]);
            assert forall|j: int| 16 <= j < 16 + k implies m[j] != 0 by {
                assert(field[j - 16] == m[j]);
            }
            assert(field.take(k) =~= m.subrange(16, 16 + k));
        }
        if exists|n: int|
            16 <= n < 16 + there && #[trigger] m[n] == 0 && (forall|j: int|
                16 <= j < n ==> m[j] != 0) && vstd::utf8::valid_utf8(m.subrange(16, n)) {
            let n = choose|n: int|
                16 <= n < 16 + there && #[trigger] m[n] == 0 && (forall|j: int|
                    16 <= j < n ==> m[j] != 0) && vstd::utf8::valid_utf8(m.subrange(16, n));
            assert(field[n - 16] == m[n]);
            assert(bytes::first_nul_at(field, n - 16));
            let k = choose|k: int| bytes::first_nul_at(field, k);
            assert(bytes::first_nul_at(field, k));
            assert(k == n - 16);
            assert(field.take(k) =~= m.subrange(16, n));
        }
    }
}

/// Which interface a `wl_registry.global` announces is said by the bytes of its
/// string up to the first NUL.
pub proof fn law_interface_by_its_bytes(m: Seq<u8>)
    requires
        m.len() == 65544,
        message::has_name(m, 4),
    ensures
        message::interface_of(m) is WlSeat <==> m.subrange(16, 24) == seq![
            119u8,
            108,
            95,
            115,
            101,
            97,
            116,
            0,
        ],
        message::interface_of(m) is XdgWmBase <==> m.subrange(16, 28) == seq![
            120u8,
            100,
            103,
            95,
            119,
            109,
            95,
            98,
            97,
            115,
            101,
            0,
        ],
{
    lemma_wl_seat();
    lemma_xdg_wm_base();
    lemma_name_by_its_bytes(m, seq![119u8, 108, 95, 115, 101, 97, 116]);
    lemma_name_by_its_bytes(m, seq![120u8, 100, 103, 95, 119, 109, 95, 98, 97, 115, 101]);
    assert(seq![119u8, 108, 95, 115, 101, 97, 116].push(0) =~= seq![
        119u8,
        108,
        95,
        115,
        101,
        97,
        116,
        0,
    ]);
    assert(seq![120u8, 100, 103, 95, 119, 109, 95, 98, 97, 115, 101].push(0) =~= seq![
        120u8,
        100,
        103,
        95,
        119,
        109,
        95,
        98,
        97,
        115,
        101,
        0,
    ]);
    if m.subrange(16, 24) == seq![119u8, 108, 95, 115, 101, 97, 116, 0] && m.subrange(16, 28)
        == seq![120u8, 100, 103, 95, 119, 109, 95, 98, 97, 115, 101, 0] {
        assert(m.subrange(16, 24)[0] == m.subrange(16, 28)[0]);
        assert(false);
    }
}

/// The string of a `wl_registry.global` is `name` if and only if `name` and a NUL
/// are what it starts with.
proof fn lemma_name_by_its_bytes(m: Seq<u8>, name: Seq<u8>)
    requires
        m.len() == 65544,
        message::has_name(m, 4),
        !name.contains(0),
        name.len() < 100,
    ensures
        bytes::until_nul(message::name_field(m)) == Some(name) <==> m.subrange(
            16,
            17 + name.len() as int,
        ) == name.push(0),
{
    law_string_argument_by_its_bytes(m, 4);
    law_header_has_two_words(m);
    let field = message::name_field(m);
    let n = name.len() as int;
    law_text_ends_at_its_first_nul(field, name);
    let start = m.subrange(16, 17 + n);
    if name.push(0).is_prefix_of(field) {
        assert(start =~= name.push(0)) by {
            assert forall|i: int| 0 <= i < n + 1 implies start[i] == name.push(0)[i] by {
                assert(field[i] == name.push(0)[i]);
            }
        }
    }
    if start == name.push(0) {
        let k = choose|k: int| bytes::first_nul_at(field, k);
        assert(bytes::first_nul_at(field, k));
        if k < n {
            assert(start[k] == field[k]);
            assert(name[k] == 0);
            assert(name.contains(name[k]));
        }
        assert(n < field.len());
        assert(name.push(0) =~= field.take(n + 1)) by {
            assert forall|i: int| 0 <= i < n + 1 implies field[i] == name.push(0)[i] by {
                assert(start[i] == m[16 + i]);
            }
        }
    }
}

} // verus!
