//! What a message does to the registry, and when the client does not see it.

use vstd::prelude::*;

#[allow(unused_imports)]
use crate::{bytes, handler, message, registry};
#[allow(unused_imports)]
use crate::handler::HandlerRole;
#[allow(unused_imports)]
use crate::laws::wire;
#[allow(unused_imports)]
use crate::registry::{Event, Interface, Note, RegistryModel, Request};

verus! {

/// A new connection has a display, object 1, and nothing else.
pub proof fn law_only_the_display_is_there_at_first(x: u32)
    ensures
        ({
            let r = RegistryModel::initial();
            &&& r.wl_display == 1
            &&& r.wl_seat_handle == 0
            &&& r.xdg_wm_base_handle == 0
            &&& !r.wl_registry.contains(x)
            &&& !r.wl_seat.contains(x)
            &&& !r.xdg_wm_base.contains(x)
            &&& !r.xdg_surface.contains(x)
            &&& !r.xdg_toplevel.contains_key(x)
            &&& !r.wl_pointer.contains(x)
            &&& !r.wl_keyboard.contains(x)
        }),
{
}

/// A request adds the one object that it makes, whatever the registry holds, and
/// takes nothing away. A window that is made has not been activated.
pub proof fn law_a_request_adds_one_object(r: RegistryModel, request: Request, x: u32)
    ensures
        ({
            let after = r.after_request(request);
            let seat = request matches Request::Bind { handle, id } && handle == r.wl_seat_handle
                && id == x;
            let wm_base = request matches Request::Bind { handle, id } && handle
                != r.wl_seat_handle && handle == r.xdg_wm_base_handle && id == x;
            let toplevel = request == (Request::GetToplevel { id: x });
            &&& after.wl_registry.contains(x) <==> r.wl_registry.contains(x) || request == (
            Request::GetRegistry { id: x })
            &&& after.wl_seat.contains(x) <==> r.wl_seat.contains(x) || seat
            &&& after.xdg_wm_base.contains(x) <==> r.xdg_wm_base.contains(x) || wm_base
            &&& after.xdg_surface.contains(x) <==> r.xdg_surface.contains(x) || request == (
            Request::GetXdgSurface { id: x })
            &&& after.wl_pointer.contains(x) <==> r.wl_pointer.contains(x) || request == (
            Request::GetPointer { id: x })
            &&& after.wl_keyboard.contains(x) <==> r.wl_keyboard.contains(x) || request == (
            Request::GetKeyboard { id: x })
            &&& after.xdg_toplevel.contains_key(x) <==> r.xdg_toplevel.contains_key(x) || toplevel
            &&& toplevel ==> !after.xdg_toplevel[x]
            &&& !toplevel ==> after.xdg_toplevel[x] == r.xdg_toplevel[x]
            &&& after.wl_display == r.wl_display
            &&& after.wl_seat_handle == r.wl_seat_handle
            &&& after.xdg_wm_base_handle == r.xdg_wm_base_handle
        }),
{
}

/// The announcement of a seat or of a window manager changes its handle, an activation
/// is remembered of its window, and an event changes nothing else, whatever the registry
/// holds.
pub proof fn law_what_an_event_changes(r: RegistryModel, event: Event, x: u32)
    ensures
        ({
            let after = r.after_event(event);
            let seat = event matches Event::Global { interface, .. } && interface is WlSeat;
            let wm_base = event matches Event::Global { interface, .. } && interface is XdgWmBase;
            let activation = event matches Event::Configure { toplevel, activated, .. } && toplevel
                == x && activated;
            &&& after.wl_display == r.wl_display
            &&& after.wl_registry == r.wl_registry
            &&& after.wl_seat == r.wl_seat
            &&& after.xdg_wm_base == r.xdg_wm_base
            &&& after.xdg_surface == r.xdg_surface
            &&& after.wl_pointer == r.wl_pointer
            &&& after.wl_keyboard == r.wl_keyboard
            &&& seat ==> after.wl_seat_handle == event->handle
            &&& !seat ==> after.wl_seat_handle == r.wl_seat_handle
            &&& wm_base ==> after.xdg_wm_base_handle == event->handle
            &&& !wm_base ==> after.xdg_wm_base_handle == r.xdg_wm_base_handle
            &&& after.xdg_toplevel.contains_key(x) <==> r.xdg_toplevel.contains_key(x)
                || activation
            &&& activation ==> after.xdg_toplevel[x]
            &&& !activation ==> after.xdg_toplevel[x] == r.xdg_toplevel[x]
        }),
{
}

/// Whatever the registry holds, the client does not see the loss of the keyboard
/// focus, nor the deactivation of a window that has been activated, and sees all
/// else.
pub proof fn law_which_events_are_blocked(r: RegistryModel, event: Event)
    ensures
        event is KeyboardLeave ==> r.blocks(event),
        event matches Event::Configure { toplevel, activated, .. } ==> (r.blocks(event)
            <==> !activated && r.xdg_toplevel.contains_key(toplevel) && r.xdg_toplevel[toplevel]),
        event is Global || event is KeyboardEnter || event is Other ==> !r.blocks(event),
{
}

/// What is told of a request names the object that it makes; of a request that
/// makes none nothing is told.
pub proof fn law_what_is_told_of_a_request(r: RegistryModel, request: Request, x: u32)
    ensures
        ({
            let note = r.request_note(request);
            &&& note == Some(Note::Registry { id: x }) <==> request == (Request::GetRegistry {
                id: x,
            })
            &&& note == Some(Note::Pointer { id: x }) <==> request == (Request::GetPointer { id: x })
            &&& note == Some(Note::Keyboard { id: x }) <==> request == (Request::GetKeyboard {
                id: x,
            })
            &&& note == Some(Note::XdgSurface { id: x }) <==> request == (Request::GetXdgSurface {
                id: x,
            })
            &&& note == Some(Note::Toplevel { id: x }) <==> request == (Request::GetToplevel {
                id: x,
            })
            &&& note == Some(Note::Seat { id: x }) <==> request == (Request::Bind {
                handle: r.wl_seat_handle,
                id: x,
            })
            &&& note == Some(Note::WmBase { id: x }) <==> r.wl_seat_handle != r.xdg_wm_base_handle
                && request == (Request::Bind { handle: r.xdg_wm_base_handle, id: x })
            &&& request is Other ==> note is None
            &&& (request matches Request::Bind { handle, .. } && handle != r.wl_seat_handle
                && handle != r.xdg_wm_base_handle) ==> note is None
        }),
{
}

/// A change of the keyboard focus and the configuration of a window are told of,
/// and no other event.
pub proof fn law_what_is_told_of_an_event(event: Event, width: i32, height: i32, activated: bool)
    ensures
        registry::event_note(event) == Some(Note::KeyboardEnter) <==> event is KeyboardEnter,
        registry::event_note(event) == Some(Note::KeyboardLeave) <==> event is KeyboardLeave,
        registry::event_note(event) == Some(Note::Configure { width, height, activated })
            <==> (event matches Event::Configure { width: w, height: h, activated: a, .. } && w
            == width && h == height && a == activated),
        registry::event_note(event) is None <==> event is Global || event is Other,
{
}

/// A message is held back only if its bytes say so: it comes from the compositor,
/// and either its object is a keyboard and its opcode 2, or its object is a window
/// that has been activated, its opcode 0, and no state word of it 4. And every such
/// message is held back, unless a registry or a pointer has the same id.
pub proof fn law_held_back_by_its_bytes(role: HandlerRole, r: RegistryModel, m: Seq<u8>)
    ensures
        ({
            let o = bytes::word_at(m, 0);
            let size = bytes::word_at(m, 4) / 65536;
            let op = bytes::word_at(m, 4) % 65536;
            !handler::judge(role, r, m).1 <==> {
                &&& role is InBound
                &&& !r.wl_registry.contains(o)
                &&& !r.wl_pointer.contains(o)
                &&& if r.wl_keyboard.contains(o) {
                    op == 2
                } else {
                    &&& r.xdg_toplevel.contains_key(o)
                    &&& r.xdg_toplevel[o]
                    &&& op == 0
                    &&& forall|p: int|
                        20 <= p && p + 4 <= size && p % 4 == 0 ==> #[trigger] bytes::word_at(m, p)
                            != 4
                }
            }
        }),
{
    wire::law_activated_by_any_state_word(m);
}

/// What a client's message adds to the registry is said by its bytes, whatever the
/// client has bound before: its object and its opcode say what is made, and a word
/// of it the id.
pub proof fn law_objects_are_made_by_bytes(r: RegistryModel, m: Seq<u8>, strict: bool, x: u32)
    requires
        m.len() == 65544,
        handler::judgeable(HandlerRole::OutBound, r, m, strict),
    ensures
        ({
            let o = bytes::word_at(m, 0);
            let size = bytes::word_at(m, 4) / 65536;
            let op = bytes::word_at(m, 4) % 65536;
            let a = bytes::word_at(m, 8);
            let after = handler::judge(HandlerRole::OutBound, r, m).0;
            let display = o == r.wl_display;
            let known = display || r.wl_registry.contains(o);
            let seat = !known && r.wl_seat.contains(o);
            let wm_base = !known && !seat && r.xdg_wm_base.contains(o);
            let surface = !known && !seat && !wm_base && r.xdg_surface.contains(o);
            let bind = known && !display && op == 0 && bytes::word_at(m, size - 4) == x;
            &&& after.wl_registry.contains(x) <==> r.wl_registry.contains(x) || (display && op == 1
                && a == x)
            &&& after.wl_seat.contains(x) <==> r.wl_seat.contains(x) || (bind && a
                == r.wl_seat_handle)
            &&& after.xdg_wm_base.contains(x) <==> r.xdg_wm_base.contains(x) || (bind && a
                != r.wl_seat_handle && a == r.xdg_wm_base_handle)
            &&& after.wl_pointer.contains(x) <==> r.wl_pointer.contains(x) || (seat && op == 0 && a
                == x)
            &&& after.wl_keyboard.contains(x) <==> r.wl_keyboard.contains(x) || (seat && op == 1
                && a == x)
            &&& after.xdg_surface.contains(x) <==> r.xdg_surface.contains(x) || (wm_base && op == 2
                && a == x)
            &&& after.xdg_toplevel.contains_key(x) <==> r.xdg_toplevel.contains_key(x) || (surface
                && op == 1 && a == x)
            &&& after.xdg_toplevel[x] == if surface && op == 1 && a == x {
                false
            } else {
                r.xdg_toplevel[x]
            }
            &&& after.wl_display == r.wl_display
            &&& after.wl_seat_handle == r.wl_seat_handle
            &&& after.xdg_wm_base_handle == r.xdg_wm_base_handle
        }),
{
    let request = message::request_of(r, m);
    if request is Bind {
        wire::law_string_argument_by_its_bytes(m, 8);
        assert(request->Bind_id == bytes::word_at(m, bytes::word_at(m, 4) / 65536 - 4));
    }
}

/// What a compositor's message changes in the registry is said by its bytes: the
/// handle of a seat or of a window manager, by the name behind it, and that a window
/// has been activated, by its states.
pub proof fn law_events_change_by_bytes(r: RegistryModel, m: Seq<u8>, strict: bool, x: u32)
    requires
        m.len() == 65544,
        handler::judgeable(HandlerRole::InBound, r, m, strict),
    ensures
        ({
            let o = bytes::word_at(m, 0);
            let size = bytes::word_at(m, 4) / 65536;
            let op = bytes::word_at(m, 4) % 65536;
            let after = handler::judge(HandlerRole::InBound, r, m).0;
            let known = r.wl_registry.contains(o);
            let seat = known && op == 0 && m.subrange(16, 24) == seq![
                119u8,
                108,
                95,
                115,
                101,
                97,
                116,
                0,
            ];
            let wm_base = known && op == 0 && m.subrange(16, 28) == seq![
                120u8,
                100,
                103,
                95,
                119,
                109,
                95,
                98,
                97,
                115,
                101,
                0,
            ];
            let configure = !known && !r.wl_pointer.contains(o) && !r.wl_keyboard.contains(o)
                && r.xdg_toplevel.contains_key(o) && op == 0 && o == x;
            &&& after.wl_display == r.wl_display
            &&& after.wl_registry == r.wl_registry
            &&& after.wl_seat == r.wl_seat
            &&& after.xdg_wm_base == r.xdg_wm_base
            &&& after.xdg_surface == r.xdg_surface
            &&& after.wl_pointer == r.wl_pointer
            &&& after.wl_keyboard == r.wl_keyboard
            &&& after.wl_seat_handle == if seat {
                bytes::word_at(m, 8)
            } else {
                r.wl_seat_handle
            }
            &&& after.xdg_wm_base_handle == if wm_base {
                bytes::word_at(m, 8)
            } else {
                r.xdg_wm_base_handle
            }
            &&& after.xdg_toplevel.contains_key(x) <==> r.xdg_toplevel.contains_key(x)
            &&& configure && (exists|p: int|
                20 <= p && p + 4 <= size && p % 4 == 0 && #[trigger] bytes::word_at(m, p) == 4)
                ==> after.xdg_toplevel[x]
            &&& !configure || (forall|p: int|
                20 <= p && p + 4 <= size && p % 4 == 0 ==> #[trigger] bytes::word_at(m, p) != 4)
                ==> after.xdg_toplevel[x] == r.xdg_toplevel[x]
        }),
{
    let event = message::event_of(r, m);
    wire::law_events_by_object_and_opcode(r, m);
    law_what_an_event_changes(r, event, x);
    if event is Global {
        wire::law_interface_by_its_bytes(m);
    }
}

/// A client's message can be judged unless it binds a global and its string is
/// broken, or, if `strict`, unless it makes an object by a single argument and has
/// not exactly the size of that argument.
pub proof fn law_when_a_request_is_judged(r: RegistryModel, m: Seq<u8>, strict: bool)
    requires
        m.len() == 65544,
    ensures
        ({
            let o = bytes::word_at(m, 0);
            let size = bytes::word_at(m, 4) / 65536;
            let op = bytes::word_at(m, 4) % 65536;
            let told = bytes::word_at(m, 12);
            let display = o == r.wl_display;
            let known = display || r.wl_registry.contains(o);
            let seat = !known && r.wl_seat.contains(o);
            let wm_base = !known && !seat && r.xdg_wm_base.contains(o);
            let surface = !known && !seat && !wm_base && r.xdg_surface.contains(o);
            handler::judgeable(HandlerRole::OutBound, r, m, strict) <==> {
                &&& known && !display && op == 0 ==> {
                    &&& told <= size - 24 < told + 4
                    &&& size % 4 == 0
                    &&& exists|n: int|
                        16 <= n < size - 8 && #[trigger] m[n] == 0 && (forall|j: int|
                            16 <= j < n ==> m[j] != 0) && vstd::utf8::valid_utf8(m.subrange(16, n))
                }
                &&& strict && ((display && op == 1) || (seat && op == 0) || (seat && op == 1) || (
                surface && op == 1)) ==> size == 12
            }
        }),
{
    wire::law_requests_by_object_and_opcode(r, m);
    wire::law_string_argument_by_its_bytes(m, 8);
    assert((bytes::word_at(m, 4) / 65536 - 24) % 4 == 0 <==> bytes::word_at(m, 4) / 65536 % 4 == 0);
}

/// A compositor's message can be judged unless it announces a global and its string
/// is broken, or configures a window and is shorter than its arguments or, if
/// `strict`, has not exactly the size of its arguments and its states.
pub proof fn law_when_an_event_is_judged(r: RegistryModel, m: Seq<u8>, strict: bool)
    requires
        m.len() == 65544,
    ensures
        ({
            let o = bytes::word_at(m, 0);
            let size = bytes::word_at(m, 4) / 65536;
            let op = bytes::word_at(m, 4) % 65536;
            let told = bytes::word_at(m, 12);
            let known = r.wl_registry.contains(o);
            let toplevel = !known && !r.wl_pointer.contains(o) && !r.wl_keyboard.contains(o)
                && r.xdg_toplevel.contains_key(o);
            handler::judgeable(HandlerRole::InBound, r, m, strict) <==> {
                &&& known && op == 0 ==> {
                    &&& told <= size - 20 < told + 4
                    &&& size % 4 == 0
                    &&& exists|n: int|
                        16 <= n < size - 4 && #[trigger] m[n] == 0 && (forall|j: int|
                            16 <= j < n ==> m[j] != 0) && vstd::utf8::valid_utf8(m.subrange(16, n))
                }
                &&& toplevel && op == 0 ==> size >= 20
                &&& strict && toplevel && op == 0 ==> size == 20 + bytes::word_at(m, 16)
            }
        }),
{
    wire::law_events_by_object_and_opcode(r, m);
    wire::law_string_argument_by_its_bytes(m, 4);
    assert((bytes::word_at(m, 4) / 65536 - 20) % 4 == 0 <==> bytes::word_at(m, 4) / 65536 % 4 == 0);
}

/// What is told of a client's message is said by its bytes: the object that it makes,
/// with its id, and nothing of a message that makes none.
pub proof fn law_requests_are_told_by_bytes(r: RegistryModel, m: Seq<u8>, strict: bool, x: u32)
    requires
        m.len() == 65544,
        handler::judgeable(HandlerRole::OutBound, r, m, strict),
    ensures
        ({
            let o = bytes::word_at(m, 0);
            let size = bytes::word_at(m, 4) / 65536;
            let op = bytes::word_at(m, 4) % 65536;
            let a = bytes::word_at(m, 8);
            let note = handler::remark(HandlerRole::OutBound, r, m);
            let display = o == r.wl_display;
            let known = display || r.wl_registry.contains(o);
            let seat = !known && r.wl_seat.contains(o);
            let wm_base = !known && !seat && r.xdg_wm_base.contains(o);
            let surface = !known && !seat && !wm_base && r.xdg_surface.contains(o);
            let bind = known && !display && op == 0;
            let id = bytes::word_at(m, size - 4);
            &&& note == Some(Note::Registry { id: x }) <==> display && op == 1 && a == x
            &&& note == Some(Note::Seat { id: x }) <==> bind && a == r.wl_seat_handle && id == x
            &&& note == Some(Note::WmBase { id: x }) <==> bind && a != r.wl_seat_handle && a
                == r.xdg_wm_base_handle && id == x
            &&& note == Some(Note::Pointer { id: x }) <==> seat && op == 0 && a == x
            &&& note == Some(Note::Keyboard { id: x }) <==> seat && op == 1 && a == x
            &&& note == Some(Note::XdgSurface { id: x }) <==> wm_base && op == 2 && a == x
            &&& note == Some(Note::Toplevel { id: x }) <==> surface && op == 1 && a == x
            &&& note is None <==> !(display && op == 1) && !(bind && (a == r.wl_seat_handle || a
                == r.xdg_wm_base_handle)) && !(seat && op == 0) && !(seat && op == 1) && !(wm_base
                && op == 2) && !(surface && op == 1)
        }),
{
    let request = message::request_of(r, m);
    wire::law_requests_by_object_and_opcode(r, m);
    if request is Bind {
        wire::law_string_argument_by_its_bytes(m, 8);
        assert(request->Bind_id == bytes::word_at(m, bytes::word_at(m, 4) / 65536 - 4));
    }
}

/// What is told of a compositor's message is said by its bytes: that a keyboard gets
/// or loses the focus, and how a window is configured.
pub proof fn law_events_are_told_by_bytes(
    r: RegistryModel,
    m: Seq<u8>,
    width: i32,
    height: i32,
    activated: bool,
)
    ensures
        ({
            let o = bytes::word_at(m, 0);
            let size = bytes::word_at(m, 4) / 65536;
            let op = bytes::word_at(m, 4) % 65536;
            let note = handler::remark(HandlerRole::InBound, r, m);
            let keyboard = !r.wl_registry.contains(o) && !r.wl_pointer.contains(o)
                && r.wl_keyboard.contains(o);
            let toplevel = !r.wl_registry.contains(o) && !r.wl_pointer.contains(o)
                && !r.wl_keyboard.contains(o) && r.xdg_toplevel.contains_key(o);
            &&& note == Some(Note::KeyboardEnter) <==> keyboard && op == 1
            &&& note == Some(Note::KeyboardLeave) <==> keyboard && op == 2
            &&& note == Some(Note::Configure { width, height, activated }) <==> {
                &&& toplevel && op == 0
                &&& width == bytes::word_at(m, 8) as i32
                &&& height == bytes::word_at(m, 12) as i32
                &&& activated <==> exists|p: int|
                    20 <= p && p + 4 <= size && p % 4 == 0 && #[trigger] bytes::word_at(m, p) == 4
            }
            &&& note is None <==> !(keyboard && (op == 1 || op == 2)) && !(toplevel && op == 0)
        }),
{
    wire::law_events_by_object_and_opcode(r, m);
}

/// Whatever the client has bound before: once it has got a registry of the display, an
/// announcement on that registry is read, and so is a bind on it, unless the display has
/// its id.
pub proof fn law_a_new_registry_is_known(
    r: RegistryModel,
    m: Seq<u8>,
    global: Seq<u8>,
    bind: Seq<u8>,
)
    requires
        bytes::word_at(m, 0) == r.wl_display,
        bytes::word_at(m, 4) % 65536 == 1,
        bytes::word_at(global, 0) == bytes::word_at(m, 8),
        bytes::word_at(global, 4) % 65536 == 0,
        bytes::word_at(bind, 0) == bytes::word_at(m, 8),
        bytes::word_at(bind, 0) != r.wl_display,
        bytes::word_at(bind, 4) % 65536 == 0,
    ensures
        ({
            let (after, pass) = handler::judge(HandlerRole::OutBound, r, m);
            &&& pass
            &&& after.wl_registry.contains(bytes::word_at(m, 8))
            &&& message::event_of(after, global) matches Event::Global { handle, .. } && handle
                == bytes::word_at(global, 8)
            &&& message::request_of(after, bind) matches Request::Bind { handle, .. } && handle
                == bytes::word_at(bind, 8)
        }),
{
}

/// Whatever the client has bound before: once it has got a keyboard of a seat, a leave
/// event on that keyboard is blocked, and every other event on it is passed on.
pub proof fn law_a_new_keyboard_is_known(r: RegistryModel, m: Seq<u8>, event: Seq<u8>)
    requires
        bytes::word_at(m, 0) != r.wl_display,
        !r.wl_registry.contains(bytes::word_at(m, 0)),
        r.wl_seat.contains(bytes::word_at(m, 0)),
        bytes::word_at(m, 4) % 65536 == 1,
        bytes::word_at(event, 0) == bytes::word_at(m, 8),
        !r.wl_registry.contains(bytes::word_at(event, 0)),
        !r.wl_pointer.contains(bytes::word_at(event, 0)),
    ensures
        ({
            let (after, pass) = handler::judge(HandlerRole::OutBound, r, m);
            &&& pass
            &&& after.wl_keyboard.contains(bytes::word_at(m, 8))
            &&& handler::judge(HandlerRole::InBound, after, event).1 <==> bytes::word_at(event, 4)
                % 65536 != 2
        }),
{
    let after = handler::judge(HandlerRole::OutBound, r, m).0;
    law_held_back_by_its_bytes(HandlerRole::InBound, after, event);
}

/// Whatever the client has bound before: once it has got a pointer of a seat, every
/// event on that pointer is passed on.
pub proof fn law_a_new_pointer_is_known(r: RegistryModel, m: Seq<u8>, event: Seq<u8>)
    requires
        bytes::word_at(m, 0) != r.wl_display,
        !r.wl_registry.contains(bytes::word_at(m, 0)),
        r.wl_seat.contains(bytes::word_at(m, 0)),
        bytes::word_at(m, 4) % 65536 == 0,
        bytes::word_at(event, 0) == bytes::word_at(m, 8),
    ensures
        ({
            let (after, pass) = handler::judge(HandlerRole::OutBound, r, m);
            &&& pass
            &&& after.wl_pointer.contains(bytes::word_at(m, 8))
            &&& handler::judge(HandlerRole::InBound, after, event).1
        }),
{
    let after = handler::judge(HandlerRole::OutBound, r, m).0;
    law_held_back_by_its_bytes(HandlerRole::InBound, after, event);
}

/// Whatever the client has bound before: once it has made a window of a surface, the
/// window counts as not activated, though another had its id, so a configure event on
/// it is passed on. Once such an event has named it as activated, one that does not is
/// blocked.
pub proof fn law_a_new_window_is_known(
    r: RegistryModel,
    m: Seq<u8>,
    first: Seq<u8>,
    second: Seq<u8>,
)
    requires
        bytes::word_at(m, 0) != r.wl_display,
        !r.wl_registry.contains(bytes::word_at(m, 0)),
        !r.wl_seat.contains(bytes::word_at(m, 0)),
        !r.xdg_wm_base.contains(bytes::word_at(m, 0)),
        r.xdg_surface.contains(bytes::word_at(m, 0)),
        bytes::word_at(m, 4) % 65536 == 1,
        !r.wl_registry.contains(bytes::word_at(m, 8)),
        !r.wl_pointer.contains(bytes::word_at(m, 8)),
        !r.wl_keyboard.contains(bytes::word_at(m, 8)),
        bytes::word_at(first, 0) == bytes::word_at(m, 8),
        bytes::word_at(first, 4) % 65536 == 0,
        bytes::word_at(second, 0) == bytes::word_at(m, 8),
        bytes::word_at(second, 4) % 65536 == 0,
    ensures
        ({
            let (made, pass) = handler::judge(HandlerRole::OutBound, r, m);
            let (configured, first_pass) = handler::judge(HandlerRole::InBound, made, first);
            let second_pass = handler::judge(HandlerRole::InBound, configured, second).1;
            let first_activated = exists|p: int|
                20 <= p && p + 4 <= bytes::word_at(first, 4) / 65536 && p % 4 == 0
                    && #[trigger] bytes::word_at(first, p) == 4;
            let second_activated = exists|p: int|
                20 <= p && p + 4 <= bytes::word_at(second, 4) / 65536 && p % 4 == 0
                    && #[trigger] bytes::word_at(second, p) == 4;
            &&& pass
            &&& made.xdg_toplevel.contains_key(bytes::word_at(m, 8))
            &&& first_pass
            &&& second_pass <==> !first_activated || second_activated
        }),
{
    wire::law_activated_by_any_state_word(first);
    wire::law_activated_by_any_state_word(second);
}

/// Whatever the client has bound before: once it has made a surface of the window
/// manager, it can make a window of that surface.
pub proof fn law_a_new_surface_is_known(r: RegistryModel, m: Seq<u8>, get_toplevel: Seq<u8>)
    requires
        bytes::word_at(m, 0) != r.wl_display,
        !r.wl_registry.contains(bytes::word_at(m, 0)),
        !r.wl_seat.contains(bytes::word_at(m, 0)),
        r.xdg_wm_base.contains(bytes::word_at(m, 0)),
        bytes::word_at(m, 4) % 65536 == 2,
        bytes::word_at(get_toplevel, 0) == bytes::word_at(m, 8),
        bytes::word_at(get_toplevel, 0) != r.wl_display,
        !r.wl_registry.contains(bytes::word_at(get_toplevel, 0)),
        !r.wl_seat.contains(bytes::word_at(get_toplevel, 0)),
        !r.xdg_wm_base.contains(bytes::word_at(get_toplevel, 0)),
        bytes::word_at(get_toplevel, 4) % 65536 == 1,
    ensures
        ({
            let made = handler::judge(HandlerRole::OutBound, r, m).0;
            let after = handler::judge(HandlerRole::OutBound, made, get_toplevel).0;
            after.xdg_toplevel.contains_key(bytes::word_at(get_toplevel, 8))
        }),
{
}

} // verus!
