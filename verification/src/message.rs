//! How a message on the wire is read.
//!
//! A message starts with a header of two words: the id of the object that it is
//! about, and one word that holds the size of the message in bytes in its upper
//! half and the opcode in its lower half. The arguments follow. A message is read
//! from the start of a buffer of [`BUF_LEN`] bytes, which may hold more than the
//! message.

use vstd::prelude::*;

#[allow(unused_imports)]
use crate::bytes;
use crate::bytes::{bytes_until_nul, is_utf8, read_word, same_bytes};
#[allow(unused_imports)]
use crate::registry::{Event, Interface, RegistryModel, Request, WLObjectRegistry};

verus! {

broadcast use vstd::std_specs::hash::group_hash_axioms;

/// The size of a message buffer: room for the largest size that a header can
/// tell, and for one header more.
pub const BUF_LEN: usize = 65544;

/// The size of a message header.
pub const HEADER_LEN: usize = 8;

/// The opcode of `wl_display.get_registry`.
pub const GET_REGISTRY: u32 = 1;

/// The opcode of `wl_registry.bind`.
pub const BIND: u32 = 0;

/// The opcode of `wl_seat.get_pointer`.
pub const GET_POINTER: u32 = 0;

/// The opcode of `wl_seat.get_keyboard`.
pub const GET_KEYBOARD: u32 = 1;

/// The opcode of `xdg_wm_base.get_xdg_surface`.
pub const GET_XDG_SURFACE: u32 = 2;

/// The opcode of `xdg_surface.get_toplevel`.
pub const GET_TOPLEVEL: u32 = 1;

/// The opcode of `wl_registry.global`.
pub const GLOBAL: u32 = 0;

/// The opcode of `wl_keyboard.enter`.
pub const KEYBOARD_ENTER: u32 = 1;

/// The opcode of `wl_keyboard.leave`.
pub const KEYBOARD_LEAVE: u32 = 2;

/// The opcode of `xdg_toplevel.configure`.
pub const CONFIGURE: u32 = 0;

/// The entry in the states of `xdg_toplevel.configure` for an activated window.
pub const STATE_ACTIVATED: u32 = 4;

/// The id of the object that the message in `m` is about.
pub open spec fn object_id(m: Seq<u8>) -> u32 {
    bytes::word_at(m, 0)
}

/// The size in bytes that the header in `m` tells.
pub open spec fn msg_size(m: Seq<u8>) -> u32 {
    bytes::word_at(m, 4) / 0x1_0000
}

/// The opcode of the message in `m`.
pub open spec fn opcode(m: Seq<u8>) -> u32 {
    bytes::word_at(m, 4) % 0x1_0000
}

/// The argument word at byte `i` of the message in `m`.
pub open spec fn argument(m: Seq<u8>, i: int) -> u32 {
    bytes::word_at(m, i)
}

/// The number of bytes that the string argument of `wl_registry.bind` and
/// `wl_registry.global` takes up: the length that the message tells, rounded up
/// to whole words.
pub open spec fn name_len(m: Seq<u8>) -> int {
    (argument(m, 12) + 3) / 4 * 4
}

/// The bytes of that string argument, with its NUL and the padding.
pub open spec fn name_field(m: Seq<u8>) -> Seq<u8> {
    m.subrange(16, 16 + name_len(m))
}

/// Whether `m` holds a message whose string argument is followed by the last
/// `tail` bytes of the message, and holds a NUL-terminated UTF-8 string.
pub open spec fn has_name(m: Seq<u8>, tail: int) -> bool {
    &&& msg_size(m) == 16 + name_len(m) + tail
    &&& bytes::until_nul(name_field(m)) matches Some(name) && vstd::utf8::valid_utf8(name)
}

/// The interface that a `wl_registry.global` event in `m` announces.
pub open spec fn interface_of(m: Seq<u8>) -> Interface {
    let name = bytes::until_nul(name_field(m));
    if name == Some(vstd::utf8::encode_utf8("wl_seat"@)) {
        Interface::WlSeat
    } else if name == Some(vstd::utf8::encode_utf8("xdg_wm_base"@)) {
        Interface::XdgWmBase
    } else {
        Interface::Other
    }
}

/// The `i`th entry in the states of a `xdg_toplevel.configure` event in `m`.
pub open spec fn window_state(m: Seq<u8>, i: int) -> u32 {
    argument(m, 20 + 4 * i)
}

/// Whether the states of a `xdg_toplevel.configure` event in `m` name the
/// window as activated.
pub open spec fn is_activated(m: Seq<u8>) -> bool {
    exists|i: int| 0 <= i && 24 + 4 * i <= msg_size(m) && #[trigger] window_state(m, i) == STATE_ACTIVATED
}

/// The request that the client makes with the message in `m`.
pub open spec fn request_of(registry: RegistryModel, m: Seq<u8>) -> Request {
    let object = object_id(m);
    let op = opcode(m);
    let id = argument(m, 8);
    if object == registry.wl_display {
        if op == GET_REGISTRY {
            Request::GetRegistry { id }
        } else {
            Request::Other
        }
    } else if registry.wl_registry.contains(object) {
        if op == BIND {
            Request::Bind { handle: argument(m, 8), id: argument(m, 20 + name_len(m)) }
        } else {
            Request::Other
        }
    } else if registry.wl_seat.contains(object) {
        if op == GET_POINTER {
            Request::GetPointer { id }
        } else if op == GET_KEYBOARD {
            Request::GetKeyboard { id }
        } else {
            Request::Other
        }
    } else if registry.xdg_wm_base.contains(object) {
        if op == GET_XDG_SURFACE {
            Request::GetXdgSurface { id }
        } else {
            Request::Other
        }
    } else if registry.xdg_surface.contains(object) {
        if op == GET_TOPLEVEL {
            Request::GetToplevel { id }
        } else {
            Request::Other
        }
    } else {
        Request::Other
    }
}

/// Whether the request in `m` has the arguments that it must have to be read.
pub open spec fn request_readable(registry: RegistryModel, m: Seq<u8>) -> bool {
    request_of(registry, m) is Bind ==> has_name(m, 8)
}

/// Whether the message in `m`, which makes `request`, has exactly the size of
/// its arguments.
pub open spec fn request_sized(request: Request, m: Seq<u8>) -> bool {
    match request {
        Request::GetRegistry { .. } => msg_size(m) == 12,
        Request::GetPointer { .. } => msg_size(m) == 12,
        Request::GetKeyboard { .. } => msg_size(m) == 12,
        Request::GetToplevel { .. } => msg_size(m) == 12,
        _ => true,
    }
}

/// The event that the compositor sends with the message in `m`.
pub open spec fn event_of(registry: RegistryModel, m: Seq<u8>) -> Event {
    let object = object_id(m);
    let op = opcode(m);
    if registry.wl_registry.contains(object) {
        if op == GLOBAL {
            Event::Global { handle: argument(m, 8), interface: interface_of(m) }
        } else {
            Event::Other
        }
    } else if registry.wl_pointer.contains(object) {
        Event::Other
    } else if registry.wl_keyboard.contains(object) {
        if op == KEYBOARD_ENTER {
            Event::KeyboardEnter
        } else if op == KEYBOARD_LEAVE {
            Event::KeyboardLeave
        } else {
            Event::Other
        }
    } else if registry.xdg_toplevel.contains_key(object) {
        if op == CONFIGURE {
            Event::Configure {
                toplevel: object,
                width: argument(m, 8) as i32,
                height: argument(m, 12) as i32,
                activated: is_activated(m),
            }
        } else {
            Event::Other
        }
    } else {
        Event::Other
    }
}

/// Whether the event in `m` has the arguments that it must have to be read.
pub open spec fn event_readable(registry: RegistryModel, m: Seq<u8>) -> bool {
    match event_of(registry, m) {
        Event::Global { .. } => has_name(m, 4),
        Event::Configure { .. } => msg_size(m) >= 20,
        _ => true,
    }
}

/// Whether the message in `m`, which sends `event`, has exactly the size of its
/// arguments.
pub open spec fn event_sized(event: Event, m: Seq<u8>) -> bool {
    event is Configure ==> msg_size(m) == 20 + argument(m, 16)
}

/// Reads the header at the start of a buffer: the object id, the size and the
/// opcode.
pub fn read_header(m: &[u8]) -> (header: (u32, u32, u32))
    requires
        m@.len() >= HEADER_LEN,
    ensures
        header == (object_id(m@), msg_size(m@), opcode(m@)),
        header.1 < 0x1_0000,
        header.2 < 0x1_0000,
{
    let object = read_word(m, 0);
    let metadata = read_word(m, 4);
    assert(metadata >> 16 == metadata / 0x1_0000) by (bit_vector);
    assert(metadata << 16 >> 16 == metadata % 0x1_0000) by (bit_vector);
    assert(metadata / 0x1_0000 < 0x1_0000) by (bit_vector);
    (object, metadata >> 16, metadata << 16 >> 16)
}

/// Reads the string argument, where it is followed by the last `tail` bytes of
/// the message. The result is the number of bytes that the argument takes up,
/// and the string.
fn read_name(m: &[u8], tail: u32) -> (name: Option<(usize, &[u8])>)
    requires
        m@.len() == BUF_LEN,
        tail <= 8,
    ensures
        name is Some <==> has_name(m@, tail as int),
        name matches Some((len, s)) ==> {
            &&& len == name_len(m@)
            &&& bytes::until_nul(name_field(m@)) == Some(s@)
        },
{
    let (_object, size, _opcode) = read_header(m);
    let told = read_word(m, 12);
    if size < 16 + tail || told > size - 16 - tail {
        return None;
    }
    let len: u32 = (told + 3) / 4 * 4;
    if size != 16 + len + tail {
        return None;
    }
    let field = &m[16..16 + len as usize];
    match bytes_until_nul(field) {
        Some(s) => if is_utf8(s) {
            Some((len as usize, s))
        } else {
            None
        },
        None => None,
    }
}

/// Looks for the activated state among the states of a configure event.
fn read_activated(m: &[u8]) -> (activated: bool)
    requires
        m@.len() == BUF_LEN,
    ensures
        activated == is_activated(m@),
{
    let (_object, size, _opcode) = read_header(m);
    let end = size as usize;
    let mut i: usize = 0;
    while 24 + 4 * i <= end
        invariant
            end == msg_size(m@),
            end < 0x1_0000,
            m@.len() == BUF_LEN,
            i <= 0x1_0000,
            forall|j: int| 0 <= j < i ==> #[trigger] window_state(m@, j) != STATE_ACTIVATED,
        decreases end + 4 - 4 * i,
    {
        if read_word(m, 20 + 4 * i) == STATE_ACTIVATED {
            assert(window_state(m@, i as int) == STATE_ACTIVATED);
            return true;
        }
        i = i + 1;
    }
    false
}

/// Reads the request that the client makes with the message in `m`. There is
/// none to be read where an argument is missing.
pub fn read_request(registry: &WLObjectRegistry, m: &[u8]) -> (request: Option<Request>)
    requires
        m@.len() == BUF_LEN,
    ensures
        request is Some <==> request_readable(registry@, m@),
        request matches Some(r) ==> r == request_of(registry@, m@),
{
    let (object, _size, op) = read_header(m);
    let id = read_word(m, 8);
    if object == registry.wl_display {
        if op == GET_REGISTRY {
            return Some(Request::GetRegistry { id });
        }
    } else if registry.wl_registry.contains(&object) {
        if op == BIND {
            return match read_name(m, 8) {
                Some((len, _name)) => Some(Request::Bind { handle: id, id: read_word(m, 20 + len) }),
                None => None,
            };
        }
    } else if registry.wl_seat.contains(&object) {
        if op == GET_POINTER {
            return Some(Request::GetPointer { id });
        } else if op == GET_KEYBOARD {
            return Some(Request::GetKeyboard { id });
        }
    } else if registry.xdg_wm_base.contains(&object) {
        if op == GET_XDG_SURFACE {
            return Some(Request::GetXdgSurface { id });
        }
    } else if registry.xdg_surface.contains(&object) {
        if op == GET_TOPLEVEL {
            return Some(Request::GetToplevel { id });
        }
    }
    Some(Request::Other)
}

/// Reads the event that the compositor sends with the message in `m`. There is
/// none to be read where an argument is missing.
pub fn read_event(registry: &WLObjectRegistry, m: &[u8]) -> (event: Option<Event>)
    requires
        m@.len() == BUF_LEN,
    ensures
        event is Some <==> event_readable(registry@, m@),
        event matches Some(e) ==> e == event_of(registry@, m@),
{
    let (object, size, op) = read_header(m);
    if registry.wl_registry.contains(&object) {
        if op == GLOBAL {
            return match read_name(m, 4) {
                Some((_len, name)) => {
                    let interface = if same_bytes(name, "wl_seat".as_bytes()) {
                        Interface::WlSeat
                    } else if same_bytes(name, "xdg_wm_base".as_bytes()) {
                        Interface::XdgWmBase
                    } else {
                        Interface::Other
                    };
                    Some(Event::Global { handle: read_word(m, 8), interface })
                },
                None => None,
            };
        }
    } else if registry.wl_pointer.contains(&object) {
    } else if registry.wl_keyboard.contains(&object) {
        if op == KEYBOARD_ENTER {
            return Some(Event::KeyboardEnter);
        } else if op == KEYBOARD_LEAVE {
            return Some(Event::KeyboardLeave);
        }
    } else if registry.xdg_toplevel.contains_key(&object) {
        if op == CONFIGURE {
            if size < 20 {
                return None;
            }
            return Some(
                Event::Configure {
                    toplevel: object,
                    width: read_word(m, 8) as i32,
                    height: read_word(m, 12) as i32,
                    activated: read_activated(m),
                },
            );
        }
    }
    Some(Event::Other)
}

/// Whether the message in `m`, which makes `request`, has exactly the size of
/// its arguments.
pub fn check_request_size(request: Request, m: &[u8]) -> (sized: bool)
    requires
        m@.len() == BUF_LEN,
    ensures
        sized == request_sized(request, m@),
{
    let (_object, size, _opcode) = read_header(m);
    match request {
        Request::GetRegistry { .. } => size == 12,
        Request::GetPointer { .. } => size == 12,
        Request::GetKeyboard { .. } => size == 12,
        Request::GetToplevel { .. } => size == 12,
        _ => true,
    }
}

/// Whether the message in `m`, which sends `event`, has exactly the size of its
/// arguments.
pub fn check_event_size(event: Event, m: &[u8]) -> (sized: bool)
    requires
        m@.len() == BUF_LEN,
    ensures
        sized == event_sized(event, m@),
{
    let (_object, size, _opcode) = read_header(m);
    match event {
        Event::Configure { .. } => size >= 20 && size - 20 == read_word(m, 16),
        _ => true,
    }
}

} // verus!
