use wl_relay::bytes::{bytes_until_nul, read_word, same_bytes};
use wl_relay::forward::{
    on_send, Forwarder, ReceiveAction, ReceiveOutcome, SendAction, SendOutcome,
};
use wl_relay::handler::{Appended, HandlerRole, WLMessageHandler};
use wl_relay::message::{
    check_event_size, check_request_size, read_event, read_header, read_request, BUF_LEN,
};
use wl_relay::registry::{Event, Interface, Note, Request, WLObjectRegistry};

fn word(w: u32) -> Vec<u8> {
    w.to_ne_bytes().to_vec()
}

fn words(ws: &[u32]) -> Vec<u8> {
    let mut bytes = Vec::new();
    for w in ws {
        bytes.extend(word(*w));
    }
    bytes
}

fn sized_message(object: u32, opcode: u32, size: u32, args: &[u8]) -> Vec<u8> {
    let mut m = words(&[object, size * 65536 + opcode]);
    m.extend_from_slice(args);
    m
}

fn message(object: u32, opcode: u32, args: &[u8]) -> Vec<u8> {
    sized_message(object, opcode, 8 + args.len() as u32, args)
}

fn string(s: &[u8]) -> Vec<u8> {
    let mut bytes = word(s.len() as u32 + 1);
    bytes.extend_from_slice(s);
    bytes.push(0);
    while bytes.len() % 4 != 0 {
        bytes.push(0);
    }
    bytes
}

fn global(registry: u32, handle: u32, name: &str) -> Vec<u8> {
    let mut args = word(handle);
    args.extend(string(name.as_bytes()));
    args.extend(word(9));
    message(registry, 0, &args)
}

fn bind(registry: u32, handle: u32, name: &str, id: u32) -> Vec<u8> {
    let mut args = word(handle);
    args.extend(string(name.as_bytes()));
    args.extend(words(&[9, id]));
    message(registry, 0, &args)
}

fn configure(toplevel: u32, states: &[u32]) -> Vec<u8> {
    let mut args = words(&[640, 480, 4 * states.len() as u32]);
    args.extend(words(states));
    message(toplevel, 0, &args)
}

fn buffer(m: &[u8]) -> Vec<u8> {
    let mut buf = m.to_vec();
    buf.resize(BUF_LEN, 0);
    buf
}

/// Both directions of a connection.
struct Connection {
    registry: WLObjectRegistry,
    outbound: Forwarder,
    inbound: Forwarder,
}

impl Connection {
    fn new(strict: bool) -> Self {
        Connection {
            registry: WLObjectRegistry::new(),
            outbound: Forwarder::new(HandlerRole::OutBound, strict),
            inbound: Forwarder::new(HandlerRole::InBound, strict),
        }
    }

    fn request(&mut self, bytes: &[u8]) -> Option<Vec<u8>> {
        let outcome = ReceiveOutcome::Received { bytes, rights: vec![] };
        match self.outbound.on_receive(&mut self.registry, outcome) {
            ReceiveAction::Send { response, .. } => Some(response),
            ReceiveAction::Refuse { .. } => None,
            _ => panic!("neither sent nor refused"),
        }
    }

    fn event(&mut self, bytes: &[u8]) -> Option<Vec<u8>> {
        let outcome = ReceiveOutcome::Received { bytes, rights: vec![] };
        match self.inbound.on_receive(&mut self.registry, outcome) {
            ReceiveAction::Send { response, .. } => Some(response),
            ReceiveAction::Refuse { .. } => None,
            _ => panic!("neither sent nor refused"),
        }
    }

    fn request_passes(&mut self, m: Vec<u8>) {
        assert_eq!(self.request(&m), Some(m));
    }

    fn event_passes(&mut self, m: Vec<u8>) {
        assert_eq!(self.event(&m), Some(m));
    }

    fn event_is_blocked(&mut self, m: Vec<u8>) {
        assert_eq!(self.event(&m), Some(vec![]));
    }

    /// Registry 2, seat 3, pointer 4 and keyboard 5.
    fn with_keyboard(strict: bool) -> Self {
        let mut c = Connection::new(strict);
        c.request_passes(message(1, 1, &word(2)));
        c.event_passes(global(2, 17, "wl_seat"));
        c.request_passes(bind(2, 17, "wl_seat", 3));
        c.request_passes(message(3, 0, &word(4)));
        c.request_passes(message(3, 1, &word(5)));
        c
    }

    /// Registry 2, window manager 6, surface 7 and toplevel 8.
    fn with_toplevel(strict: bool) -> Self {
        let mut c = Connection::new(strict);
        c.request_passes(message(1, 1, &word(2)));
        c.event_passes(global(2, 30, "xdg_wm_base"));
        c.request_passes(bind(2, 30, "xdg_wm_base", 6));
        c.request_passes(message(6, 2, &words(&[7, 99])));
        c.request_passes(message(7, 1, &word(8)));
        c
    }
}

#[test]
fn new_registry_knows_only_the_display() {
    let registry = WLObjectRegistry::new();
    assert_eq!(registry.wl_display, 1);
    assert_eq!(registry.wl_seat_handle, 0);
    assert_eq!(registry.xdg_wm_base_handle, 0);
    assert!(registry.wl_registry.is_empty());
    assert!(registry.wl_seat.is_empty());
    assert!(registry.xdg_wm_base.is_empty());
    assert!(registry.xdg_surface.is_empty());
    assert!(registry.xdg_toplevel.is_empty());
    assert!(registry.wl_pointer.is_empty());
    assert!(registry.wl_keyboard.is_empty());
}

#[test]
fn words_are_in_the_byte_order_of_the_machine() {
    let bytes = [9u8, 1, 2, 3, 4];
    assert_eq!(read_word(&bytes, 1), u32::from_ne_bytes([1, 2, 3, 4]));
    assert_eq!(read_word(&word(0x1234_5678), 0), 0x1234_5678);
    if 1u32.to_ne_bytes() == [1, 0, 0, 0] {
        assert_eq!(read_word(&bytes, 1), 0x0403_0201);
    } else {
        assert_eq!(read_word(&bytes, 1), 0x0102_0304);
    }
}

#[test]
fn strings_end_at_the_first_nul() {
    assert_eq!(bytes_until_nul(b"ab\0c\0"), Some(&b"ab"[..]));
    assert_eq!(bytes_until_nul(b"\0"), Some(&b""[..]));
    assert_eq!(bytes_until_nul(b"abc"), None);
    assert_eq!(bytes_until_nul(b""), None);
}

#[test]
fn byte_strings_are_compared_whole() {
    assert!(same_bytes(b"wl_seat", b"wl_seat"));
    assert!(!same_bytes(b"wl_seat", b"wl_sea"));
    assert!(!same_bytes(b"wl_seat", b"wl_seau"));
    assert!(same_bytes(b"", b""));
}

#[test]
fn headers_are_taken_apart() {
    let mut x = [0u8; 8];
    x.copy_from_slice(&words(&[77, 0xfffc_0003]));
    assert_eq!(WLMessageHandler::parse_header(x), (77, 0xfffc, 3));
    x.copy_from_slice(&words(&[0xffff_ffff, 0x0008_ffff]));
    assert_eq!(WLMessageHandler::parse_header(x), (0xffff_ffff, 8, 0xffff));
    assert_eq!(read_header(&message(5, 2, &[1, 2, 3, 4])), (5, 12, 2));
}

fn append(
    handler: &mut WLMessageHandler,
    registry: &mut WLObjectRegistry,
    bytes: &[u8],
) -> Vec<Note> {
    let mut notes = Vec::new();
    for x in bytes.chunks(4) {
        notes.extend(handler.append_word(registry, [x[0], x[1], x[2], x[3]]));
    }
    notes
}

#[test]
fn handler_gives_out_messages_in_order() {
    let mut registry = WLObjectRegistry::new();
    let mut handler = WLMessageHandler::new(HandlerRole::OutBound);
    let (a, b) = (message(9, 3, &[1, 2, 3, 4]), message(10, 0, &[]));
    assert_eq!(handler.pop(), None);
    append(&mut handler, &mut registry, &a[..8]);
    assert_eq!(handler.pop(), None);
    append(&mut handler, &mut registry, &a[8..]);
    append(&mut handler, &mut registry, &b);
    assert_eq!(handler.pop(), Some(a));
    assert_eq!(handler.pop(), Some(b));
    assert_eq!(handler.pop(), None);
}

#[test]
fn set_size_writes_the_lower_half_into_the_header() {
    let mut registry = WLObjectRegistry::new();
    let mut handler = WLMessageHandler::new(HandlerRole::OutBound);
    let m = message(9, 3, &[1, 2, 3, 4]);
    append(&mut handler, &mut registry, &m[..8]);
    handler.set_size(0x5_0010);
    append(&mut handler, &mut registry, &m[8..]);
    assert_eq!(handler.pop(), Some(sized_message(9, 3, 16, &[1, 2, 3, 4])));
    append(&mut handler, &mut registry, &m[..8]);
    handler.set_size(400);
    handler.set_size(12);
    append(&mut handler, &mut registry, &m[8..]);
    assert_eq!(handler.pop(), Some(m));
}

#[test]
fn keyboard_leave_is_blocked() {
    let mut c = Connection::with_keyboard(true);
    assert!(c.registry.wl_registry.contains(&2));
    assert_eq!(c.registry.wl_seat_handle, 17);
    assert!(c.registry.wl_seat.contains(&3));
    assert!(c.registry.wl_pointer.contains(&4));
    assert!(c.registry.wl_keyboard.contains(&5));
    c.event_passes(message(5, 1, &words(&[1, 7, 0])));
    c.event_is_blocked(message(5, 2, &words(&[2, 7])));
    c.event_passes(message(4, 2, &words(&[3, 7])));
    c.event_passes(message(4, 1, &words(&[3, 7])));
    c.request_passes(message(1, 1, &word(20)));
    c.event_is_blocked(message(5, 2, &words(&[4, 7])));
}

#[test]
fn keyboard_leave_of_an_unknown_keyboard_passes() {
    let mut c = Connection::new(true);
    c.event_passes(message(5, 2, &words(&[2, 7])));
}

#[test]
fn leave_is_not_blocked_where_the_id_is_a_pointer_too() {
    let mut c = Connection::with_keyboard(true);
    c.request_passes(message(3, 0, &word(5)));
    c.event_passes(message(5, 2, &words(&[2, 7])));
}

#[test]
fn deactivation_is_blocked_after_the_first_activation() {
    let mut c = Connection::with_toplevel(true);
    assert_eq!(c.registry.xdg_wm_base_handle, 30);
    assert!(c.registry.xdg_wm_base.contains(&6));
    assert!(c.registry.xdg_surface.contains(&7));
    assert_eq!(c.registry.xdg_toplevel.get(&8), Some(&false));
    c.event_passes(configure(8, &[]));
    c.event_passes(configure(8, &[1, 2]));
    assert_eq!(c.registry.xdg_toplevel.get(&8), Some(&false));
    c.event_passes(configure(8, &[1, 4]));
    assert_eq!(c.registry.xdg_toplevel.get(&8), Some(&true));
    c.event_is_blocked(configure(8, &[1]));
    c.event_is_blocked(configure(8, &[]));
    c.event_passes(configure(8, &[4]));
    c.event_is_blocked(configure(8, &[3]));
    c.event_passes(message(8, 1, &[]));
}

#[test]
fn a_new_window_with_the_same_id_starts_anew() {
    let mut c = Connection::with_toplevel(true);
    c.event_passes(configure(8, &[4]));
    c.event_is_blocked(configure(8, &[]));
    c.request_passes(message(7, 1, &word(8)));
    c.event_passes(configure(8, &[]));
}

#[test]
fn windows_are_activated_one_by_one() {
    let mut c = Connection::with_toplevel(true);
    c.request_passes(message(7, 1, &word(9)));
    c.event_passes(configure(8, &[4]));
    c.event_passes(configure(9, &[]));
    c.event_is_blocked(configure(8, &[]));
}

#[test]
fn binding_needs_an_announced_handle() {
    let mut c = Connection::new(true);
    c.request_passes(message(1, 1, &word(2)));
    c.event_passes(global(2, 17, "wl_seat"));
    c.event_passes(global(2, 18, "xdg_wm_base"));
    c.event_passes(global(2, 19, "wl_seat2"));
    c.event_passes(global(2, 20, "wl_sea"));
    c.request_passes(bind(2, 19, "wl_seat", 3));
    assert!(c.registry.wl_seat.is_empty());
    assert!(c.registry.xdg_wm_base.is_empty());
    c.request_passes(bind(2, 17, "anything", 3));
    assert!(c.registry.wl_seat.contains(&3));
    c.request_passes(bind(2, 18, "anything", 4));
    assert!(c.registry.xdg_wm_base.contains(&4));
}

#[test]
fn one_handle_for_both_is_taken_for_the_seat() {
    let mut c = Connection::new(true);
    c.request_passes(message(1, 1, &word(2)));
    c.request_passes(bind(2, 0, "wl_seat", 3));
    assert!(c.registry.wl_seat.contains(&3));
    assert!(c.registry.xdg_wm_base.is_empty());
}

#[test]
fn names_must_be_strings() {
    let bad_names: [Vec<u8>; 4] = [
        words(&[4, 0x6161_6161]),
        words(&[0]),
        vec![word(3), vec![0xff, 0xfe, 0, 0]].concat(),
        words(&[0xffff_fffe, 0]),
    ];
    for name in bad_names.iter() {
        for strict in [false, true] {
            let mut c = Connection::new(strict);
            c.request_passes(message(1, 1, &word(2)));
            let event = vec![word(17), name.clone(), word(9)].concat();
            assert_eq!(c.event(&message(2, 0, &event)), None);
            let request = vec![word(17), name.clone(), words(&[9, 3])].concat();
            assert_eq!(c.request(&message(2, 0, &request)), None);
        }
    }
    let mut c = Connection::new(true);
    c.request_passes(message(1, 1, &word(2)));
    let padded = vec![word(17), word(6), b"\xc3\xa4\0\xff\xff\xff\xff\xff".to_vec(), word(9)];
    c.event_passes(message(2, 0, &padded.concat()));
}

#[test]
fn names_must_fill_their_messages() {
    let mut args = word(17);
    args.extend(string(b"wl_seat"));
    let mut c = Connection::new(false);
    c.request_passes(message(1, 1, &word(2)));
    assert_eq!(c.event(&message(2, 0, &args)), None);
    let mut c = Connection::new(false);
    c.request_passes(message(1, 1, &word(2)));
    args.extend(word(9));
    assert_eq!(c.request(&message(2, 0, &args)), None);
    args.extend(words(&[3, 0]));
    assert_eq!(c.request(&message(2, 0, &args)), None);
}

#[test]
fn odd_sizes_are_refused_where_sizes_are_checked() {
    let mut c = Connection::new(true);
    assert_eq!(c.request(&message(1, 1, &words(&[2, 3]))), None);
    assert!(c.registry.wl_registry.is_empty());
    let mut c = Connection::new(false);
    c.request_passes(message(1, 1, &words(&[2, 3])));
    assert!(c.registry.wl_registry.contains(&2));

    let odd = message(8, 0, &words(&[640, 480, 8, 4]));
    let mut c = Connection::with_toplevel(true);
    assert_eq!(c.event(&odd), None);
    let mut c = Connection::with_toplevel(false);
    c.event_passes(odd);
    assert_eq!(c.registry.xdg_toplevel.get(&8), Some(&true));

    let mut c = Connection::with_toplevel(false);
    assert_eq!(c.event(&message(8, 0, &words(&[640, 480]))), None);

    for (object, opcode) in [(3, 0), (3, 1)] {
        let mut c = Connection::with_keyboard(true);
        assert_eq!(c.request(&message(object, opcode, &words(&[50, 0]))), None);
    }
    let mut c = Connection::with_toplevel(true);
    assert_eq!(c.request(&message(7, 1, &[])), None);
}

#[test]
fn a_size_below_that_of_the_header_never_completes() {
    let mut c = Connection::new(true);
    assert_eq!(c.request(&sized_message(1, 1, 4, &word(2))), None);
    let mut c = Connection::new(false);
    assert_eq!(c.request(&sized_message(1, 1, 4, &word(2))), Some(vec![]));
    assert_eq!(c.request(&message(1, 1, &word(2))), Some(vec![]));
    assert!(c.registry.wl_registry.is_empty());
}

#[test]
fn a_message_that_never_completes_runs_out_of_room() {
    let mut registry = WLObjectRegistry::new();
    let mut handler = WLMessageHandler::new(HandlerRole::InBound);
    for x in sized_message(9, 0, 10, &[]).chunks(4) {
        let taken = handler.try_append_word(&mut registry, [x[0], x[1], x[2], x[3]], true);
        assert_eq!(taken, Appended::Taken { note: None });
    }
    for _ in 2..BUF_LEN / 4 {
        assert!(handler.try_append_word(&mut registry, [0; 4], true) != Appended::Refused);
    }
    assert_eq!(handler.try_append_word(&mut registry, [0; 4], true), Appended::Refused);
    assert_eq!(handler.try_append_word(&mut registry, [0; 4], false), Appended::Refused);
    assert_eq!(handler.pop(), None);
}

#[test]
fn the_largest_message_passes() {
    let mut c = Connection::new(true);
    let m = message(9, 5, &vec![7; 0xfffc - 8]);
    c.event_passes(m.clone());
    c.request_passes(m);
}

#[test]
fn a_refused_word_changes_nothing() {
    let mut registry = WLObjectRegistry::new();
    let mut handler = WLMessageHandler::new(HandlerRole::OutBound);
    let m = message(1, 1, &words(&[2, 3]));
    append(&mut handler, &mut registry, &m[..12]);
    assert_eq!(handler.try_append_word(&mut registry, [3, 0, 0, 0], true), Appended::Refused);
    assert!(registry.wl_registry.is_empty());
    assert_eq!(handler.pop(), None);
    append(&mut handler, &mut registry, &m[12..]);
    assert!(registry.wl_registry.contains(&2));
    assert_eq!(handler.pop(), Some(m));
}

#[test]
fn a_short_request_reads_what_the_buffer_holds() {
    let mut c = Connection::with_toplevel(false);
    c.request_passes(message(40, 0, &word(41)));
    c.request_passes(message(6, 2, &[]));
    assert!(c.registry.xdg_surface.contains(&41));
    let (a, b) = (buffer(&message(6, 2, &word(7))), vec![message(6, 2, &word(7)), vec![9; 65532]]);
    assert_eq!(read_request(&c.registry, &a), Some(Request::GetXdgSurface { id: 7 }));
    assert_eq!(read_request(&c.registry, &b.concat()), Some(Request::GetXdgSurface { id: 7 }));
}

#[test]
fn requests_and_events_are_read_from_their_messages() {
    let c = Connection::with_keyboard(true);
    let bytes = buffer(&bind(2, 17, "wl_seat", 3));
    let request = read_request(&c.registry, &bytes);
    assert_eq!(request, Some(Request::Bind { handle: 17, id: 3 }));
    assert!(check_request_size(Request::Bind { handle: 17, id: 3 }, &bytes));
    assert!(!check_request_size(Request::GetRegistry { id: 3 }, &bytes));
    assert_eq!(
        read_event(&c.registry, &buffer(&global(2, 5, "xdg_wm_base"))),
        Some(Event::Global { handle: 5, interface: Interface::XdgWmBase })
    );
    assert_eq!(
        read_event(&c.registry, &buffer(&global(2, 5, "xdg_wm_bas"))),
        Some(Event::Global { handle: 5, interface: Interface::Other })
    );
    assert_eq!(read_event(&c.registry, &buffer(&message(5, 2, &[]))), Some(Event::KeyboardLeave));
    let c = Connection::with_toplevel(true);
    let bytes = buffer(&configure(8, &[1, 2, 3, 4]));
    let event = Event::Configure { toplevel: 8, width: 640, height: 480, activated: true };
    assert_eq!(read_event(&c.registry, &bytes), Some(event));
    assert!(check_event_size(event, &bytes));
    assert!(!check_event_size(event, &buffer(&message(8, 0, &words(&[0, 0, 4])))));
}

#[test]
fn outbound_bytes_are_the_same_however_they_are_cut() {
    let stream = vec![
        message(1, 1, &word(2)),
        message(40, 7, &words(&[1, 2, 3, 4, 5])),
        message(41, 0, &[]),
        message(1, 0, &word(3)),
    ]
    .concat();
    for cut in [4usize, 8, 12, 20, 44] {
        let mut c = Connection::new(true);
        let mut sent = Vec::new();
        for piece in stream.chunks(cut) {
            sent.extend(c.request(piece).unwrap());
        }
        assert_eq!(sent, stream);
        assert!(c.registry.wl_registry.contains(&2));
    }
}

#[test]
fn blocked_events_leave_the_others_in_order() {
    let mut c = Connection::with_keyboard(true);
    let (a, b) = (message(5, 1, &words(&[1, 2, 3])), message(90, 0, &[]));
    let leave = message(5, 2, &words(&[1, 2]));
    let stream = vec![a.clone(), leave.clone(), b.clone(), leave, a.clone()].concat();
    assert_eq!(c.event(&stream), Some(vec![a.clone(), b, a].concat()));
}

#[test]
fn a_part_of_a_word_is_refused_or_lost() {
    let mut c = Connection::new(true);
    assert_eq!(c.request(&[1, 2, 3, 4, 5]), None);
    let m = message(9, 0, &[1, 2, 3, 4]);
    let mut c = Connection::new(false);
    let odd = vec![m.clone(), vec![1, 2]].concat();
    assert_eq!(c.request(&odd), Some(m.clone()));
    c.request_passes(m);
}

#[test]
fn receiving_decides_what_comes_next() {
    let mut registry = WLObjectRegistry::new();
    let mut f = Forwarder::new(HandlerRole::OutBound, true);
    assert!(matches!(
        f.on_receive(&mut registry, ReceiveOutcome::WouldBlock),
        ReceiveAction::Retry
    ));
    assert!(matches!(f.on_receive(&mut registry, ReceiveOutcome::Failed), ReceiveAction::Fail));
    let end = ReceiveOutcome::Received { bytes: &[], rights: vec![] };
    assert!(matches!(f.on_receive(&mut registry, end), ReceiveAction::Finish));
    let rights_only = ReceiveOutcome::Received { bytes: &[], rights: vec![4, 5] };
    match f.on_receive(&mut registry, rights_only) {
        ReceiveAction::Send { response, rights, notes } => {
            assert!(notes.is_empty());
            assert!(response.is_empty());
            assert_eq!(rights, vec![4, 5]);
        }
        _ => panic!("not sent"),
    }
}

#[test]
fn sending_decides_what_is_closed() {
    match on_send(SendOutcome::Sent { n: 3 }, vec![1, 2, 3], vec![4, 5]) {
        SendAction::Receive { close } => assert_eq!(close, vec![4, 5]),
        _ => panic!("not sent"),
    }
    match on_send(SendOutcome::Sent { n: 0 }, vec![], vec![4]) {
        SendAction::Receive { close } => assert_eq!(close, vec![4]),
        _ => panic!("not sent"),
    }
    match on_send(SendOutcome::Failed, vec![1, 2, 3], vec![4, 5]) {
        SendAction::Fail { close } => assert_eq!(close, vec![4, 5]),
        _ => panic!("not failed"),
    }
}

#[test]
fn a_send_that_would_block_is_repeated() {
    match on_send(SendOutcome::WouldBlock, vec![1, 2, 3], vec![4, 5]) {
        SendAction::Send { response, rights, close } => {
            assert_eq!(response, vec![1, 2, 3]);
            assert_eq!(rights, vec![4, 5]);
            assert!(close.is_empty());
        }
        _ => panic!("not repeated"),
    }
}

#[test]
fn the_rest_of_a_partial_send_is_sent() {
    match on_send(SendOutcome::Sent { n: 2 }, vec![1, 2, 3], vec![4, 5]) {
        SendAction::Send { response, rights, close } => {
            assert_eq!(response, vec![3]);
            assert!(rights.is_empty());
            assert_eq!(close, vec![4, 5]);
        }
        _ => panic!("not sent on"),
    }
}

/// Sends `response` until it is sent, as `outcomes` says: the bytes that were
/// accepted, the file descriptors that went out, and those that were closed.
fn send_all(
    mut response: Vec<u8>,
    mut rights: Vec<i32>,
    outcomes: &[SendOutcome],
) -> (Vec<u8>, Vec<i32>, Vec<i32>) {
    let (mut accepted, mut delivered, mut closed) = (vec![], vec![], vec![]);
    for outcome in outcomes {
        if let SendOutcome::Sent { n } = outcome {
            accepted.extend_from_slice(&response[..*n]);
            delivered.extend_from_slice(&rights);
        }
        match on_send(*outcome, response, rights) {
            SendAction::Send { response: unsent, rights: waiting, close } => {
                closed.extend(close);
                response = unsent;
                rights = waiting;
            }
            SendAction::Receive { close } => {
                closed.extend(close);
                return (accepted, delivered, closed);
            }
            SendAction::Fail { .. } => panic!("failed"),
        }
    }
    panic!("not sent")
}

#[test]
fn the_socket_gets_what_is_forwarded() {
    let mut c = Connection::with_keyboard(true);
    let (a, b) = (message(5, 1, &words(&[1, 2, 3])), message(90, 0, &[]));
    let leave = message(5, 2, &words(&[1, 2]));
    let first = c.event(&vec![a.clone(), leave.clone()].concat()).unwrap();
    let outcomes = [
        SendOutcome::WouldBlock,
        SendOutcome::Sent { n: 7 },
        SendOutcome::WouldBlock,
        SendOutcome::Sent { n: 5 },
        SendOutcome::Sent { n: 8 },
    ];
    let (mut accepted, delivered, closed) = send_all(first, vec![4, 5], &outcomes);
    assert_eq!(delivered, vec![4, 5]);
    assert_eq!(closed, vec![4, 5]);
    let second = c.event(&vec![leave, b.clone()].concat()).unwrap();
    let outcomes = [SendOutcome::WouldBlock, SendOutcome::Sent { n: 8 }];
    accepted.extend(send_all(second, vec![], &outcomes).0);
    assert_eq!(accepted, vec![a, b].concat());
}

#[test]
fn what_is_worth_telling_is_told() {
    let mut registry = WLObjectRegistry::new();
    let mut out = WLMessageHandler::new(HandlerRole::OutBound);
    let mut inn = WLMessageHandler::new(HandlerRole::InBound);
    let cases: Vec<(bool, Vec<u8>, Option<Note>)> = vec![
        (true, message(1, 1, &word(2)), Some(Note::Registry { id: 2 })),
        (false, global(2, 17, "wl_seat"), None),
        (false, global(2, 30, "xdg_wm_base"), None),
        (true, bind(2, 17, "wl_seat", 3), Some(Note::Seat { id: 3 })),
        (true, bind(2, 30, "xdg_wm_base", 6), Some(Note::WmBase { id: 6 })),
        (true, bind(2, 31, "wl_shm", 60), None),
        (true, message(3, 0, &word(4)), Some(Note::Pointer { id: 4 })),
        (true, message(3, 1, &word(5)), Some(Note::Keyboard { id: 5 })),
        (true, message(6, 2, &word(7)), Some(Note::XdgSurface { id: 7 })),
        (true, message(7, 1, &word(8)), Some(Note::Toplevel { id: 8 })),
        (true, message(7, 0, &[]), None),
        (false, message(5, 1, &words(&[1, 7, 0])), Some(Note::KeyboardEnter)),
        (false, message(5, 2, &words(&[1, 7])), Some(Note::KeyboardLeave)),
        (false, message(5, 3, &words(&[1, 7])), None),
        (false, message(4, 1, &words(&[1, 7])), None),
        (
            false,
            message(8, 0, &words(&[0xffff_ffff, 480, 4, 4])),
            Some(Note::Configure { width: -1, height: 480, activated: true }),
        ),
        (
            false,
            configure(8, &[]),
            Some(Note::Configure { width: 640, height: 480, activated: false }),
        ),
    ];
    for (outbound, m, note) in cases {
        let handler = if outbound { &mut out } else { &mut inn };
        let expected: Vec<Note> = note.into_iter().collect();
        assert_eq!(append(handler, &mut registry, &m), expected);
    }
}

#[test]
fn notes_come_with_what_is_sent_or_refused() {
    let mut registry = WLObjectRegistry::new();
    let mut f = Forwarder::new(HandlerRole::OutBound, true);
    let two = vec![message(1, 1, &word(2)), message(1, 1, &word(3))].concat();
    match f.on_receive(&mut registry, ReceiveOutcome::Received { bytes: &two, rights: vec![] }) {
        ReceiveAction::Send { notes, .. } => {
            assert_eq!(notes, vec![Note::Registry { id: 2 }, Note::Registry { id: 3 }]);
        }
        _ => panic!("not sent"),
    }
    let bad = vec![message(1, 1, &word(4)), message(1, 1, &words(&[5, 6]))].concat();
    match f.on_receive(&mut registry, ReceiveOutcome::Received { bytes: &bad, rights: vec![] }) {
        ReceiveAction::Refuse { notes } => assert_eq!(notes, vec![Note::Registry { id: 4 }]),
        _ => panic!("not refused"),
    }
}

#[test]
fn a_message_is_judged_when_it_is_complete() {
    let mut c = Connection::new(true);
    c.request_passes(message(1, 1, &word(2)));
    c.event_passes(global(2, 17, "wl_seat"));
    c.request_passes(bind(2, 17, "wl_seat", 3));
    let leave = message(5, 2, &words(&[2, 7]));
    assert_eq!(c.event(&leave[..12]), Some(vec![]));
    c.request_passes(message(3, 1, &word(5)));
    assert_eq!(c.event(&leave[12..]), Some(vec![]));
    c.event_passes(message(5, 1, &words(&[1, 7, 0])));
}

#[test]
fn requests_make_objects_and_events_tell_handles() {
    let mut registry = WLObjectRegistry::new();
    assert!(registry.note_event(Event::Global { handle: 3, interface: Interface::WlSeat }));
    assert!(registry.note_event(Event::Global { handle: 4, interface: Interface::XdgWmBase }));
    assert!(registry.note_event(Event::Global { handle: 5, interface: Interface::Other }));
    assert_eq!((registry.wl_seat_handle, registry.xdg_wm_base_handle), (3, 4));
    assert!(registry.wl_seat.is_empty());
    registry.note_request(Request::Bind { handle: 3, id: 10 });
    registry.note_request(Request::Bind { handle: 4, id: 11 });
    registry.note_request(Request::GetPointer { id: 12 });
    registry.note_request(Request::GetKeyboard { id: 13 });
    registry.note_request(Request::GetXdgSurface { id: 14 });
    registry.note_request(Request::GetToplevel { id: 15 });
    registry.note_request(Request::GetRegistry { id: 16 });
    registry.note_request(Request::Other);
    assert_eq!((registry.wl_seat_handle, registry.xdg_wm_base_handle), (3, 4));
    assert!(registry.wl_seat.contains(&10) && registry.xdg_wm_base.contains(&11));
    assert!(registry.wl_pointer.contains(&12) && registry.wl_keyboard.contains(&13));
    assert!(registry.xdg_surface.contains(&14) && registry.wl_registry.contains(&16));
    assert_eq!(registry.xdg_toplevel.get(&15), Some(&false));
    assert!(!registry.note_event(Event::KeyboardLeave));
    let configure = |activated| Event::Configure { toplevel: 15, width: 0, height: 0, activated };
    assert!(registry.note_event(configure(false)));
    assert!(registry.note_event(configure(true)));
    assert!(!registry.note_event(configure(false)));
    assert!(registry.note_event(Event::KeyboardEnter));
    assert!(registry.note_event(Event::Other));
    assert_eq!(registry.wl_display, 1);
}
