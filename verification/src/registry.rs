//! The Wayland objects of one connection that the relay has to know.

use std::collections::{HashMap, HashSet};

use vstd::prelude::*;

verus! {

broadcast use vstd::std_specs::hash::group_hash_axioms;

/// The object ids that a client has bound so far, by interface, and the handles
/// under which the compositor announced the globals that matter.
pub struct WLObjectRegistry {
    pub wl_display: u32,
    pub wl_registry: HashSet<u32>,
    pub wl_seat: HashSet<u32>,
    pub wl_seat_handle: u32,
    pub xdg_wm_base: HashSet<u32>,
    pub xdg_wm_base_handle: u32,
    pub xdg_surface: HashSet<u32>,
    /// For each toplevel whether it has been configured as activated.
    pub xdg_toplevel: HashMap<u32, bool>,
    pub wl_pointer: HashSet<u32>,
    pub wl_keyboard: HashSet<u32>,
}

/// What a [`WLObjectRegistry`] holds, as mathematical sets and maps.
pub struct RegistryModel {
    pub wl_display: u32,
    pub wl_registry: Set<u32>,
    pub wl_seat: Set<u32>,
    pub wl_seat_handle: u32,
    pub xdg_wm_base: Set<u32>,
    pub xdg_wm_base_handle: u32,
    pub xdg_surface: Set<u32>,
    pub xdg_toplevel: Map<u32, bool>,
    pub wl_pointer: Set<u32>,
    pub wl_keyboard: Set<u32>,
}

impl View for WLObjectRegistry {
    type V = RegistryModel;

    open spec fn view(&self) -> RegistryModel {
        RegistryModel {
            wl_display: self.wl_display,
            wl_registry: self.wl_registry@,
            wl_seat: self.wl_seat@,
            wl_seat_handle: self.wl_seat_handle,
            xdg_wm_base: self.xdg_wm_base@,
            xdg_wm_base_handle: self.xdg_wm_base_handle,
            xdg_surface: self.xdg_surface@,
            xdg_toplevel: self.xdg_toplevel@,
            wl_pointer: self.wl_pointer@,
            wl_keyboard: self.wl_keyboard@,
        }
    }
}

/// A client's request, as far as it changes what the registry holds.
#[derive(Clone, Copy, Debug, PartialEq, Eq, Structural)]
pub enum Request {
    /// `wl_display.get_registry`
    GetRegistry { id: u32 },
    /// `wl_registry.bind`
    Bind { handle: u32, id: u32 },
    /// `wl_seat.get_pointer`
    GetPointer { id: u32 },
    /// `wl_seat.get_keyboard`
    GetKeyboard { id: u32 },
    /// `xdg_wm_base.get_xdg_surface`
    GetXdgSurface { id: u32 },
    /// `xdg_surface.get_toplevel`
    GetToplevel { id: u32 },
    /// Any other request.
    Other,
}

/// The interface that a `wl_registry.global` event announces.
#[derive(Clone, Copy, Debug, PartialEq, Eq, Structural)]
pub enum Interface {
    WlSeat,
    XdgWmBase,
    Other,
}

/// A compositor's event, as far as it changes what the registry holds or may
/// have to be blocked.
#[derive(Clone, Copy, Debug, PartialEq, Eq, Structural)]
pub enum Event {
    /// `wl_registry.global`
    Global { handle: u32, interface: Interface },
    /// `wl_keyboard.enter`
    KeyboardEnter,
    /// `wl_keyboard.leave`
    KeyboardLeave,
    /// `xdg_toplevel.configure`
    Configure { toplevel: u32, width: i32, height: i32, activated: bool },
    /// Any other event.
    Other,
}

/// Something about a message that is worth telling the user of the relay.
#[derive(Clone, Copy, Debug, PartialEq, Eq, Structural)]
pub enum Note {
    /// The client got the registry `id`.
    Registry { id: u32 },
    /// The client bound the seat as `id`.
    Seat { id: u32 },
    /// The client bound the window manager as `id`.
    WmBase { id: u32 },
    /// The client got the pointer `id`.
    Pointer { id: u32 },
    /// The client got the keyboard `id`.
    Keyboard { id: u32 },
    /// The client made the surface `id`.
    XdgSurface { id: u32 },
    /// The client made the window `id`.
    Toplevel { id: u32 },
    /// A keyboard focus came.
    KeyboardEnter,
    /// A keyboard focus went.
    KeyboardLeave,
    /// A window was configured.
    Configure { width: i32, height: i32, activated: bool },
}

impl RegistryModel {
    /// The registry of a connection on which nothing has been sent.
    pub open spec fn initial() -> RegistryModel {
        RegistryModel {
            wl_display: 1,
            wl_registry: Set::empty(),
            wl_seat: Set::empty(),
            wl_seat_handle: 0,
            xdg_wm_base: Set::empty(),
            xdg_wm_base_handle: 0,
            xdg_surface: Set::empty(),
            xdg_toplevel: Map::empty(),
            wl_pointer: Set::empty(),
            wl_keyboard: Set::empty(),
        }
    }

    /// The registry after the client has sent `request`.
    pub open spec fn after_request(self, request: Request) -> RegistryModel {
        match request {
            Request::GetRegistry { id } => RegistryModel {
                wl_registry: self.wl_registry.insert(id),
                ..self
            },
            Request::Bind { handle, id } => if handle == self.wl_seat_handle {
                RegistryModel { wl_seat: self.wl_seat.insert(id), ..self }
            } else if handle == self.xdg_wm_base_handle {
                RegistryModel { xdg_wm_base: self.xdg_wm_base.insert(id), ..self }
            } else {
                self
            },
            Request::GetPointer { id } => RegistryModel {
                wl_pointer: self.wl_pointer.insert(id),
                ..self
            },
            Request::GetKeyboard { id } => RegistryModel {
                wl_keyboard: self.wl_keyboard.insert(id),
                ..self
            },
            Request::GetXdgSurface { id } => RegistryModel {
                xdg_surface: self.xdg_surface.insert(id),
                ..self
            },
            Request::GetToplevel { id } => RegistryModel {
                xdg_toplevel: self.xdg_toplevel.insert(id, false),
                ..self
            },
            Request::Other => self,
        }
    }

    /// What is worth telling of `request`.
    pub open spec fn request_note(self, request: Request) -> Option<Note> {
        match request {
            Request::GetRegistry { id } => Some(Note::Registry { id }),
            Request::Bind { handle, id } => if handle == self.wl_seat_handle {
                Some(Note::Seat { id })
            } else if handle == self.xdg_wm_base_handle {
                Some(Note::WmBase { id })
            } else {
                None
            },
            Request::GetPointer { id } => Some(Note::Pointer { id }),
            Request::GetKeyboard { id } => Some(Note::Keyboard { id }),
            Request::GetXdgSurface { id } => Some(Note::XdgSurface { id }),
            Request::GetToplevel { id } => Some(Note::Toplevel { id }),
            Request::Other => None,
        }
    }

    /// The registry after the compositor has sent `event`.
    pub open spec fn after_event(self, event: Event) -> RegistryModel {
        match event {
            Event::Global { handle, interface: Interface::WlSeat } => RegistryModel {
                wl_seat_handle: handle,
                ..self
            },
            Event::Global { handle, interface: Interface::XdgWmBase } => RegistryModel {
                xdg_wm_base_handle: handle,
                ..self
            },
            Event::Configure { toplevel, activated: true, .. } => RegistryModel {
                xdg_toplevel: self.xdg_toplevel.insert(toplevel, true),
                ..self
            },
            _ => self,
        }
    }

    /// Whether `toplevel` is known and has been configured as activated.
    pub open spec fn was_activated(self, toplevel: u32) -> bool {
        self.xdg_toplevel.contains_key(toplevel) && self.xdg_toplevel[toplevel]
    }

    /// Whether the client must not see `event`: the loss of the keyboard focus,
    /// and a deactivated window that has been activated before.
    pub open spec fn blocks(self, event: Event) -> bool {
        match event {
            Event::KeyboardLeave => true,
            Event::Configure { toplevel, activated, .. } => !activated && self.was_activated(
                toplevel,
            ),
            _ => false,
        }
    }
}

/// What is worth telling of `event`.
pub open spec fn event_note(event: Event) -> Option<Note> {
    match event {
        Event::KeyboardEnter => Some(Note::KeyboardEnter),
        Event::KeyboardLeave => Some(Note::KeyboardLeave),
        Event::Configure { width, height, activated, .. } => Some(
            Note::Configure { width, height, activated },
        ),
        _ => None,
    }
}

impl Event {
    /// What is worth telling of the event.
    pub fn note(self) -> (note: Option<Note>)
        ensures
            note == event_note(self),
    {
        match self {
            Event::KeyboardEnter => Some(Note::KeyboardEnter),
            Event::KeyboardLeave => Some(Note::KeyboardLeave),
            Event::Configure { width, height, activated, .. } => {
                Some(Note::Configure { width, height, activated })
            },
            Event::Global { .. } => None,
            Event::Other => None,
        }
    }
}

impl WLObjectRegistry {
    /// The registry of a new connection: only the display exists, as object 1.
    pub fn new() -> (registry: Self)
        ensures
            registry@ == RegistryModel::initial(),
    {
        Self {
            wl_display: 1,
            wl_registry: HashSet::new(),
            wl_seat: HashSet::new(),
            wl_seat_handle: 0,
            xdg_wm_base: HashSet::new(),
            xdg_wm_base_handle: 0,
            xdg_surface: HashSet::new(),
            xdg_toplevel: HashMap::new(),
            wl_pointer: HashSet::new(),
            wl_keyboard: HashSet::new(),
        }
    }

    /// Records what a client's request creates, and says what is worth telling
    /// of it.
    pub fn note_request(&mut self, request: Request) -> (note: Option<Note>)
        ensures
            final(self)@ == old(self)@.after_request(request),
            note == old(self)@.request_note(request),
    {
        match request {
            Request::GetRegistry { id } => {
                self.wl_registry.insert(id);
                Some(Note::Registry { id })
            },
            Request::Bind { handle, id } => {
                if handle == self.wl_seat_handle {
                    self.wl_seat.insert(id);
                    Some(Note::Seat { id })
                } else if handle == self.xdg_wm_base_handle {
                    self.xdg_wm_base.insert(id);
                    Some(Note::WmBase { id })
                } else {
                    None
                }
            },
            Request::GetPointer { id } => {
                self.wl_pointer.insert(id);
                Some(Note::Pointer { id })
            },
            Request::GetKeyboard { id } => {
                self.wl_keyboard.insert(id);
                Some(Note::Keyboard { id })
            },
            Request::GetXdgSurface { id } => {
                self.xdg_surface.insert(id);
                Some(Note::XdgSurface { id })
            },
            Request::GetToplevel { id } => {
                self.xdg_toplevel.insert(id, false);
                Some(Note::Toplevel { id })
            },
            Request::Other => None,
        }
    }

    /// Records what a compositor's event tells, and decides whether the client
    /// may see it.
    pub fn note_event(&mut self, event: Event) -> (pass: bool)
        ensures
            final(self)@ == old(self)@.after_event(event),
            pass == !old(self)@.blocks(event),
    {
        match event {
            Event::Global { handle, interface } => {
                match interface {
                    Interface::WlSeat => {
                        self.wl_seat_handle = handle;
                    },
                    Interface::XdgWmBase => {
                        self.xdg_wm_base_handle = handle;
                    },
                    Interface::Other => {},
                }
                true
            },
            Event::KeyboardEnter => true,
            Event::KeyboardLeave => false,
            Event::Configure { toplevel, activated, .. } => {
                if activated {
                    self.xdg_toplevel.insert(toplevel, true);
                    true
                } else {
                    match self.xdg_toplevel.get(&toplevel) {
                        Some(activated_before) => !*activated_before,
                        None => true,
                    }
                }
            },
            Event::Other => true,
        }
    }
}

} // verus!
