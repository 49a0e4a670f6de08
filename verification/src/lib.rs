//! The logic of a Wayland socket relay that keeps a client from learning that
//! its window has lost the focus.
//!
//! The relay stands between a client and the compositor. It forwards what either
//! sends byte for byte, but blocks two kinds of events: `wl_keyboard.leave`, and
//! `xdg_toplevel.configure` for a window that is not activated any more.
//!
//! [`bytes`] and [`message`] read what is on the wire, [`registry`] knows the
//! objects of a connection and decides which events are blocked, [`handler`] cuts
//! one direction of a connection into messages, and [`forward`] says what to do
//! with the sockets. [`laws`] states what holds of them together.

pub mod bytes;
pub mod forward;
pub mod handler;
pub mod laws;
pub mod message;
pub mod registry;
