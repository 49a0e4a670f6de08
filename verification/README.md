# wl-relay

A Wayland socket forwarder that keeps applications from learning whether their
window has the focus. It stands between the compositor and a client, forwards byte
for byte, and blocks two kinds of events:

- `wl_keyboard.leave`, for every keyboard that the client got from the seat;
- `xdg_toplevel.configure` without the `activated` state, for every window that was
  configured as activated before.

To the application it looks as if the user opened the window and never left it.

## Usage

```
WAYLAND_DISPLAY=wayland-100 <your-command>
```

## Layout

- `src/` is the library, verified with Verus: reading messages, keeping track of
  the objects of a connection, deciding what is blocked, and deciding what to do
  with the two sockets. `src/laws/` states what holds of the whole.
- `app/` is the program: the sockets, and one task for each connection. A debug
  build is strict: it gives up on messages that do not have exactly the size of
  their arguments.
- `tests/` runs the library on messages.
