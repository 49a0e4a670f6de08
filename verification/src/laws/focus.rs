//! What the relay keeps from the client, and what it does not.

use vstd::prelude::*;

#[allow(unused_imports)]
use crate::{handler, message};
#[allow(unused_imports)]
use crate::handler::HandlerRole;
#[allow(unused_imports)]
use crate::registry::{Event, Interface, RegistryModel, Request};

verus! {

/// Only two kinds of messages are ever held back, both from the client:
/// `wl_keyboard.leave`, and `xdg_toplevel.configure` that does not name the window
/// as activated, for a window that was activated before.
pub proof fn law_only_focus_loss_is_blocked(
    role: HandlerRole,
    registry: RegistryModel,
    m: Seq<u8>,
)
    ensures
        !handler::judge(role, registry, m).1 <==> {
            let event = message::event_of(registry, m);
            &&& role is InBound
            &&& {
                ||| event is KeyboardLeave
                ||| event matches Event::Configure { toplevel, activated, .. } && !activated
                    && registry.was_activated(toplevel)
            }
        },
{
}

/// Nothing that a client has bound is ever forgotten, and the display stays the
/// same object.
pub proof fn law_registry_grows(role: HandlerRole, registry: RegistryModel, m: Seq<u8>)
    ensures
        ({
            let after = handler::judge(role, registry, m).0;
            &&& after.wl_display == registry.wl_display
            &&& registry.wl_registry.subset_of(after.wl_registry)
            &&& registry.wl_seat.subset_of(after.wl_seat)
            &&& registry.xdg_wm_base.subset_of(after.xdg_wm_base)
            &&& registry.xdg_surface.subset_of(after.xdg_surface)
            &&& registry.xdg_toplevel.dom().subset_of(after.xdg_toplevel.dom())
            &&& registry.wl_pointer.subset_of(after.wl_pointer)
            &&& registry.wl_keyboard.subset_of(after.wl_keyboard)
        }),
{
}

/// Objects come into being by requests alone, handles become known by events
/// alone.
pub proof fn law_directions_are_apart(registry: RegistryModel, m: Seq<u8>)
    ensures
        ({
            let after = handler::judge(HandlerRole::OutBound, registry, m).0;
            &&& after.wl_seat_handle == registry.wl_seat_handle
            &&& after.xdg_wm_base_handle == registry.xdg_wm_base_handle
        }),
        ({
            let after = handler::judge(HandlerRole::InBound, registry, m).0;
            &&& after.wl_registry == registry.wl_registry
            &&& after.wl_seat == registry.wl_seat
            &&& after.xdg_wm_base == registry.xdg_wm_base
            &&& after.xdg_surface == registry.xdg_surface
            &&& after.xdg_toplevel.dom() == registry.xdg_toplevel.dom()
            &&& after.wl_pointer == registry.wl_pointer
            &&& after.wl_keyboard == registry.wl_keyboard
        }),
{
    let event = message::event_of(registry, m);
    if let Event::Configure { toplevel, .. } = event {
        assert(registry.xdg_toplevel.insert(toplevel, true).dom() =~= registry.xdg_toplevel.dom());
    }
}

/// The registry after the messages of `traffic`, in both directions, in the
/// order in which they were judged.
pub open spec fn after_traffic(
    registry: RegistryModel,
    traffic: Seq<(HandlerRole, Seq<u8>)>,
) -> RegistryModel
    decreases traffic.len(),
{
    if traffic.len() == 0 {
        registry
    } else {
        let (role, m) = traffic.last();
        handler::judge(role, after_traffic(registry, traffic.drop_last()), m).0
    }
}

/// Whether the `i`th message of `traffic` makes `toplevel` a new toplevel.
pub open spec fn creates_toplevel(
    registry: RegistryModel,
    traffic: Seq<(HandlerRole, Seq<u8>)>,
    i: int,
    toplevel: u32,
) -> bool {
    let (role, m) = traffic[i];
    &&& role is OutBound
    &&& message::request_of(after_traffic(registry, traffic.take(i)), m)
        == (Request::GetToplevel { id: toplevel })
}

/// A keyboard stays a keyboard, whatever is sent, and each of its leave events
/// is blocked as long as its id is not taken for a registry or a pointer too.
pub proof fn law_keyboard_leave_stays_blocked(
    registry: RegistryModel,
    traffic: Seq<(HandlerRole, Seq<u8>)>,
    m: Seq<u8>,
)
    requires
        registry.wl_keyboard.contains(message::object_id(m)),
        message::opcode(m) == message::KEYBOARD_LEAVE,
    ensures
        ({
            let after = after_traffic(registry, traffic);
            let keyboard = message::object_id(m);
            &&& after.wl_keyboard.contains(keyboard)
            &&& !after.wl_registry.contains(keyboard) && !after.wl_pointer.contains(keyboard)
                ==> !handler::judge(HandlerRole::InBound, after, m).1
        }),
    decreases traffic.len(),
{
    if traffic.len() > 0 {
        law_keyboard_leave_stays_blocked(registry, traffic.drop_last(), m);
    }
}

/// Once a window was configured as activated, it counts as activated whatever is
/// sent, until the client makes a new window with its id.
pub proof fn law_activation_stays(
    registry: RegistryModel,
    traffic: Seq<(HandlerRole, Seq<u8>)>,
    toplevel: u32,
)
    requires
        registry.was_activated(toplevel),
        forall|i: int|
            0 <= i < traffic.len() ==> !#[trigger] creates_toplevel(registry, traffic, i, toplevel),
    ensures
        after_traffic(registry, traffic).was_activated(toplevel),
    decreases traffic.len(),
{
    if traffic.len() > 0 {
        let earlier = traffic.drop_last();
        assert forall|i: int| 0 <= i < earlier.len() implies !#[trigger] creates_toplevel(
            registry,
            earlier,
            i,
            toplevel,
        ) by {
            assert(earlier.take(i) =~= traffic.take(i));
            assert(!creates_toplevel(registry, traffic, i, toplevel));
        }
        law_activation_stays(registry, earlier, toplevel);
        assert(traffic.take(traffic.len() - 1) =~= earlier);
        assert(!creates_toplevel(registry, traffic, traffic.len() - 1, toplevel));
    }
}

/// After the first configure event that names a window as activated, every
/// configure event for it that does not is blocked, whatever is sent in between,
/// until the client makes a new window with its id. Its id must not be taken for
/// a registry, a pointer or a keyboard too.
pub proof fn law_deactivation_stays_blocked(
    registry: RegistryModel,
    first: Seq<u8>,
    traffic: Seq<(HandlerRole, Seq<u8>)>,
    m: Seq<u8>,
)
    requires
        message::event_of(registry, first) matches Event::Configure { toplevel, activated, .. }
            && toplevel == message::object_id(m) && activated,
        ({
            let activated = handler::judge(HandlerRole::InBound, registry, first).0;
            let after = after_traffic(activated, traffic);
            let toplevel = message::object_id(m);
            &&& forall|i: int|
                0 <= i < traffic.len() ==> !#[trigger] creates_toplevel(
                    activated,
                    traffic,
                    i,
                    toplevel,
                )
            &&& !after.wl_registry.contains(toplevel)
            &&& !after.wl_pointer.contains(toplevel)
            &&& !after.wl_keyboard.contains(toplevel)
        }),
        message::opcode(m) == message::CONFIGURE,
        !message::is_activated(m),
    ensures
        ({
            let activated = handler::judge(HandlerRole::InBound, registry, first).0;
            !handler::judge(HandlerRole::InBound, after_traffic(activated, traffic), m).1
        }),
{
    let activated = handler::judge(HandlerRole::InBound, registry, first).0;
    law_activation_stays(activated, traffic, message::object_id(m));
}

/// A window that was not activated yet is configured as the compositor says.
pub proof fn law_first_configures_pass(registry: RegistryModel, m: Seq<u8>)
    requires
        !registry.was_activated(message::object_id(m)),
        message::event_of(registry, m) is Configure,
    ensures
        handler::judge(HandlerRole::InBound, registry, m).1,
{
}

/// A configure event that names the window as activated is passed on.
pub proof fn law_activation_passes(registry: RegistryModel, m: Seq<u8>)
    requires
        message::event_of(registry, m) is Configure,
        message::is_activated(m),
    ensures
        handler::judge(HandlerRole::InBound, registry, m).1,
        handler::judge(HandlerRole::InBound, registry, m).0.was_activated(
            message::object_id(m),
        ),
{
}

/// The way to a blocked `wl_keyboard.leave`, from a new connection on: the client
/// gets a registry, the compositor announces the seat, the client binds it and
/// gets its keyboard.
pub proof fn law_way_to_keyboard_leave(
    get_registry: Seq<u8>,
    global: Seq<u8>,
    bind: Seq<u8>,
    get_keyboard: Seq<u8>,
    leave: Seq<u8>,
)
    requires
        message::object_id(get_registry) == 1,
        message::opcode(get_registry) == message::GET_REGISTRY,
        ({
            let registry = message::argument(get_registry, 8);
            let seat = message::argument(bind, 20 + message::name_len(bind));
            let keyboard = message::argument(get_keyboard, 8);
            &&& message::object_id(global) == registry
            &&& message::object_id(bind) == registry
            &&& message::object_id(get_keyboard) == seat
            &&& message::object_id(leave) == keyboard
            &&& registry != 1 && seat != 1 && seat != registry && keyboard != registry
        }),
        message::opcode(global) == message::GLOBAL,
        message::interface_of(global) == Interface::WlSeat,
        message::opcode(bind) == message::BIND,
        message::argument(bind, 8) == message::argument(global, 8),
        message::opcode(get_keyboard) == message::GET_KEYBOARD,
        message::opcode(leave) == message::KEYBOARD_LEAVE,
    ensures
        ({
            let r1 = handler::judge(
                HandlerRole::OutBound,
                RegistryModel::initial(),
                get_registry,
            );
            let r2 = handler::judge(HandlerRole::InBound, r1.0, global);
            let r3 = handler::judge(HandlerRole::OutBound, r2.0, bind);
            let r4 = handler::judge(HandlerRole::OutBound, r3.0, get_keyboard);
            let r5 = handler::judge(HandlerRole::InBound, r4.0, leave);
            r1.1 && r2.1 && r3.1 && r4.1 && !r5.1
        }),
{
}

/// The way to a blocked `xdg_toplevel.configure`, from a new connection on: the
/// client gets a registry, the compositor announces the window manager, the client
/// binds it, makes a surface and a window of it. The window is configured first
/// as not activated, then as activated, and then as not activated again: only the
/// last event is blocked.
pub proof fn law_way_to_configure(
    get_registry: Seq<u8>,
    global: Seq<u8>,
    bind: Seq<u8>,
    get_xdg_surface: Seq<u8>,
    get_toplevel: Seq<u8>,
    before: Seq<u8>,
    activate: Seq<u8>,
    deactivate: Seq<u8>,
)
    requires
        message::object_id(get_registry) == 1,
        message::opcode(get_registry) == message::GET_REGISTRY,
        ({
            let registry = message::argument(get_registry, 8);
            let wm_base = message::argument(bind, 20 + message::name_len(bind));
            let surface = message::argument(get_xdg_surface, 8);
            let toplevel = message::argument(get_toplevel, 8);
            &&& message::object_id(global) == registry
            &&& message::object_id(bind) == registry
            &&& message::object_id(get_xdg_surface) == wm_base
            &&& message::object_id(get_toplevel) == surface
            &&& message::object_id(before) == toplevel
            &&& message::object_id(activate) == toplevel
            &&& message::object_id(deactivate) == toplevel
            &&& registry != 1 && wm_base != 1 && wm_base != registry
            &&& surface != 1 && surface != registry && surface != wm_base && toplevel != registry
        }),
        message::opcode(global) == message::GLOBAL,
        message::interface_of(global) == Interface::XdgWmBase,
        message::argument(global, 8) != 0,
        message::opcode(bind) == message::BIND,
        message::argument(bind, 8) == message::argument(global, 8),
        message::opcode(get_xdg_surface) == message::GET_XDG_SURFACE,
        message::opcode(get_toplevel) == message::GET_TOPLEVEL,
        message::opcode(before) == message::CONFIGURE,
        !message::is_activated(before),
        message::opcode(activate) == message::CONFIGURE,
        message::is_activated(activate),
        message::opcode(deactivate) == message::CONFIGURE,
        !message::is_activated(deactivate),
    ensures
        ({
            let r1 = handler::judge(
                HandlerRole::OutBound,
                RegistryModel::initial(),
                get_registry,
            );
            let r2 = handler::judge(HandlerRole::InBound, r1.0, global);
            let r3 = handler::judge(HandlerRole::OutBound, r2.0, bind);
            let r4 = handler::judge(HandlerRole::OutBound, r3.0, get_xdg_surface);
            let r5 = handler::judge(HandlerRole::OutBound, r4.0, get_toplevel);
            let r6 = handler::judge(HandlerRole::InBound, r5.0, before);
            let r7 = handler::judge(HandlerRole::InBound, r6.0, activate);
            let r8 = handler::judge(HandlerRole::InBound, r7.0, deactivate);
            &&& r1.1 && r2.1 && r3.1 && r4.1 && r5.1 && r6.1 && r7.1
            &&& !r8.1
        }),
{
}

} // verus!
