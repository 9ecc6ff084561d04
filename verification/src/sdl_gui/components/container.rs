use vstd::prelude::*;
use std::collections::VecDeque;
use crate::sdl_gui::components::base::{ClickType, ComponentEvent, KeyInfo, OnTop};

verus! {

/// Whether a component took an event or left it for others.
#[derive(Debug, Clone, Copy, PartialEq, Eq, Structural)]
pub enum HandleRes {
    Consumed,
    Unused,
}

/// An event for the component with key `id`.
#[derive(Debug, Clone, Copy, PartialEq, Eq, Structural)]
pub struct InternalComponentEvent {
    pub id: usize,
    pub event: ComponentEvent,
}

/// Which components an event is for: those under the pointer, or the
/// one with the given key.
#[derive(Debug, Clone, Copy, PartialEq, Eq, Structural)]
pub enum ComponentMatch {
    Position,
    ById(usize),
}

/// What the container learns of one component for the pointer position:
/// its key, whether the pointer is on it, whether it is disabled and
/// whether the pointer was over it before.
#[derive(Debug, Clone, Copy, PartialEq, Eq, Structural)]
pub struct ComponentProbe {
    pub key: usize,
    pub on_top: OnTop,
    pub disabled: bool,
    pub hover: bool,
}

/// The events that a pointer event gives, component by component in the
/// order of `probes`: `event` for each enabled component under the
/// pointer; with `hover_end`, the end of hovering for each component not
/// under the pointer that the pointer was over.
pub open spec fn probe_events(event: ComponentEvent, probes: Seq<ComponentProbe>, hover_end: bool) -> Seq<
    InternalComponentEvent,
>
    decreases probes.len(),
{
    if probes.len() == 0 {
        Seq::empty()
    } else {
        let prev = probe_events(event, probes.drop_last(), hover_end);
        let p = probes.last();
        if p.on_top is OnTop {
            if !p.disabled {
                prev.push(InternalComponentEvent { id: p.key, event })
            } else {
                prev
            }
        } else if hover_end && p.hover {
            prev.push(InternalComponentEvent { id: p.key, event: ComponentEvent::HoverEnd })
        } else {
            prev
        }
    }
}

/// Some component of `probes` is under the pointer.
pub open spec fn any_on_top(probes: Seq<ComponentProbe>) -> bool {
    exists|i: int| 0 <= i < probes.len() && (#[trigger] probes[i]).on_top is OnTop
}

/// Queues `event` for the components it is for: under the pointer, as
/// `probes` tell in the order the components are walked, or the one with
/// the given key. Gives `Consumed` where a component lies under the
/// pointer, even a disabled one.
pub fn push_component_event(
    event: ComponentEvent,
    match_type: ComponentMatch,
    probes: &[ComponentProbe],
    hover_end: bool,
    component_events: &mut VecDeque<InternalComponentEvent>,
) -> (r: HandleRes)
    ensures
        match match_type {
            ComponentMatch::Position => {
                &&& final(component_events)@ == old(component_events)@ + probe_events(
                    event,
                    probes@,
                    hover_end,
                )
                &&& (r == HandleRes::Consumed) == any_on_top(probes@)
            },
            ComponentMatch::ById(id) => {
                &&& final(component_events)@ == old(component_events)@.push(
                    InternalComponentEvent { id, event },
                )
                &&& r == HandleRes::Unused
            },
        },
{
    let mut res = HandleRes::Unused;
    match match_type {
        ComponentMatch::Position => {
            let ghost start = component_events@;
            let mut i: usize = 0;
            proof {
                assert(probes@.take(0) =~= Seq::<ComponentProbe>::empty());
                assert(start + Seq::<InternalComponentEvent>::empty() =~= start);
            }
            while i < probes.len()
                invariant
                    i <= probes.len(),
                    component_events@ == start + probe_events(event, probes@.take(i as int), hover_end),
                    (res == HandleRes::Consumed) == any_on_top(probes@.take(i as int)),
                decreases probes.len() - i,
            {
                let p = probes[i];
                let ghost before = component_events@;
                proof {
                    assert(probes@.take(i + 1).drop_last() =~= probes@.take(i as int));
                    assert(probes@.take(i + 1).last() == p);
                }
                match p.on_top {
                    OnTop::OnTop(_level) => {
                        res = HandleRes::Consumed;
                        if !p.disabled {
                            component_events.push_back(InternalComponentEvent { id: p.key, event });
                        }
                    },
                    OnTop::No => {
                        if hover_end && p.hover {
                            component_events.push_back(
                                InternalComponentEvent { id: p.key, event: ComponentEvent::HoverEnd },
                            );
                        }
                    },
                }
                proof {
                    let t = probes@.take(i + 1);
                    let pe = probe_events(event, probes@.take(i as int), hover_end);
                    assert(component_events@ =~= start + probe_events(event, t, hover_end));
                    if p.on_top is OnTop {
                        assert(t[i as int] == p);
                    } else {
                        if any_on_top(t) {
                            let k = choose|k: int| 0 <= k < t.len() && (#[trigger] t[k]).on_top is OnTop;
                            assert(k < i);
                            assert(probes@.take(i as int)[k] == t[k]);
                        }
                    }
                    if any_on_top(probes@.take(i as int)) {
                        let k = choose|k: int|
                            0 <= k < i && (#[trigger] probes@.take(i as int)[k]).on_top is OnTop;
                        assert(t[k] == probes@.take(i as int)[k]);
                    }
                }
                i = i + 1;
            }
            proof {
                assert(probes@.take(probes.len() as int) =~= probes@);
            }
        },
        ComponentMatch::ById(id) => {
            component_events.push_back(InternalComponentEvent { id, event });
        },
    }
    res
}

/// The mouse buttons that the container tells apart.
#[derive(Debug, Clone, Copy, PartialEq, Eq, Structural)]
pub enum MouseButton {
    Left,
    Right,
    Other,
}

/// The window events the container reacts to, with plain values.
#[derive(Debug, Clone, Copy, PartialEq, Eq, Structural)]
pub enum ContainerInput {
    MouseButtonDown { button: MouseButton, x: i32, y: i32 },
    MouseMotion { x: i32, y: i32 },
    KeyDown { keycode: Option<i32>, keymod: u16 },
    Other,
}

/// How the container routes a window event: a left or right press is a
/// click for the components under the pointer; a motion is a hover for
/// them, and the end of hovering for those it left; a key press goes to
/// the focused component, if any. Gives the event, whom it is for, and
/// whether hovering ends for components missed; `None` for events that
/// reach no component.
pub open spec fn route(input: ContainerInput, focus: Option<usize>) -> Option<
    (ComponentEvent, ComponentMatch, bool),
> {
    match input {
        ContainerInput::MouseButtonDown { button, x, y } => match button {
            MouseButton::Left => Some(
                (ComponentEvent::Clicked(ClickType::Left, x, y), ComponentMatch::Position, false),
            ),
            MouseButton::Right => Some(
                (ComponentEvent::Clicked(ClickType::Right, x, y), ComponentMatch::Position, false),
            ),
            MouseButton::Other => None,
        },
        ContainerInput::MouseMotion { .. } => Some(
            (ComponentEvent::Hover, ComponentMatch::Position, true),
        ),
        ContainerInput::KeyDown { keycode, keymod } => match (focus, keycode) {
            (Some(id), Some(kc)) => Some(
                (
                    ComponentEvent::KeyboardInput(KeyInfo { keycode: kc, keymod }),
                    ComponentMatch::ById(id),
                    false,
                ),
            ),
            _ => None,
        },
        ContainerInput::Other => None,
    }
}

/// Routes a window event; see `route`.
pub fn route_input(input: &ContainerInput, focus: Option<usize>) -> (r: Option<
    (ComponentEvent, ComponentMatch, bool),
>)
    ensures
        r == route(*input, focus),
{
    match *input {
        ContainerInput::MouseButtonDown { button, x, y } => match button {
            MouseButton::Left => Some(
                (ComponentEvent::Clicked(ClickType::Left, x, y), ComponentMatch::Position, false),
            ),
            MouseButton::Right => Some(
                (ComponentEvent::Clicked(ClickType::Right, x, y), ComponentMatch::Position, false),
            ),
            MouseButton::Other => None,
        },
        ContainerInput::MouseMotion { .. } => Some(
            (ComponentEvent::Hover, ComponentMatch::Position, true),
        ),
        ContainerInput::KeyDown { keycode, keymod } => match (focus, keycode) {
            (Some(id), Some(kc)) => Some(
                (
                    ComponentEvent::KeyboardInput(KeyInfo { keycode: kc, keymod }),
                    ComponentMatch::ById(id),
                    false,
                ),
            ),
            _ => None,
        },
        ContainerInput::Other => None,
    }
}

/// The focus and the hover flag of component `ev.id` after the container
/// handles `ev` for it: a click of either button focuses it, a hover sets
/// the flag and the end of hovering clears it.
pub open spec fn after_internal_event(focus: Option<usize>, hover: bool, ev: InternalComponentEvent) -> (
    Option<usize>,
    bool,
) {
    match ev.event {
        ComponentEvent::Clicked(..) => (Some(ev.id), hover),
        ComponentEvent::Hover => (focus, true),
        ComponentEvent::HoverEnd => (focus, false),
        ComponentEvent::KeyboardInput(_) => (focus, hover),
    }
}

/// Only a click moves the focus, onto the component clicked; a key press
/// changes neither the focus nor the hover flag; hovering sets the flag
/// and its end clears it, both leaving the focus; only hovering and its
/// end change the flag.
pub proof fn law_only_clicks_move_focus(focus: Option<usize>, hover: bool, ev: InternalComponentEvent)
    ensures
        ev.event is Clicked ==> after_internal_event(focus, hover, ev).0 == Some(ev.id),
        !(ev.event is Clicked) ==> after_internal_event(focus, hover, ev).0 == focus,
        ev.event is KeyboardInput ==> after_internal_event(focus, hover, ev) == (focus, hover),
        ev.event is Hover ==> after_internal_event(focus, hover, ev).1,
        ev.event is HoverEnd ==> !after_internal_event(focus, hover, ev).1,
        !(ev.event is Hover || ev.event is HoverEnd) ==> after_internal_event(focus, hover, ev).1 == hover,
{
}

/// Keys keep going to the focused component: after it takes a key press,
/// the next key press is routed to it again, for it alone.
pub proof fn law_focus_keeps_keys(id: usize, hover: bool, key: KeyInfo, keycode: i32, keymod: u16)
    ensures
        ({
            let ev = InternalComponentEvent { id, event: ComponentEvent::KeyboardInput(key) };
            let focus = after_internal_event(Some(id), hover, ev).0;
            route(ContainerInput::KeyDown { keycode: Some(keycode), keymod }, focus) == Some(
                (
                    ComponentEvent::KeyboardInput(KeyInfo { keycode, keymod }),
                    ComponentMatch::ById(id),
                    false,
                ),
            )
        }),
{
}

/// The focus and hover flag after handling `ev`; see `after_internal_event`.
pub fn apply_internal_event(focus: Option<usize>, hover: bool, ev: &InternalComponentEvent) -> (r: (
    Option<usize>,
    bool,
))
    ensures
        r == after_internal_event(focus, hover, *ev),
{
    match ev.event {
        ComponentEvent::Clicked(..) => (Some(ev.id), hover),
        ComponentEvent::Hover => (focus, true),
        ComponentEvent::HoverEnd => (focus, false),
        ComponentEvent::KeyboardInput(_) => (focus, hover),
    }
}

} // verus!
