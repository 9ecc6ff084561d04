use gl_lib::scene_3d::{frame_event, SceneControllerSelected, SceneEvent, WindowSize};
use gl_lib::sdl_gui::components::base::{ClickType, ComponentEvent, KeyInfo, OnTop};
use gl_lib::sdl_gui::components::container::{
    apply_internal_event, push_component_event, route_input, ComponentMatch, ComponentProbe, ContainerInput,
    HandleRes, InternalComponentEvent, MouseButton,
};
use gl_lib::sdl_gui::components::text_box::edit_content;
use std::collections::VecDeque;

#[test]
fn text_box_typing() {
    assert_eq!(Some("ab".to_string()), edit_content("a", 98, false, false));
    assert_eq!(Some("aB".to_string()), edit_content("a", 98, true, false));
    assert_eq!(Some("aB".to_string()), edit_content("a", 98, false, true));
    assert_eq!(Some("ab".to_string()), edit_content("a", 98, true, true));
    assert_eq!(Some("a1".to_string()), edit_content("a", 49, true, false));
    assert_eq!(Some("a ".to_string()), edit_content("a", 32, false, false));
    assert_eq!(Some("".to_string()), edit_content("a", 8, false, false));
    assert_eq!(Some("".to_string()), edit_content("", 8, false, false));
    assert_eq!(Some("h\u{e9}".to_string()), edit_content("h\u{e9}l", 8, false, false));
    assert_eq!(None, edit_content("a", 13, false, false));
    assert_eq!(None, edit_content("a", 127, false, false));
    assert_eq!(None, edit_content("a", 1073741903, false, false));
}

fn probe(key: usize, on: bool, disabled: bool, hover: bool) -> ComponentProbe {
    ComponentProbe { key, on_top: if on { OnTop::OnTop(0) } else { OnTop::No }, disabled, hover }
}

#[test]
fn clicks_go_to_enabled_components_under_the_pointer() {
    let mut q = VecDeque::new();
    let probes = [probe(1, true, false, false), probe(2, true, true, false), probe(3, false, false, true)];
    let ev = ComponentEvent::Clicked(ClickType::Left, 5, 6);
    let r = push_component_event(ev, ComponentMatch::Position, &probes, false, &mut q);
    assert_eq!(HandleRes::Consumed, r);
    assert_eq!(vec![InternalComponentEvent { id: 1, event: ev }], q.into_iter().collect::<Vec<_>>());
}

#[test]
fn motion_ends_hovering_of_components_left() {
    let mut q = VecDeque::new();
    let probes = [probe(1, false, false, true), probe(2, false, false, false), probe(3, true, false, false)];
    let r = push_component_event(ComponentEvent::Hover, ComponentMatch::Position, &probes, true, &mut q);
    assert_eq!(HandleRes::Consumed, r);
    assert_eq!(
        vec![
            InternalComponentEvent { id: 1, event: ComponentEvent::HoverEnd },
            InternalComponentEvent { id: 3, event: ComponentEvent::Hover },
        ],
        q.into_iter().collect::<Vec<_>>()
    );
}

#[test]
fn nothing_under_the_pointer_leaves_the_event_unused() {
    let mut q = VecDeque::new();
    let probes = [probe(1, false, false, false)];
    let r = push_component_event(ComponentEvent::Hover, ComponentMatch::Position, &probes, true, &mut q);
    assert_eq!(HandleRes::Unused, r);
    assert!(q.is_empty());
}

#[test]
fn key_presses_go_to_the_focused_component() {
    let mut q = VecDeque::new();
    let key = ComponentEvent::KeyboardInput(KeyInfo { keycode: 97, keymod: 0 });
    let r = push_component_event(key, ComponentMatch::ById(4), &[], false, &mut q);
    assert_eq!(HandleRes::Unused, r);
    assert_eq!(Some(&InternalComponentEvent { id: 4, event: key }), q.front());
}

#[test]
fn routing_of_window_events() {
    let down = ContainerInput::MouseButtonDown { button: MouseButton::Right, x: 1, y: 2 };
    assert_eq!(
        Some((ComponentEvent::Clicked(ClickType::Right, 1, 2), ComponentMatch::Position, false)),
        route_input(&down, None)
    );
    let middle = ContainerInput::MouseButtonDown { button: MouseButton::Other, x: 1, y: 2 };
    assert_eq!(None, route_input(&middle, Some(3)));
    let motion = ContainerInput::MouseMotion { x: 1, y: 2 };
    assert_eq!(Some((ComponentEvent::Hover, ComponentMatch::Position, true)), route_input(&motion, None));
    let key = ContainerInput::KeyDown { keycode: Some(97), keymod: 1 };
    assert_eq!(None, route_input(&key, None));
    assert_eq!(
        Some((
            ComponentEvent::KeyboardInput(KeyInfo { keycode: 97, keymod: 1 }),
            ComponentMatch::ById(3),
            false
        )),
        route_input(&key, Some(3))
    );
    assert_eq!(None, route_input(&ContainerInput::KeyDown { keycode: None, keymod: 0 }, Some(3)));
    assert_eq!(None, route_input(&ContainerInput::Other, Some(3)));
}

#[test]
fn clicks_focus_and_hovers_flag() {
    let click = InternalComponentEvent { id: 7, event: ComponentEvent::Clicked(ClickType::Right, 0, 0) };
    assert_eq!((Some(7), false), apply_internal_event(Some(1), false, &click));
    let hover = InternalComponentEvent { id: 7, event: ComponentEvent::Hover };
    assert_eq!((Some(1), true), apply_internal_event(Some(1), false, &hover));
    let end = InternalComponentEvent { id: 7, event: ComponentEvent::HoverEnd };
    assert_eq!((None, false), apply_internal_event(None, true, &end));
}

#[test]
fn scene_frame_events() {
    let s = frame_event(false, SceneControllerSelected::Free, SceneEvent::Escape);
    assert!(s.forward_to_inputs);
    assert!(s.ui_mode);
    let s2 = frame_event(s.ui_mode, s.selected, SceneEvent::Escape);
    assert!(!s2.forward_to_inputs);
    assert!(!s2.ui_mode);
    let t = frame_event(true, SceneControllerSelected::Free, SceneEvent::Tab);
    assert_eq!(SceneControllerSelected::Follow, t.selected);
    assert!(t.ui_mode);
    let t2 = frame_event(true, t.selected, SceneEvent::Tab);
    assert_eq!(SceneControllerSelected::Free, t2.selected);
    let r = frame_event(false, SceneControllerSelected::Follow, SceneEvent::Resized(800, 600));
    assert_eq!(Some(WindowSize { w: 800, h: 600 }), r.resize);
    let o = frame_event(false, SceneControllerSelected::Follow, SceneEvent::Other);
    assert_eq!(None, o.resize);
    assert_eq!(SceneControllerSelected::Follow, o.selected);
}
