use gl_lib::sdl_gui::components::base::{ClickType, OnTop};
use gl_lib::sdl_gui::components::container::HandleRes;
use gl_lib::sdl_gui::layout::OnFill;
use gl_lib::widget_gui::event_handling::{dispatch_event, dispatch_widget_inputs, Event};
use gl_lib::widget_gui::widgets::{CheckboxWidget, RowWidget, TextWidget};
use gl_lib::widget_gui::{
    layout_widgets, BoxContraint, FlexDir, Geometry, LayoutAttributes, NamedWidgetInputQueue, Position,
    Size, SizeConstraint, UiState, WidgetInput, WidgetInputQueue,
};
use std::collections::VecDeque;

fn checkbox_row() -> UiState<bool> {
    let mut ui: UiState<bool> = UiState::new();
    let row = ui.add_widget(Box::new(RowWidget {}), None, None);
    let _ = ui.add_widget(Box::new(TextWidget { text: "label".to_string() }), Some(row), None);
    let _ = ui.add_widget(Box::new(CheckboxWidget::new(false)), Some(row), None);
    layout_widgets(&BoxContraint::new(1000, 600), &mut ui);
    ui
}

#[test]
fn hit_test_finds_the_deepest_widget() {
    let ui = checkbox_row();
    assert_eq!(Some(2), ui.get_widget(Position { x: 110, y: 10 }));
    assert_eq!(Some(1), ui.get_widget(Position { x: 50, y: 10 }));
    assert_eq!(None, ui.get_widget(Position { x: 500, y: 500 }));
}

#[test]
fn release_on_checkbox_toggles_it_and_sends_its_state() {
    let mut ui = checkbox_row();
    dispatch_event(&mut ui, &Event::MouseButtonDown { x: 110, y: 10 });
    assert!(ui.poll_widget_outputs().is_none());
    dispatch_event(&mut ui, &Event::MouseButtonUp { x: 110, y: 10 });
    let out = ui.poll_widget_outputs().unwrap();
    assert_eq!(2, out.widget_id);
    assert!(out.event);
    dispatch_event(&mut ui, &Event::MouseButtonUp { x: 115, y: 5 });
    let out = ui.poll_widget_outputs().unwrap();
    assert!(!out.event);
    assert!(ui.poll_widget_outputs().is_none());
}

#[test]
fn press_holds_the_mouse_until_release() {
    let mut ui = checkbox_row();
    // Press on the checkbox, release far away: the checkbox still gets the release.
    dispatch_event(&mut ui, &Event::MouseButtonDown { x: 110, y: 10 });
    dispatch_event(&mut ui, &Event::MouseMotion { x: 900, y: 500, xrel: 5 });
    dispatch_event(&mut ui, &Event::MouseButtonUp { x: 900, y: 500 });
    let out = ui.poll_widget_outputs().unwrap();
    assert_eq!(2, out.widget_id);
    // Once released, a release elsewhere reaches nobody.
    dispatch_event(&mut ui, &Event::MouseButtonUp { x: 900, y: 500 });
    assert!(ui.poll_widget_outputs().is_none());
}

#[test]
fn other_events_change_nothing() {
    let mut ui = checkbox_row();
    dispatch_event(&mut ui, &Event::TextInput);
    dispatch_event(&mut ui, &Event::Other);
    assert!(ui.poll_widget_outputs().is_none());
}

#[test]
fn queued_inputs_are_handed_out_and_the_queue_empties() {
    let mut ui = checkbox_row();
    ui.widget_input_queue.push_value(2, true);
    ui.widget_input_queue.push_input(WidgetInput { input: false, widget_id: 1 });
    assert_eq!(2, ui.widget_input_queue.0.len());
    dispatch_widget_inputs(&mut ui);
    assert_eq!(0, ui.widget_input_queue.0.len());
}

#[test]
fn input_queue_keeps_order() {
    let mut q: WidgetInputQueue<i32> = WidgetInputQueue(VecDeque::new());
    q.push_value(3, 30);
    q.push_input(WidgetInput { input: 40, widget_id: 4 });
    assert_eq!(3, q.0[0].widget_id);
    assert_eq!(30, q.0[0].input);
    assert_eq!(4, q.0[1].widget_id);
}

#[test]
fn named_inputs_come_out_oldest_first() {
    let mut q: NamedWidgetInputQueue<u8> = NamedWidgetInputQueue::new();
    assert!(q.pop_front().is_none());
    q.send_value_to("main", "ok_button", 1);
    q.send_to("side", "slider", 2);
    let first = q.pop_front().unwrap();
    assert_eq!("main", first.to_window_name);
    assert_eq!("ok_button", first.to_widget_name);
    assert_eq!(1, first.input);
    let second = q.pop_front().unwrap();
    assert_eq!("slider", second.to_widget_name);
    assert_eq!(2, second.input);
    assert!(q.pop_front().is_none());
}

#[test]
fn geometry_contains_its_border() {
    let g = Geometry { pos: Position { x: 10, y: 20 }, size: Size { pixel_w: 5, pixel_h: 5 } };
    assert!(g.contains_position(Position { x: 10, y: 20 }));
    assert!(g.contains_position(Position { x: 15, y: 25 }));
    assert!(!g.contains_position(Position { x: 16, y: 25 }));
    assert!(!g.contains_position(Position { x: 9, y: 21 }));
}

#[test]
fn positions_move_along_a_direction() {
    let mut p = Position { x: 1, y: 2 };
    p.add_by_flex(10, FlexDir::X);
    assert_eq!(Position { x: 11, y: 2 }, p);
    p.add_by_flex(-3, FlexDir::Y);
    assert_eq!(Position { x: 11, y: -1 }, p);
    assert_eq!(Position { x: 12, y: 1 }, p.add(Position { x: 1, y: 2 }));
    assert_eq!(30, Size { pixel_w: 20, pixel_h: 30 }.from_flex(FlexDir::Y));
}

#[test]
fn layout_attribute_builders() {
    let a = LayoutAttributes::default().flex_width(3).flex_height(2);
    assert_eq!(SizeConstraint::Flex(3), a.constraint(FlexDir::X));
    assert_eq!(SizeConstraint::Flex(2), a.constraint(FlexDir::Y));
    let b = a.no_flex();
    assert_eq!(SizeConstraint::NoFlex, b.width);
    assert_eq!(SizeConstraint::NoFlex, b.height);
    let c = b.width(SizeConstraint::Fixed(7)).height(SizeConstraint::Fixed(8));
    assert_eq!(SizeConstraint::Fixed(7), c.width);
    assert_eq!(SizeConstraint::Fixed(8), c.height);
}

#[test]
fn box_constraints() {
    let b = BoxContraint::fixed_width(10, 20);
    assert_eq!((10, 0, 10, 20), (b.min_w, b.min_h, b.max_w, b.max_h));
    let b = BoxContraint::fixed_height(10, 20);
    assert_eq!((0, 20, 10, 20), (b.min_w, b.min_h, b.max_w, b.max_h));
    let b = BoxContraint::new(3, 4);
    assert_eq!((0, 0, 3, 4), (b.min_w, b.min_h, b.max_w, b.max_h));
}

#[test]
fn sdl_gui_values() {
    assert_ne!(ClickType::Left, ClickType::Right);
    assert_eq!(OnTop::OnTop(2), OnTop::OnTop(2));
    assert_ne!(OnTop::No, OnTop::OnTop(0));
    assert_ne!(HandleRes::Consumed, HandleRes::Unused);
    assert_ne!(OnFill::Expand, OnFill::Shrink);
}

#[test]
fn values_sent_to_a_checkbox_leave_it_as_it_was() {
    let mut ui = checkbox_row();
    ui.push_input_to_widget(WidgetInput { input: true, widget_id: 2 });
    ui.widget_input_queue.push_value(2, true);
    dispatch_widget_inputs(&mut ui);
    dispatch_event(&mut ui, &Event::MouseButtonUp { x: 110, y: 10 });
    let out = ui.poll_widget_outputs().unwrap();
    assert_eq!(2, out.widget_id);
    assert!(out.event);
}

#[test]
fn a_motion_over_the_label_sends_nothing() {
    let mut ui = checkbox_row();
    dispatch_event(&mut ui, &Event::MouseMotion { x: 50, y: 10, xrel: 1 });
    dispatch_event(&mut ui, &Event::MouseButtonUp { x: 50, y: 10 });
    assert!(ui.poll_widget_outputs().is_none());
}

#[test]
fn flex_factors_of_a_small_tree_fit() {
    let ui = checkbox_row();
    assert!(ui.flex_sums_fit());
}
