use gl_lib::widget_gui::layout::{AlignmentX, AlignmentY};
use gl_lib::widget_gui::widgets::{ColumnWidget, ContainerWidget, RowWidget, TextWidget};
use gl_lib::widget_gui::{layout_widgets, layout_widgets_full, BoxContraint, LayoutAttributes, Position, SizeConstraint, UiState};

#[test]
fn text_widget() {
    let width = 1000;
    let height = 600;

    let mut ui_state: UiState<()> = UiState::new();

    let text_widget = TextWidget { text: "Hello".to_string() };

    let _ = ui_state.add_widget(Box::new(text_widget), None, None);

    let screen_contraint = BoxContraint::new(width, height);
    layout_widgets(&screen_contraint, &mut ui_state);

    assert_eq!(1, ui_state.geom.len());
    for geo in &ui_state.geom {
        assert_eq!(100, geo.size.pixel_w);
        assert_eq!(30, geo.size.pixel_h);
    }
}

#[test]
fn row_widget_1() {
    let width = 1000;
    let height = 600;

    let mut ui_state: UiState<()> = UiState::new();

    let row_widget = RowWidget {};

    let row_id = ui_state.add_widget(Box::new(row_widget), None, None);

    let text_widget = TextWidget { text: "Hello".to_string() };

    let _ = ui_state.add_widget(Box::new(text_widget), Some(row_id), None);

    let screen_contraint = BoxContraint::new(width, height);
    layout_widgets(&screen_contraint, &mut ui_state);

    assert_eq!(2, ui_state.geom.len());

    assert_eq!(100, ui_state.geom[0].size.pixel_w);
    assert_eq!(30, ui_state.geom[0].size.pixel_h);
}

#[test]
fn row_widget_2() {
    let width = 1000;
    let height = 600;

    let mut ui_state: UiState<()> = UiState::new();

    let row_widget = RowWidget {};

    let row_id = ui_state.add_widget(Box::new(row_widget), None, None);

    let text_widget = TextWidget { text: "Hello".to_string() };

    let _ = ui_state.add_widget(Box::new(text_widget.clone()), Some(row_id), None);
    let _ = ui_state.add_widget(Box::new(text_widget), Some(row_id), None);

    let screen_contraint = BoxContraint::new(width, height);
    layout_widgets(&screen_contraint, &mut ui_state);

    assert_eq!(3, ui_state.geom.len());

    assert_eq!(200, ui_state.geom[0].size.pixel_w);
    assert_eq!(30, ui_state.geom[0].size.pixel_h);

    assert_eq!(100, ui_state.geom[2].pos.x);
}

#[test]
fn row_widget_3() {
    let width = 1000;
    let height = 600;

    let mut ui_state: UiState<()> = UiState::new();

    let row_widget = RowWidget {};

    let row_id = ui_state.add_widget(Box::new(row_widget), None, None);

    let text_widget = TextWidget { text: "Hello".to_string() };

    let _ = ui_state.add_widget(Box::new(text_widget.clone()), Some(row_id), None);
    let _ = ui_state.add_widget(Box::new(text_widget.clone()), Some(row_id), None);
    let _ = ui_state.add_widget(Box::new(text_widget), Some(row_id), None);

    let screen_contraint = BoxContraint::new(width, height);
    layout_widgets(&screen_contraint, &mut ui_state);

    assert_eq!(4, ui_state.geom.len());

    assert_eq!(300, ui_state.geom[0].size.pixel_w);
    assert_eq!(30, ui_state.geom[0].size.pixel_h);

    assert_eq!(200, ui_state.geom[3].pos.x);
}

#[test]
fn row_of_columns_widget_1() {
    let width = 1000;
    let height = 600;

    let mut ui_state: UiState<()> = UiState::new();

    let row_widget = RowWidget {};

    let row_id = ui_state.add_widget(Box::new(row_widget), None, None);

    let column = ColumnWidget {};

    let text_widget = TextWidget { text: "Hello".to_string() };

    // Setup column 1 with 2 texts
    let c1_id = ui_state.add_widget(Box::new(column.clone()), Some(row_id), None);

    let _ = ui_state.add_widget(Box::new(text_widget.clone()), Some(c1_id), None);
    let _ = ui_state.add_widget(Box::new(text_widget.clone()), Some(c1_id), None);

    // Setup column 2 with 3 texts
    let c2_id = ui_state.add_widget(Box::new(column.clone()), Some(row_id), None);

    let _ = ui_state.add_widget(Box::new(text_widget.clone()), Some(c2_id), None);
    let _ = ui_state.add_widget(Box::new(text_widget.clone()), Some(c2_id), None);
    let _ = ui_state.add_widget(Box::new(text_widget.clone()), Some(c2_id), None);

    let screen_contraint = BoxContraint::new(width, height);
    layout_widgets(&screen_contraint, &mut ui_state);

    assert_eq!(8, ui_state.geom.len());

    assert_eq!(200, ui_state.geom[0].size.pixel_w);
    assert_eq!(90, ui_state.geom[0].size.pixel_h);
}

#[test]
fn widget_flex_1() {
    let width = 300;
    let height = 600;

    let mut ui_state: UiState<()> = UiState::new();

    let row_widget = RowWidget {};

    let row_id = ui_state.add_widget(Box::new(row_widget), None, None);

    let text_widget = TextWidget { text: "Hello".to_string() };

    let _ = ui_state.add_widget(
        Box::new(text_widget.clone()),
        Some(row_id),
        Some(LayoutAttributes::default().flex_width(2)),
    );

    let _ = ui_state.add_widget(
        Box::new(text_widget.clone()),
        Some(row_id),
        Some(LayoutAttributes::default().flex_width(1)),
    );

    let screen_contraint = BoxContraint::new(width, height);
    layout_widgets(&screen_contraint, &mut ui_state);

    println!("{:#?}", ui_state.geom);

    assert_eq!(3, ui_state.geom.len());
    assert_eq!(30, ui_state.geom[0].size.pixel_h);

    assert_eq!(200, ui_state.geom[1].size.pixel_w);
    assert_eq!(100, ui_state.geom[2].size.pixel_w);
}

#[test]
fn widget_flex_2() {
    let width = 300;
    let height = 600;

    let mut ui_state: UiState<()> = UiState::new();

    let column_widget = ColumnWidget {};

    let column_id = ui_state.add_widget(Box::new(column_widget), None, None);

    let text_widget = TextWidget { text: "Hello".to_string() };

    let _ = ui_state.add_widget(
        Box::new(text_widget.clone()),
        Some(column_id),
        Some(LayoutAttributes::default().flex_height(2)),
    );

    let _ = ui_state.add_widget(
        Box::new(text_widget.clone()),
        Some(column_id),
        Some(LayoutAttributes::default().flex_height(1)),
    );

    let screen_contraint = BoxContraint::new(width, height);
    layout_widgets(&screen_contraint, &mut ui_state);

    println!("{:#?}", ui_state.geom);

    assert_eq!(3, ui_state.geom.len());
    assert_eq!(100, ui_state.geom[0].size.pixel_w);
    assert_eq!(600, ui_state.geom[0].size.pixel_h);

    assert_eq!(400, ui_state.geom[1].size.pixel_h);
    assert_eq!(200, ui_state.geom[2].size.pixel_h);
}

fn row_of_texts(n: usize, width: i32) -> UiState<()> {
    let mut ui_state: UiState<()> = UiState::new();
    let row_id = ui_state.add_widget(Box::new(RowWidget {}), None, None);
    for _ in 0..n {
        let _ = ui_state.add_widget(Box::new(TextWidget { text: "Hi".to_string() }), Some(row_id), None);
    }
    let _ = width;
    ui_state
}

#[test]
fn start_aligned_row_positions_are_prefix_sums() {
    let mut ui_state = row_of_texts(4, 1000);
    layout_widgets(&BoxContraint::new(1000, 600), &mut ui_state);
    assert_eq!(400, ui_state.geom[0].size.pixel_w);
    assert_eq!(30, ui_state.geom[0].size.pixel_h);
    let xs: Vec<i32> = ui_state.geom[1..].iter().map(|g| g.pos.x).collect();
    assert_eq!(vec![0, 100, 200, 300], xs);
    for g in &ui_state.geom[1..] {
        assert_eq!(0, g.pos.y);
    }
}

#[test]
fn start_aligned_column_positions_are_prefix_sums() {
    let mut ui_state: UiState<()> = UiState::new();
    let col_id = ui_state.add_widget(Box::new(ColumnWidget {}), None, None);
    for _ in 0..3 {
        let _ = ui_state.add_widget(Box::new(TextWidget { text: "Hi".to_string() }), Some(col_id), None);
    }
    layout_widgets(&BoxContraint::new(1000, 600), &mut ui_state);
    assert_eq!(100, ui_state.geom[0].size.pixel_w);
    assert_eq!(90, ui_state.geom[0].size.pixel_h);
    let ys: Vec<i32> = ui_state.geom[1..].iter().map(|g| g.pos.y).collect();
    assert_eq!(vec![0, 30, 60], ys);
}

#[test]
fn centered_child_starts_at_half_the_free_width() {
    let mut ui_state = row_of_texts(1, 1000);
    ui_state.set_alignment_x(1, AlignmentX::Center);
    layout_widgets(&BoxContraint::new(1000, 600), &mut ui_state);
    assert_eq!(450, ui_state.geom[1].pos.x);
    assert_eq!(100, ui_state.geom[0].size.pixel_w);
}

#[test]
fn right_aligned_child_ends_at_the_right_edge() {
    let mut ui_state = row_of_texts(2, 1000);
    ui_state.set_alignment_x(2, AlignmentX::Right);
    layout_widgets(&BoxContraint::new(1000, 600), &mut ui_state);
    assert_eq!(0, ui_state.geom[1].pos.x);
    assert_eq!(900, ui_state.geom[2].pos.x);
}

#[test]
fn bottom_aligned_child_in_column() {
    let mut ui_state: UiState<()> = UiState::new();
    let col_id = ui_state.add_widget(Box::new(ColumnWidget {}), None, None);
    let t = ui_state.add_widget(Box::new(TextWidget { text: "Hi".to_string() }), Some(col_id), None);
    ui_state.set_alignment_y(t, AlignmentY::Bottom);
    layout_widgets(&BoxContraint::new(1000, 600), &mut ui_state);
    assert_eq!(570, ui_state.geom[t].pos.y);
}

#[test]
fn fixed_width_is_kept() {
    let mut ui_state: UiState<()> = UiState::new();
    let row_id = ui_state.add_widget(Box::new(RowWidget {}), None, None);
    let t = ui_state.add_widget(
        Box::new(TextWidget { text: "Hi".to_string() }),
        Some(row_id),
        Some(LayoutAttributes::default().width(SizeConstraint::Fixed(42))),
    );
    layout_widgets(&BoxContraint::new(1000, 600), &mut ui_state);
    assert_eq!(42, ui_state.geom[t].size.pixel_w);
    assert_eq!(42, ui_state.geom[0].size.pixel_w);
}

#[test]
fn layout_with_offset_moves_the_first_root() {
    let mut ui_state = row_of_texts(2, 1000);
    layout_widgets_full(&BoxContraint::new(1000, 600), &mut ui_state, Position { x: 10, y: 20 });
    assert_eq!(10, ui_state.geom[0].pos.x);
    assert_eq!(20, ui_state.geom[0].pos.y);
    assert_eq!(10, ui_state.geom[1].pos.x);
    assert_eq!(110, ui_state.geom[2].pos.x);
    assert_eq!(20, ui_state.geom[2].pos.y);
}

#[test]
fn container_widget_sums_both_directions() {
    let mut ui_state: UiState<()> = UiState::new();
    let c = ui_state.add_widget(Box::new(ContainerWidget {}), None, None);
    let _ = ui_state.add_widget(Box::new(TextWidget { text: "a".to_string() }), Some(c), None);
    let _ = ui_state.add_widget(Box::new(TextWidget { text: "b".to_string() }), Some(c), None);
    layout_widgets(&BoxContraint::new(1000, 600), &mut ui_state);
    assert_eq!(200, ui_state.geom[0].size.pixel_w);
    assert_eq!(60, ui_state.geom[0].size.pixel_h);
}

#[test]
fn text_widget_is_clipped_by_a_small_constraint() {
    let mut ui_state: UiState<()> = UiState::new();
    let _ = ui_state.add_widget(Box::new(TextWidget { text: "a".to_string() }), None, None);
    layout_widgets(&BoxContraint::new(50, 20), &mut ui_state);
    assert_eq!(50, ui_state.geom[0].size.pixel_w);
    assert_eq!(20, ui_state.geom[0].size.pixel_h);
}

#[test]
fn end_aligned_children_all_start_where_the_first_would() {
    let mut ui_state = row_of_texts(2, 1000);
    ui_state.set_alignment_x(1, AlignmentX::Right);
    ui_state.set_alignment_x(2, AlignmentX::Right);
    layout_widgets(&BoxContraint::new(1000, 600), &mut ui_state);
    assert_eq!(800, ui_state.geom[1].pos.x);
    assert_eq!(800, ui_state.geom[2].pos.x);
    assert_eq!(200, ui_state.geom[0].size.pixel_w);
}

#[test]
fn centred_children_follow_each_other_from_the_centre_start() {
    let mut ui_state = row_of_texts(2, 1000);
    ui_state.set_alignment_x(1, AlignmentX::Center);
    ui_state.set_alignment_x(2, AlignmentX::Center);
    layout_widgets(&BoxContraint::new(1000, 600), &mut ui_state);
    assert_eq!(400, ui_state.geom[1].pos.x);
    assert_eq!(500, ui_state.geom[2].pos.x);
}

#[test]
fn layout_with_offset_leaves_other_roots_in_place() {
    let mut ui_state = row_of_texts(1, 1000);
    let other = ui_state.add_widget(Box::new(TextWidget { text: "apart".to_string() }), None, None);
    layout_widgets_full(&BoxContraint::new(1000, 600), &mut ui_state, Position { x: 10, y: 20 });
    assert_eq!(10, ui_state.geom[0].pos.x);
    assert_eq!(0, ui_state.geom[other].pos.x);
    assert_eq!(0, ui_state.geom[other].pos.y);
}
