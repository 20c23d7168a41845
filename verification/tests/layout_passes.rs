use flex_layout::common::{Alignment, Color, Direction, DrawCommand, Length, MouseEvent, Position};
use flex_layout::keyboard::{Key, KeyEvent};
use flex_layout::layout::{Component, Layout, LayoutProps, Placement};
use flex_layout::measure::get_draw_dim;
use flex_layout::raw_text::RawText;
use flex_layout::root::{KeyOutcome, UIRoot};
use flex_layout::sizing::{resolve_length, share_of};
use flex_layout::text_input::TextInput;
use flex_layout::text_layout::TextLayout;

fn half_width(text: &str, font_size: i32) -> i32 {
    text.chars().count() as i32 * font_size / 2
}

fn boxed(width: i32, height: i32) -> LayoutProps {
    Layout::get_row_builder().dim((Length::FIXED(width), Length::FIXED(height)))
}

fn children_of(node: &Component) -> &[Component] {
    node.get_children()
}

fn measured(mut root: Component) -> Component {
    UIRoot::new((1000, 1000)).measure_dimensions(&mut root, &half_width);
    root
}

fn laid_out(mut root: Component) -> Component {
    UIRoot::new((1000, 1000)).layout(&mut root, &half_width);
    root
}

#[test]
fn lengths_resolve_by_their_policy() {
    assert_eq!(resolve_length(Length::FIXED(42), 300, 7), 42);
    assert_eq!(resolve_length(Length::FILL, 300, 7), 300);
    assert_eq!(resolve_length(Length::FIT, 300, 7), 7);
    assert_eq!(resolve_length(Length::PERCENT(50), 300, 7), 150);
    assert_eq!(resolve_length(Length::PERCENT(33), 100, 7), 33);
    assert_eq!(resolve_length(Length::PERCENT(33), 10, 7), 3);
    assert_eq!(resolve_length(Length::PERCENT(50), -5, 7), -2);
    assert_eq!(resolve_length(Length::PERCENT(i32::MAX), i32::MAX, 7), i32::MAX);
    assert_eq!(resolve_length(Length::FIT, 0, i32::MAX as i128 + 1), i32::MAX);
}

#[test]
fn shares_are_rounded_down() {
    assert_eq!(share_of(1, 300, 2), 150);
    assert_eq!(share_of(1, 100, 3), 33);
    assert_eq!(share_of(2, 100, 3), 66);
    assert_eq!(share_of(1, -100, 3), -34);
    assert_eq!(share_of(0, 100, 3), 0);
}

#[test]
fn shares_of_no_weight_are_zero() {
    assert_eq!(share_of(0, 100, 0), 0);
    let child = || Layout::get_row_builder().flex(0).build();
    let root = measured(boxed(100, 50).children(vec![child(), child()]).build());
    assert_eq!(children_of(&root)[0].get_draw_dim(), (0, 50));
    assert_eq!(children_of(&root)[1].get_draw_dim(), (0, 50));
}

#[test]
fn shares_never_exceed_the_space_and_lose_less_than_a_pixel_each() {
    for width in [0, 1, 2, 99, 100, 101, 1000, 1001] {
        for weights in [vec![1, 1, 1], vec![1, 2, 4], vec![7, 3], vec![5], vec![0, 3, 0, 3]] {
            let children = weights.iter().map(|w| Layout::get_row_builder().flex(*w).build()).collect();
            let root = measured(boxed(width, 10).children(children).build());
            let sum: i32 = children_of(&root).iter().map(|c| c.get_draw_dim().0).sum();
            assert!(sum <= width);
            assert!(width - sum < weights.len() as i32);
        }
    }
}

#[test]
fn padding_and_gaps_come_off_the_shared_space() {
    let child = || Layout::get_row_builder().build();
    let root = measured(
        boxed(320, 100)
            .padding((10, 5, 10, 15))
            .gap(20)
            .children(vec![child(), child(), child()])
            .build(),
    );
    for c in children_of(&root) {
        assert_eq!(c.get_draw_dim(), (86, 80));
    }
}

#[test]
fn children_outside_the_flow_are_offered_the_whole_box() {
    let overlay = Layout::get_row_builder().set_position(Position::Abs(5, 5)).build();
    let pinned = Layout::get_row_builder().set_position(Position::Sticky(0, 0)).build();
    let flow = Layout::get_row_builder().build();
    let root = measured(boxed(300, 200).padding((10, 10, 10, 10)).children(vec![overlay, flow, pinned]).build());
    assert_eq!(children_of(&root)[0].get_draw_dim(), (300, 200));
    assert_eq!(children_of(&root)[1].get_draw_dim(), (280, 180));
    assert_eq!(children_of(&root)[2].get_draw_dim(), (300, 200));
}

#[test]
fn a_box_fits_its_flow_children() {
    let children = || vec![boxed(30, 10).build(), boxed(50, 40).build(), boxed(20, 25).build()];
    let row = measured(Layout::get_row_builder().dim((Length::FIT, Length::FIT)).gap(5).children(children()).build());
    assert_eq!(row.get_draw_dim(), (110, 40));
    let column = measured(Layout::get_col_builder().dim((Length::FIT, Length::FIT)).gap(5).children(children()).build());
    assert_eq!(column.get_draw_dim(), (50, 85));
}

#[test]
fn a_box_that_fits_nothing_measures_nothing() {
    let empty = measured(Layout::get_row_builder().dim((Length::FIT, Length::FIT)).gap(5).build());
    assert_eq!(empty.get_draw_dim(), (0, 0));
    let overlay = boxed(30, 30).set_position(Position::Abs(0, 0)).build();
    let only_overlay = measured(Layout::get_col_builder().dim((Length::FIT, Length::FIT)).children(vec![overlay]).build());
    assert_eq!(only_overlay.get_draw_dim(), (0, 0));
    assert_eq!(get_draw_dim((Length::FIT, Length::FIT), (100, 100), &vec![], &Direction::Row, 7), (0, 0));
}

#[test]
fn measuring_again_gives_the_same_size() {
    let build = || {
        Layout::get_col_builder()
            .dim((Length::FIT, Length::FIT))
            .gap(3)
            .children(vec![
                boxed(30, 10).build(),
                TextLayout::get_builder().content("some words to wrap").font_size(20).build(),
                boxed(20, 25).build(),
            ])
            .build()
    };
    let ui = UIRoot::new((400, 300));
    let mut root = build();
    ui.measure_dimensions(&mut root, &half_width);
    let first = root.get_draw_dim();
    let sizes: Vec<(i32, i32)> = children_of(&root).iter().map(|c| c.get_draw_dim()).collect();
    for _ in 0..3 {
        ui.measure_dimensions(&mut root, &half_width);
        assert_eq!(root.get_draw_dim(), first);
        let again: Vec<(i32, i32)> = children_of(&root).iter().map(|c| c.get_draw_dim()).collect();
        assert_eq!(again, sizes);
    }
    assert_eq!(first, (180, 61));
}

#[test]
fn nodes_are_numbered_children_first() {
    let root = measured(
        Layout::get_row_builder()
            .children(vec![
                Layout::get_col_builder().children(vec![boxed(1, 1).build(), boxed(1, 1).dbg_name("named").build()]).build(),
                TextLayout::get_builder().content("a b").build(),
                Component::RawText(RawText::new("x", 5, 10, (0, 0, 0, 0), Color::black())),
            ])
            .build(),
    );
    assert_eq!(root.get_id(), "7");
    let kids = children_of(&root);
    assert_eq!(kids[0].get_id(), "3");
    assert_eq!(children_of(&kids[0])[0].get_id(), "1");
    assert_eq!(children_of(&kids[0])[1].get_id(), "named");
    assert_eq!(kids[1].get_id(), "5");
    assert_eq!(children_of(&kids[1])[0].get_id(), "4");
    assert_eq!(kids[2].get_id(), "6");
}

#[test]
fn the_rows_of_a_label_are_numbered_before_the_label() {
    let root = measured(
        Layout::get_row_builder()
            .children(vec![
                TextLayout::get_builder()
                    .content("one two three")
                    .font_size(20)
                    .dim((Length::FIXED(50), Length::FIT))
                    .build(),
                boxed(1, 1).build(),
            ])
            .build(),
    );
    let kids = children_of(&root);
    let rows: Vec<String> = children_of(&kids[0]).iter().map(|row| row.get_id()).collect();
    assert_eq!(rows, vec!["1", "2", "3"]);
    assert_eq!(kids[0].get_id(), "4");
    assert_eq!(kids[1].get_id(), "5");
    assert_eq!(root.get_id(), "6");
}

#[test]
fn sizing_a_label_on_its_own_leaves_its_rows_unnamed() {
    let mut label = match TextLayout::get_builder().content("one two").font_size(20).build() {
        Component::TextLayout(label) => label,
        _ => panic!("a label was built"),
    };
    label.set_raw_dim((30, 30), &half_width);
    assert_eq!(label.layout.draw_dim, (70, 20));
    assert_eq!(label.layout.children.len(), 1);
    assert_eq!(label.layout.children[0].get_id(), "");
    assert_eq!(label.layout.get_id(), "");
}

#[test]
fn numbers_with_two_digits_are_written_out() {
    let children = (0..12).map(|_| boxed(1, 1).build()).collect();
    let root = measured(Layout::get_row_builder().children(children).build());
    assert_eq!(children_of(&root)[9].get_id(), "10");
    assert_eq!(root.get_id(), "13");
}

#[test]
fn a_row_places_its_children_one_after_the_other() {
    let root = laid_out(
        boxed(300, 100)
            .padding((10, 20, 10, 20))
            .gap(5)
            .children(vec![boxed(30, 10).build(), boxed(50, 40).build(), boxed(20, 25).build()])
            .build(),
    );
    let at: Vec<(i32, i32)> = children_of(&root).iter().map(|c| c.get_draw_pos()).collect();
    assert_eq!(at, vec![(10, 20), (45, 20), (100, 20)]);
}

#[test]
fn a_row_aligns_its_flow_as_a_whole() {
    let build = |main, cross| {
        laid_out(
            boxed(300, 100)
                .gap(5)
                .main_align(main)
                .cross_align(cross)
                .children(vec![boxed(30, 10).build(), boxed(50, 40).build()])
                .build(),
        )
    };
    let centered = build(Alignment::Center, Alignment::Center);
    assert_eq!(children_of(&centered)[0].get_draw_pos(), (107, 27));
    assert_eq!(children_of(&centered)[1].get_draw_pos(), (142, 27));
    let at_end = build(Alignment::End, Alignment::End);
    assert_eq!(children_of(&at_end)[0].get_draw_pos(), (215, 55));
    assert_eq!(children_of(&at_end)[1].get_draw_pos(), (250, 55));
}

#[test]
fn a_column_centres_each_child_on_its_own() {
    let root = laid_out(
        Layout::get_col_builder()
            .dim((Length::FIXED(100), Length::FIXED(300)))
            .padding((10, 0, 10, 0))
            .gap(5)
            .cross_align(Alignment::Center)
            .main_align(Alignment::End)
            .children(vec![boxed(30, 10).build(), boxed(50, 40).build(), boxed(81, 20).build()])
            .build(),
    );
    let at: Vec<(i32, i32)> = children_of(&root).iter().map(|c| c.get_draw_pos()).collect();
    assert_eq!(at, vec![(35, 220), (25, 235), (10, 280)]);
}

#[test]
fn a_column_that_ends_across_shares_one_offset() {
    let root = laid_out(
        Layout::get_col_builder()
            .dim((Length::FIXED(100), Length::FIXED(300)))
            .gap(5)
            .cross_align(Alignment::End)
            .children(vec![boxed(30, 10).build(), boxed(50, 40).build()])
            .build(),
    );
    let at: Vec<(i32, i32)> = children_of(&root).iter().map(|c| c.get_draw_pos()).collect();
    assert_eq!(at, vec![(45, 0), (45, 15)]);
}

#[test]
fn children_outside_the_flow_sit_at_their_offset() {
    let root = laid_out(
        boxed(300, 100)
            .padding((10, 10, 10, 10))
            .children(vec![
                boxed(30, 10).build(),
                boxed(5, 5).set_position(Position::Abs(7, 9)).build(),
                boxed(50, 40).build(),
                boxed(5, 5).set_position(Position::Sticky(-3, 4)).build(),
            ])
            .build(),
    );
    let at: Vec<(i32, i32)> = children_of(&root).iter().map(|c| c.get_draw_pos()).collect();
    assert_eq!(at, vec![(10, 10), (7, 9), (40, 10), (-3, 4)]);
}

#[test]
fn children_are_listed_by_placement() {
    let layout = Layout::get_row_builder()
        .children(vec![
            boxed(1, 1).build(),
            boxed(1, 1).set_position(Position::Abs(0, 0)).build(),
            boxed(1, 1).build(),
            boxed(1, 1).set_position(Position::Sticky(0, 0)).build(),
            boxed(1, 1).set_position(Position::Abs(0, 0)).build(),
        ])
        .get_layout();
    assert_eq!(layout.get_children_by_pos(), (vec![0, 2], vec![1, 4], vec![3]));
    assert_eq!(layout.children_placed(Placement::Sticky), vec![3]);
}

#[test]
fn a_click_reports_the_child_before_the_container() {
    let root = laid_out(
        boxed(300, 100)
            .dbg_name("outer")
            .children(vec![
                boxed(100, 100).dbg_name("left").build(),
                boxed(100, 100)
                    .dbg_name("middle")
                    .children(vec![boxed(50, 50).dbg_name("inner").build()])
                    .build(),
            ])
            .build(),
    );
    let click = |x, y| MouseEvent { pos: (x, y), left_button_down: true };
    assert_eq!(root.get_mouse_event_handlers(click(120, 20)), vec!["inner", "middle", "outer"]);
    assert_eq!(root.get_mouse_event_handlers(click(20, 20)), vec!["left", "outer"]);
    assert_eq!(root.get_mouse_event_handlers(click(100, 100)), vec!["left", "middle", "outer"]);
    assert_eq!(root.get_mouse_event_handlers(click(250, 20)), vec!["outer"]);
    assert_eq!(root.get_mouse_event_handlers(click(301, 20)).len(), 0);
    let hover = MouseEvent { pos: (120, 20), left_button_down: false };
    assert_eq!(root.get_mouse_event_handlers(hover).len(), 0);
}

#[test]
fn a_label_reports_itself_and_not_its_rows() {
    let root = laid_out(
        boxed(300, 100)
            .dbg_name("outer")
            .children(vec![TextLayout::get_builder().content("Hello").dbg_name("label").build()])
            .build(),
    );
    let click = MouseEvent { pos: (5, 5), left_button_down: true };
    assert_eq!(root.get_mouse_event_handlers(click), vec!["label", "outer"]);
}

#[test]
fn nodes_are_found_by_identity() {
    let root = laid_out(
        boxed(300, 100)
            .dbg_name("outer")
            .children(vec![
                boxed(100, 100).dbg_name("twice").build(),
                boxed(100, 50).children(vec![boxed(50, 50).dbg_name("twice").build()]).build(),
            ])
            .build(),
    );
    assert_eq!(UIRoot::get_by_id(&root, "outer").map(|n| n.get_draw_dim()), Some((300, 100)));
    assert_eq!(UIRoot::get_by_id(&root, "twice").map(|n| n.get_draw_dim()), Some((100, 100)));
    assert_eq!(root.get_by_id("outer").map(|n| n.get_draw_dim()), None);
    assert_eq!(UIRoot::get_by_id(&root, "3").map(|n| n.get_draw_dim()), Some((100, 50)));
    assert!(UIRoot::get_by_id(&root, "missing").is_none());
}

fn form() -> Component {
    boxed(300, 100)
        .dbg_name("form")
        .on_click(7)
        .children(vec![
            TextInput::get_builder().content("Hi").dim((Length::FIXED(100), Length::FIXED(50))).dbg_name("name").build(),
            TextInput::get_builder().dim((Length::FIXED(100), Length::FIXED(50))).dbg_name("mail").on_key(3).build(),
            boxed(100, 50).dbg_name("send").on_click(9).build(),
        ])
        .build()
}

#[test]
fn a_click_gives_the_focus_to_the_input_it_hits() {
    let mut ui = UIRoot::new((300, 100));
    let mut root = form();
    ui.layout(&mut root, &half_width);
    let click = MouseEvent { pos: (20, 20), left_button_down: true };
    let targets = UIRoot::get_mouse_event_handlers(&root, click);
    let seen: Vec<(&str, Option<usize>, bool)> =
        targets.iter().map(|t| (t.id.as_str(), t.handler, t.focusable)).collect();
    assert_eq!(seen, vec![("name", None, true), ("form", Some(7), false)]);
    assert!(ui.focus_after_click(&targets, 2, click));
    assert_eq!(ui.focused_id, Some("name".to_string()));

    let elsewhere = MouseEvent { pos: (220, 20), left_button_down: true };
    let targets = UIRoot::get_mouse_event_handlers(&root, elsewhere);
    assert_eq!(targets[0].handler, Some(9));
    assert!(ui.focus_after_click(&targets, 1, elsewhere));
    assert_eq!(ui.focused_id, None);
}

#[test]
fn the_focus_goes_only_to_targets_whose_handler_ran() {
    let mut ui = UIRoot::new((300, 100));
    let mut root = form();
    ui.layout(&mut root, &half_width);
    let click = MouseEvent { pos: (20, 20), left_button_down: true };
    let targets = UIRoot::get_mouse_event_handlers(&root, click);
    assert!(ui.focus_after_click(&targets, 0, click));
    assert_eq!(ui.focused_id, None);
    assert!(ui.focus_after_click(&targets, 1, click));
    assert_eq!(ui.focused_id, Some("name".to_string()));
    ui.focused_id = None;
    assert!(ui.focus_after_click(&targets, 99, click));
    assert_eq!(ui.focused_id, Some("name".to_string()));
    let released = MouseEvent { pos: (220, 20), left_button_down: false };
    assert!(!ui.focus_after_click(&vec![], 0, released));
    assert_eq!(ui.focused_id, Some("name".to_string()));
}

#[test]
fn keys_edit_the_focused_input() {
    let mut ui = UIRoot::new((300, 100));
    let mut root = form();
    ui.layout(&mut root, &half_width);
    let key = KeyEvent { key: Some(Key::A), shift_down: true, ctrl_down: false };
    assert_eq!(ui.handle_key_event(&mut root, key), KeyOutcome::Unfocused);
    ui.focused_id = Some("name".to_string());
    assert_eq!(ui.handle_key_event(&mut root, key), KeyOutcome::Edited);
    match &children_of(&root)[0] {
        Component::TextInput(input) => assert_eq!(input.get_content(), "HiA"),
        _ => panic!("an input was built"),
    }
    ui.focused_id = Some("mail".to_string());
    assert_eq!(ui.handle_key_event(&mut root, key), KeyOutcome::Forward(3));
    match &children_of(&root)[1] {
        Component::TextInput(input) => assert_eq!(input.get_content(), ""),
        _ => panic!("an input was built"),
    }
    ui.focused_id = Some("send".to_string());
    assert_eq!(ui.handle_key_event(&mut root, key), KeyOutcome::Handled);
    ui.focused_id = Some("gone".to_string());
    assert_eq!(ui.handle_key_event(&mut root, key), KeyOutcome::Unfocused);
    assert_eq!(root.get_key_event_handlers(), vec!["name", "mail"]);
}

fn describe(command: &DrawCommand) -> String {
    match command {
        DrawCommand::Clear { .. } => "clear".to_string(),
        DrawCommand::Rect { x, y, width, height, color } => format!("rect {x},{y} {width}x{height} r{}", color.r),
        DrawCommand::Text { content, x, y, font_size, .. } => format!("text '{content}' {x},{y} {font_size}"),
    }
}

fn red(level: u8) -> Color {
    Color { r: level, g: 0, b: 0, a: 255 }
}

#[test]
fn a_frame_draws_the_flow_and_then_what_lies_outside_it() {
    let popup = boxed(40, 40)
        .bg_color(red(9))
        .set_position(Position::Abs(5, 5))
        .dbg_name("popup")
        .children(vec![
            boxed(10, 10).bg_color(red(10)).build(),
            boxed(10, 10).bg_color(red(11)).set_position(Position::Sticky(1, 1)).dbg_name("badge").build(),
        ])
        .build();
    let mut root = boxed(300, 100)
        .bg_color(red(1))
        .children(vec![
            popup,
            boxed(100, 50).bg_color(red(2)).build(),
            TextLayout::get_builder().content("Hi").font_size(20).bg_color(red(3)).build(),
        ])
        .build();
    let mut ui = UIRoot::new((300, 100));
    ui.layout(&mut root, &half_width);
    let frame: Vec<String> = UIRoot::draw(&root).iter().map(describe).collect();
    assert_eq!(
        frame,
        vec![
            "clear",
            "rect 0,0 300x100 r1",
            "rect 0,0 100x50 r2",
            "rect 100,0 20x20 r3",
            "text 'Hi' 100,0 20",
            "rect 5,5 40x40 r9",
            "rect 5,5 10x10 r10",
            "rect 6,6 10x10 r11",
        ]
    );
}

#[test]
fn what_is_not_visible_is_not_drawn() {
    let mut root = Layout::get_col_builder()
        .dim((Length::FIXED(100), Length::FIXED(100)))
        .bg_color(red(1))
        .children(vec![
            boxed(100, 80).bg_color(red(2)).build(),
            boxed(100, 80).bg_color(red(3)).build(),
            boxed(100, 80).bg_color(red(4)).build(),
        ])
        .build();
    let mut ui = UIRoot::new((100, 100));
    ui.layout(&mut root, &half_width);
    let frame: Vec<String> = UIRoot::draw(&root).iter().map(describe).collect();
    assert_eq!(frame, vec!["clear", "rect 0,0 100x100 r1", "rect 0,0 100x80 r2", "rect 0,80 100x20 r3"]);
    let pending = root.draw(&mut vec![]);
    assert_eq!(pending.len(), 0);
}

#[test]
fn a_pinned_child_does_not_scroll_with_the_content() {
    let build = || {
        Layout::get_col_builder()
            .dim((Length::FIXED(100), Length::FIXED(100)))
            .dbg_name("list")
            .children(vec![
                boxed(100, 300).dbg_name("content").overflow_y(false).build(),
                boxed(20, 20).dbg_name("pin").overflow_y(false).set_position(Position::Sticky(0, 10)).build(),
                boxed(20, 20).dbg_name("mark").overflow_y(false).set_position(Position::Abs(0, 60)).build(),
            ])
            .build()
    };
    let mut ui = UIRoot::new((100, 100));
    ui.scroll_map.insert("list", 50);
    let mut root = build();
    ui.layout(&mut root, &half_width);
    assert_eq!(ui.scroll_map.get("list"), Some(50));
    let kids = children_of(&root);
    assert_eq!((kids[0].get_draw_pos(), kids[0].get_draw_dim()), ((0, 0), (100, 100)));
    assert_eq!((kids[1].get_draw_pos(), kids[1].get_draw_dim()), ((0, 0), (20, 0)));
    assert_eq!((kids[2].get_draw_pos(), kids[2].get_draw_dim()), ((0, 10), (20, 20)));
}

#[test]
fn builders_start_from_the_defaults() {
    let row = Layout::get_row_builder().get_layout();
    assert_eq!(row.direction, Direction::Row);
    assert_eq!(row.dim, (Length::FILL, Length::FILL));
    assert_eq!(row.flex, 1);
    assert_eq!(row.overflow, (false, true));
    assert_eq!(row.position, Position::Auto);
    assert_eq!(row.bg_color, Color { r: 0, g: 0, b: 0, a: 0 });
    assert_eq!(row.get_id(), "");
    let padded = Layout::get_row_builder().padding((1, 2, 3, 4)).overflow_x(true).overflow_y(false).build();
    assert_eq!(padded.get_paddings(), (1, 2, 3, 4));
    assert_eq!(padded.get_overflow(), (true, false));
    assert_eq!(padded.get_position(), Position::Auto);
    assert_eq!(padded.get_flex(), 1);
    assert_eq!(Layout::get_col_builder().get_layout().direction, Direction::Column);
    match TextLayout::get_builder().build() {
        Component::TextLayout(label) => {
            assert_eq!(label.layout.dim, (Length::FIT, Length::FIT));
            assert_eq!(label.layout.direction, Direction::Column);
            assert_eq!(label.layout.overflow, (false, false));
            assert_eq!((label.font_size, label.wrap), (24, true));
            assert_eq!(label.text_color, Color::black());
        }
        _ => panic!("a label was built"),
    }
    match TextInput::get_builder().build() {
        Component::TextInput(input) => {
            assert_eq!(input.layout.bg_color, Color::white());
            assert_eq!(input.layout.overflow, (false, true));
            assert_eq!(input.def_on_key, None);
            assert!(Component::TextInput(input).is_focusable());
        }
        _ => panic!("an input was built"),
    }
}
