use flex_layout::common::{Length, ScrollEvent};
use flex_layout::layout::{Component, Layout};
use flex_layout::overflow::get_drawable_y_and_h;
use flex_layout::root::UIRoot;
use flex_layout::scroll::{clamp_scroll, scroll_by, ScrollMap};

fn no_text(_text: &str, _font_size: i32) -> i32 {
    0
}

#[test]
fn clip_content_inside_is_kept() {
    assert_eq!(get_drawable_y_and_h(100, 400, 150, 50), (150, 50));
    assert_eq!(get_drawable_y_and_h(100, 400, 100, 400), (100, 400));
}

#[test]
fn clip_content_outside_has_no_height() {
    assert_eq!(get_drawable_y_and_h(100, 400, 0, 50).1, 0);
    assert_eq!(get_drawable_y_and_h(100, 400, 600, 50).1, 0);
    assert_eq!(get_drawable_y_and_h(100, 400, 0, 50), (0, 0));
}

#[test]
fn clip_content_over_the_top_edge() {
    assert_eq!(get_drawable_y_and_h(100, 400, 80, 50), (100, 30));
}

#[test]
fn clip_content_over_the_bottom_edge() {
    assert_eq!(get_drawable_y_and_h(100, 400, 480, 50), (480, 20));
}

#[test]
fn clip_content_over_both_edges() {
    assert_eq!(get_drawable_y_and_h(100, 400, 0, 1000), (100, 400));
}

#[test]
fn clip_near_the_ends_of_the_number_range() {
    assert_eq!(get_drawable_y_and_h(i32::MAX, i32::MAX, i32::MAX, i32::MAX), (i32::MAX, i32::MAX));
    assert_eq!(get_drawable_y_and_h(i32::MIN, 10, i32::MAX, 10), (0, 0));
}

#[test]
fn clamp_keeps_offsets_in_range() {
    assert_eq!(clamp_scroll(-75, 600), 0);
    assert_eq!(clamp_scroll(75, 600), 75);
    assert_eq!(clamp_scroll(675, 600), 600);
    assert_eq!(clamp_scroll(5, 0), 0);
}

#[test]
fn wheel_moves_fifteen_pixels_a_notch() {
    assert_eq!(scroll_by(0, 5), -75);
    assert_eq!(scroll_by(0, -5), 75);
    assert_eq!(scroll_by(600, -1), 615);
    assert_eq!(scroll_by(i32::MAX, -1), i32::MAX);
}

#[test]
fn scroll_map_keeps_the_last_offset_of_an_identity() {
    let mut map = ScrollMap::new();
    assert_eq!(map.get("list"), None);
    assert_eq!(map.offset("list"), 0);
    map.insert("list", 40);
    map.insert("other", 7);
    map.insert("list", 55);
    assert_eq!(map.get("list"), Some(55));
    assert_eq!(map.get("other"), Some(7));
    assert_eq!(map.entries.len(), 2);
}

fn scroll_box() -> Component {
    let content = Layout::get_row_builder()
        .dim((Length::FILL, Length::FIXED(1000)))
        .dbg_name("content")
        .overflow_y(false)
        .build();
    Layout::get_col_builder()
        .dim((Length::FIXED(200), Length::FIXED(400)))
        .dbg_name("list")
        .children(vec![content])
        .build()
}

#[test]
fn scrolling_up_from_the_top_stays_at_the_top() {
    let mut ui = UIRoot::new((200, 400));
    let mut root = scroll_box();
    ui.layout(&mut root, &no_text);
    let moved = ui.get_scroll_event_handler(&root, ScrollEvent { pos: (10, 10), delta: 5 });
    assert!(moved);
    assert_eq!(ui.scroll_map.get("list"), Some(-75));
    let mut root = scroll_box();
    ui.layout(&mut root, &no_text);
    assert_eq!(ui.scroll_map.get("list"), Some(0));
}

#[test]
fn scrolling_down_stops_at_the_end_of_the_content() {
    let mut ui = UIRoot::new((200, 400));
    let mut offsets = vec![];
    for _ in 0..10 {
        let mut root = scroll_box();
        ui.layout(&mut root, &no_text);
        assert!(ui.get_scroll_event_handler(&root, ScrollEvent { pos: (10, 10), delta: -5 }));
        let mut root = scroll_box();
        ui.layout(&mut root, &no_text);
        offsets.push(ui.scroll_map.offset("list"));
    }
    assert_eq!(offsets, vec![75, 150, 225, 300, 375, 450, 525, 600, 600, 600]);
}

#[test]
fn scrolled_content_moves_up_and_is_cut_to_the_viewport() {
    let mut ui = UIRoot::new((200, 400));
    ui.scroll_map.insert("list", 150);
    let mut root = scroll_box();
    ui.layout(&mut root, &no_text);
    match &root {
        Component::Layout(list) => {
            assert_eq!(list.pos, (0, 0));
            assert_eq!(list.draw_dim, (200, 400));
            assert_eq!(list.children[0].get_draw_pos(), (0, 0));
            assert_eq!(list.children[0].get_draw_dim(), (200, 400));
        }
        _ => panic!("a container was built"),
    }
}

#[test]
fn a_wheel_without_movement_or_target_changes_nothing() {
    let mut ui = UIRoot::new((200, 400));
    let mut root = scroll_box();
    ui.layout(&mut root, &no_text);
    assert!(!ui.get_scroll_event_handler(&root, ScrollEvent { pos: (10, 10), delta: 0 }));
    assert!(!ui.get_scroll_event_handler(&root, ScrollEvent { pos: (500, 10), delta: 3 }));
    assert_eq!(ui.scroll_map.get("list"), Some(0));
}

#[test]
fn the_innermost_scrolling_box_takes_the_wheel() {
    let inner = Layout::get_col_builder()
        .dim((Length::FIXED(100), Length::FIXED(100)))
        .dbg_name("inner")
        .build();
    let mut root = Layout::get_col_builder()
        .dim((Length::FIXED(200), Length::FIXED(400)))
        .dbg_name("outer")
        .children(vec![inner])
        .build();
    let mut ui = UIRoot::new((200, 400));
    ui.layout(&mut root, &no_text);
    assert_eq!(
        root.get_scroll_event_handler(ScrollEvent { pos: (50, 50), delta: 1 }),
        Some("inner".to_string())
    );
    assert_eq!(
        root.get_scroll_event_handler(ScrollEvent { pos: (150, 50), delta: 1 }),
        Some("outer".to_string())
    );
    assert_eq!(root.get_scroll_event_handler(ScrollEvent { pos: (250, 50), delta: 1 }), None);
}
