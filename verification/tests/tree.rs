use flex_layout::common::{AbsoluteDraw, Color, DrawCommand, Length, Position, ID};
use flex_layout::layout::{flow_totals, Component, Layout};
use flex_layout::measure::{advance, next_id, rename};
use flex_layout::raw_text::RawText;
use flex_layout::root::UIRoot;
use flex_layout::scroll::ScrollMap;
use flex_layout::text_layout::TextLayout;

fn half_width(text: &str, font_size: i32) -> i32 {
    text.chars().count() as i32 * font_size / 2
}

fn boxed(width: i32, height: i32) -> Component {
    Layout::get_row_builder().dim((Length::FIXED(width), Length::FIXED(height))).build()
}

#[test]
fn children_can_be_added_and_replaced() {
    let mut root = Layout::get_col_builder().build();
    root.add_child(boxed(10, 10));
    root.add_child(boxed(20, 20));
    assert_eq!(root.get_children().len(), 2);
    match &mut root {
        Component::Layout(layout) => {
            layout.set_children(vec![boxed(1, 1)]);
            layout.add_child(boxed(2, 2));
            layout.add_child(boxed(3, 3));
            assert_eq!(layout.children.len(), 3);
        }
        _ => panic!("a container was built"),
    }
    let run = Component::RawText(RawText::new("x", 5, 10, (0, 0, 0, 0), Color::black()));
    assert_eq!(run.get_children().len(), 0);
}

#[test]
fn a_node_can_be_moved_on_its_own() {
    let mut root = Layout::get_col_builder().children(vec![boxed(10, 10)]).build();
    root.set_pos((7, 9));
    assert_eq!(root.get_draw_pos(), (7, 9));
    assert_eq!(root.get_children()[0].get_draw_pos(), (0, 0));
    let mut run = RawText::new("x", 5, 10, (0, 0, 0, 0), Color::black());
    run.set_pos((3, 4));
    assert_eq!(run.get_draw_pos(), (3, 4));
}

#[test]
fn flow_totals_leave_out_what_is_outside_the_flow() {
    let mut children = vec![
        Layout::get_row_builder().flex(2).build(),
        Layout::get_row_builder().flex(5).set_position(Position::Abs(0, 0)).build(),
        Layout::get_row_builder().flex(3).build(),
    ];
    for (child, size) in children.iter_mut().zip([(10, 40), (500, 500), (30, 20)]) {
        if let Component::Layout(layout) = child {
            layout.draw_dim = size;
        }
    }
    let totals = flow_totals(&children);
    assert_eq!(totals.count, 2);
    assert_eq!(totals.sum, (40, 60));
    assert_eq!(totals.max, (Some(30), Some(40)));
    assert_eq!(totals.flex, 5);
    let none = flow_totals(&vec![]);
    assert_eq!((none.count, none.sum, none.max, none.flex), (0, (0, 0), (None, None), 0));
}

#[test]
fn the_scroll_height_is_the_lowest_bottom_edge() {
    let mut root = Layout::get_col_builder()
        .dim((Length::FIXED(100), Length::FIXED(100)))
        .children(vec![
            boxed(10, 70),
            boxed(10, 70),
            Layout::get_row_builder()
                .dim((Length::FIXED(10), Length::FIXED(10)))
                .set_position(Position::Abs(0, 400))
                .build(),
            Layout::get_row_builder()
                .dim((Length::FIXED(10), Length::FIXED(10)))
                .set_position(Position::Sticky(0, 900))
                .build(),
        ])
        .build();
    let ui = UIRoot::new((100, 100));
    ui.measure_dimensions(&mut root, &half_width);
    ui.measure_positions(&mut root);
    match &root {
        Component::Layout(layout) => {
            assert_eq!(layout.get_scroll_height(), 410);
            assert_eq!(layout.get_max_scroll(), 310);
        }
        _ => panic!("a container was built"),
    }
    match Layout::get_col_builder().build() {
        Component::Layout(empty) => {
            assert_eq!(empty.get_scroll_height(), 0);
            assert_eq!(empty.get_max_scroll(), 0);
        }
        _ => panic!("a container was built"),
    }
}

#[test]
fn rendering_lays_out_and_draws() {
    let mut ui = UIRoot::new((200, 100));
    let mut root = Layout::get_col_builder()
        .bg_color(Color::white())
        .children(vec![TextLayout::get_builder().content("one two").font_size(10).build()])
        .build();
    let frame = ui.render(&mut root, &half_width);
    assert_eq!(frame.len(), 4);
    assert!(matches!(frame[0], DrawCommand::Clear { color } if color == Color::black()));
    assert!(matches!(frame[1], DrawCommand::Rect { x: 0, y: 0, width: 200, height: 100, .. }));
    assert!(matches!(frame[2], DrawCommand::Rect { x: 0, y: 0, width: 35, height: 10, .. }));
    match &frame[3] {
        DrawCommand::Text { content, x, y, font_size, color } => {
            assert_eq!((content.as_str(), *x, *y, *font_size), ("one two", 0, 0, 10));
            assert_eq!(*color, Color::black());
        }
        _ => panic!("the label draws its text last"),
    }
    assert_eq!(ui.scroll_map.get("3"), Some(0));
    assert_eq!(ui.scroll_map.get("2"), None);
}

#[test]
fn text_below_the_viewport_is_moved_but_not_drawn() {
    let mut ui = UIRoot::new((100, 30));
    let mut root = Layout::get_col_builder()
        .dbg_name("list")
        .children(vec![
            Component::RawText(RawText::new("aa", 10, 20, (0, 0, 0, 0), Color::black())),
            Component::RawText(RawText::new("bb", 10, 20, (0, 0, 0, 0), Color::black())),
            Component::RawText(RawText::new("cc", 10, 20, (0, 0, 0, 0), Color::black())),
        ])
        .build();
    ui.scroll_map.insert("list", 10);
    let frame = ui.render(&mut root, &half_width);
    let at: Vec<((i32, i32), (i32, i32))> =
        root.get_children().iter().map(|c| (c.get_draw_pos(), c.get_draw_dim())).collect();
    assert_eq!(at, vec![((0, -10), (10, 10)), ((0, 10), (10, 20)), ((0, 30), (10, 0))]);
    let texts: Vec<&str> = frame
        .iter()
        .filter_map(|c| match c {
            DrawCommand::Text { content, .. } => Some(content.as_str()),
            _ => None,
        })
        .collect();
    assert_eq!(texts, vec!["aa", "bb"]);
}

#[test]
fn deferred_requests_name_absolute_children_before_pinned_ones() {
    let placed = |name: &str, position| {
        Layout::get_row_builder()
            .dim((Length::FIXED(5), Length::FIXED(5)))
            .dbg_name(name)
            .set_position(position)
            .build()
    };
    let inner = Layout::get_row_builder()
        .dbg_name("inner")
        .children(vec![placed("deep", Position::Abs(0, 0))])
        .build();
    let mut root = Layout::get_row_builder()
        .children(vec![
            placed("pin", Position::Sticky(0, 0)),
            inner,
            placed("mark", Position::Abs(1, 1)),
        ])
        .build();
    UIRoot::new((50, 50)).layout(&mut root, &half_width);
    let mut canvas = vec![];
    let names: Vec<String> = root.draw(&mut canvas).into_iter().map(|d| d.component_id).collect();
    assert_eq!(names, vec!["mark", "pin", "deep"]);
    assert_eq!(canvas.len(), 2);
    assert_eq!(AbsoluteDraw::new("mark").component_id, "mark");
}

#[test]
fn numbering_stops_at_the_largest_number() {
    assert_eq!(next_id(0), 1);
    assert_eq!(next_id(usize::MAX - 1), usize::MAX);
    assert_eq!(next_id(usize::MAX), usize::MAX);
    assert_eq!(advance(3, 4), 7);
    assert_eq!(advance(usize::MAX - 2, 2), usize::MAX);
    assert_eq!(advance(usize::MAX - 2, 3), usize::MAX);
}

#[test]
fn a_name_of_the_caller_is_kept() {
    let mut named = ID::Manual("kept".to_string());
    rename(&mut named, 12);
    assert!(named.is("kept"));
    assert_eq!(named.text(), "kept");
    let mut unnamed = ID::Auto(String::new());
    rename(&mut unnamed, 12);
    assert!(unnamed.is("12"));
    assert!(!unnamed.is(""));
}

#[test]
fn stale_scroll_offsets_of_other_nodes_are_left_alone() {
    let mut ui = UIRoot::new((100, 100));
    ui.scroll_map = ScrollMap::new();
    ui.scroll_map.insert("gone", 321);
    let mut root = Layout::get_col_builder().dbg_name("list").build();
    ui.layout(&mut root, &half_width);
    assert_eq!(ui.scroll_map.get("gone"), Some(321));
    assert_eq!(ui.scroll_map.get("list"), Some(0));
}

#[test]
fn a_copy_of_a_tree_is_a_tree_of_its_own() {
    let builder = Layout::get_col_builder()
        .dbg_name("list")
        .gap(3)
        .children(vec![boxed(10, 10), TextLayout::get_builder().content("one two").font_size(20).build()]);
    let mut first = builder.clone().build();
    let mut second = builder.build();
    UIRoot::new((200, 200)).layout(&mut first, &half_width);
    assert_eq!(first.get_draw_dim(), (200, 200));
    assert_eq!(second.get_draw_dim(), (0, 0));
    assert_eq!(second.get_id(), "list");
    assert_eq!(second.get_children().len(), 2);
    UIRoot::new((100, 100)).layout(&mut second, &half_width);
    let copy = second.clone();
    assert_eq!(copy.get_draw_dim(), (100, 100));
    assert_eq!(copy.get_children()[1].get_draw_dim(), (70, 20));
    assert_eq!(copy.get_children()[1].get_draw_pos(), (0, 13));
    let label = TextLayout::get_builder().content("x").font_size(8);
    assert_eq!(label.clone().build().get_id(), label.build().get_id());
}
