use flex_layout::common::{Direction, Length};
use flex_layout::layout::{Component, Layout};
use flex_layout::root::UIRoot;

fn fixed_width(text: &str, font_size: i32) -> i32 {
    text.chars().count() as i32 * font_size / 2
}

fn fill() -> Component {
    Layout::get_row_builder().dim((Length::FILL, Length::FILL)).build()
}

fn weighted(flex: u32) -> Component {
    Layout::get_row_builder().flex(flex).build()
}

#[test]
fn row_shares_width_equally() {
    let mut root = Layout::get_row_builder()
        .dim((Length::FIXED(300), Length::FIXED(100)))
        .children(vec![fill(), fill()])
        .build();
    let ui = UIRoot::new((1000, 1000));
    ui.measure_dimensions(&mut root, &fixed_width);
    match &root {
        Component::Layout(layout) => {
            assert_eq!(layout.draw_dim, (300, 100));
            assert_eq!(layout.children[0].get_draw_dim(), (150, 100));
            assert_eq!(layout.children[1].get_draw_dim(), (150, 100));
        }
        _ => panic!("a container was built"),
    }
}

#[test]
fn column_shares_height_by_weight() {
    let mut root = Layout::get_col_builder()
        .dim((Length::FIXED(80), Length::FIXED(400)))
        .direction(Direction::Column)
        .children(vec![weighted(1), weighted(1), weighted(2)])
        .build();
    let ui = UIRoot::new((1000, 1000));
    ui.measure_dimensions(&mut root, &fixed_width);
    match &root {
        Component::Layout(layout) => {
            assert_eq!(layout.children[0].get_draw_dim(), (80, 100));
            assert_eq!(layout.children[1].get_draw_dim(), (80, 100));
            assert_eq!(layout.children[2].get_draw_dim(), (80, 200));
        }
        _ => panic!("a container was built"),
    }
}
