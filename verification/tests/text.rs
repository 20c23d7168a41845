use flex_layout::common::{Color, Length};
use flex_layout::keyboard::{def_key_handler, keyboard_key_to_char, shift_character, Key, KeyEvent};
use flex_layout::layout::Component;
use flex_layout::raw_text::RawText;
use flex_layout::root::UIRoot;
use flex_layout::strings::{decimal_string, str_eq};
use flex_layout::text_input::TextInput;
use flex_layout::text_layout::TextLayout;
use flex_layout::text_rows::{char_is_whitespace, get_text_rows, split_words};

/// Every character is half as wide as the font is high.
fn half_width(text: &str, font_size: i32) -> i32 {
    text.chars().count() as i32 * font_size / 2
}

fn rows_of(node: &Component) -> Vec<String> {
    node.get_children()
        .iter()
        .map(|row| match row {
            Component::RawText(run) => run.content.clone(),
            _ => panic!("the rows of a text node are text runs"),
        })
        .collect()
}

#[test]
fn words_are_cut_at_any_white_space() {
    assert_eq!(split_words("  Hello\t\tWorld \n again  "), vec!["Hello", "World", "again"]);
    assert_eq!(split_words("one\u{a0}two\u{3000}three"), vec!["one", "two", "three"]);
    assert_eq!(split_words("").len(), 0);
    assert_eq!(split_words(" \n\t ").len(), 0);
}

#[test]
fn white_space_is_what_unicode_says() {
    for c in ['\t', '\n', '\u{b}', '\u{c}', '\r', ' ', '\u{85}', '\u{a0}', '\u{1680}', '\u{2000}', '\u{200a}', '\u{2028}', '\u{2029}', '\u{202f}', '\u{205f}', '\u{3000}'] {
        assert!(char_is_whitespace(c));
    }
    for c in ['a', '0', '\u{200b}', '\u{8}', '\u{e}', '\u{180e}', '\u{feff}'] {
        assert!(!char_is_whitespace(c));
    }
    for code in 0..0x3100u32 {
        if let Some(c) = char::from_u32(code) {
            assert_eq!(char_is_whitespace(c), c.is_whitespace());
        }
    }
}

#[test]
fn hello_world_wraps_into_two_rows() {
    assert_eq!(get_text_rows("Hello World", 50, 20, &half_width), vec!["Hello", "World"]);
}

#[test]
fn rows_take_as_many_words_as_fit() {
    let rows = get_text_rows("a bb ccc dddd eeeee", 60, 20, &half_width);
    assert_eq!(rows, vec!["a bb", "ccc", "dddd", "eeeee"]);
    let rows = get_text_rows("a bb ccc dddd eeeee", 80, 20, &half_width);
    assert_eq!(rows, vec!["a bb ccc", "dddd", "eeeee"]);
    let rows = get_text_rows("a bb ccc dddd eeeee", 1000, 20, &half_width);
    assert_eq!(rows, vec!["a bb ccc dddd eeeee"]);
}

#[test]
fn a_word_that_is_too_wide_gets_a_row_of_its_own() {
    let rows = get_text_rows("to incomprehensibilities we go", 100, 20, &half_width);
    assert_eq!(rows, vec!["to", "incomprehensibilities", "we go"]);
    let rows = get_text_rows("incomprehensibilities", 10, 20, &half_width);
    assert_eq!(rows, vec!["incomprehensibilities"]);
}

#[test]
fn joined_rows_give_the_text_with_single_spaces() {
    let text = "  The quick \t brown fox\njumps   over the lazy dog ";
    for max_width in [0, 30, 60, 90, 150, 500] {
        let rows = get_text_rows(text, max_width, 20, &half_width);
        assert_eq!(rows.join(" "), "The quick brown fox jumps over the lazy dog");
        for row in rows.iter() {
            assert!(half_width(row, 20) <= max_width || !row.contains(' '));
        }
    }
}

#[test]
fn text_without_words_has_no_rows() {
    assert_eq!(get_text_rows("", 100, 20, &half_width).len(), 0);
    assert_eq!(get_text_rows("   ", 100, 20, &half_width).len(), 0);
}

#[test]
fn a_label_that_fits_keeps_its_text_on_one_row() {
    let mut label = TextLayout::get_builder().content("Hello World").font_size(20).build();
    let ui = UIRoot::new((500, 500));
    ui.measure_dimensions(&mut label, &half_width);
    assert_eq!(rows_of(&label), vec!["Hello World"]);
    assert_eq!(label.get_draw_dim(), (110, 20));
}

#[test]
fn a_label_wraps_to_its_width() {
    let mut label = TextLayout::get_builder()
        .content("Hello World")
        .font_size(20)
        .dim((Length::FIXED(60), Length::FIT))
        .gap(4)
        .build();
    let ui = UIRoot::new((500, 500));
    ui.measure_dimensions(&mut label, &half_width);
    assert_eq!(rows_of(&label), vec!["Hello", "World"]);
    assert_eq!(label.get_draw_dim(), (60, 44));
    assert_eq!(label.get_children()[1].get_draw_dim(), (50, 20));
}

#[test]
fn a_label_that_does_not_wrap_keeps_one_row() {
    let mut label = TextLayout::get_builder()
        .content("Hello World")
        .font_size(20)
        .wrap(false)
        .dim((Length::FIXED(60), Length::FIT))
        .build();
    let ui = UIRoot::new((500, 500));
    ui.measure_dimensions(&mut label, &half_width);
    assert_eq!(rows_of(&label), vec!["Hello World"]);
    assert_eq!(label.get_draw_dim(), (60, 20));
}

#[test]
fn a_label_adds_its_padding_to_its_size() {
    let mut label = TextLayout::get_builder()
        .content("Hello World")
        .font_size(20)
        .dim((Length::FIXED(80), Length::FIT))
        .padding((10, 3, 10, 5))
        .build();
    let ui = UIRoot::new((500, 500));
    ui.measure_dimensions(&mut label, &half_width);
    assert_eq!(rows_of(&label), vec!["Hello", "World"]);
    assert_eq!(label.get_draw_dim(), (100, 48));
    assert_eq!(label.get_children()[0].get_draw_dim(), (50, 20));
}

#[test]
fn the_rows_of_an_input_carry_its_padding() {
    let mut input = TextInput::get_builder()
        .content("Hello World")
        .font_size(20)
        .dim((Length::FIXED(80), Length::FIT))
        .padding((10, 3, 10, 5))
        .build();
    let ui = UIRoot::new((500, 500));
    ui.measure_dimensions(&mut input, &half_width);
    assert_eq!(rows_of(&input), vec!["Hello", "World"]);
    assert_eq!(input.get_children()[0].get_draw_dim(), (70, 28));
    assert_eq!(input.get_draw_dim(), (80, 56));
}

#[test]
fn a_label_without_words_measures_nothing_where_it_wraps() {
    let mut label = TextLayout::get_builder()
        .content("   ")
        .font_size(20)
        .dim((Length::FIXED(10), Length::FIT))
        .build();
    let ui = UIRoot::new((500, 500));
    ui.measure_dimensions(&mut label, &half_width);
    assert_eq!(rows_of(&label).len(), 0);
    assert_eq!(label.get_draw_dim(), (10, 0));
}

#[test]
fn a_text_run_is_one_line_high_inside_its_padding() {
    let run = RawText::new("abc", 30, 20, (1, 2, 3, 4), Color::white());
    assert_eq!(run.get_draw_dim(), (34, 26));
    assert_eq!(run.get_draw_pos(), (0, 0));
    assert_eq!(run.get_id(), "");
    assert_eq!(RawText::size_of(i32::MAX, 20, (1, 0, 0, 0)), (i32::MAX, 20));
}

#[test]
fn keys_type_their_characters() {
    assert_eq!(keyboard_key_to_char(Key::A), Some('a'));
    assert_eq!(keyboard_key_to_char(Key::Z), Some('z'));
    assert_eq!(keyboard_key_to_char(Key::Zero), Some('0'));
    assert_eq!(keyboard_key_to_char(Key::Nine), Some('9'));
    assert_eq!(keyboard_key_to_char(Key::Space), Some(' '));
    assert_eq!(keyboard_key_to_char(Key::Enter), Some('\n'));
    assert_eq!(keyboard_key_to_char(Key::Apostrophe), Some('\''));
    assert_eq!(keyboard_key_to_char(Key::Backslash), Some('\\'));
    assert_eq!(keyboard_key_to_char(Key::Grave), Some('`'));
    assert_eq!(keyboard_key_to_char(Key::Backspace), None);
    assert_eq!(keyboard_key_to_char(Key::Other), None);
}

#[test]
fn shift_gives_capitals_and_symbols() {
    assert_eq!(shift_character('a'), 'A');
    assert_eq!(shift_character('z'), 'Z');
    assert_eq!(shift_character('Q'), 'Q');
    assert_eq!(shift_character('1'), '!');
    assert_eq!(shift_character('0'), ')');
    assert_eq!(shift_character('9'), '(');
    assert_eq!(shift_character('\''), '"');
    assert_eq!(shift_character('\\'), '|');
    assert_eq!(shift_character('`'), '~');
    assert_eq!(shift_character(' '), ' ');
    assert_eq!(shift_character('é'), 'é');
}

#[test]
fn the_default_reducer_edits_a_text() {
    let mut text = String::from("Hi");
    let plain = |key| KeyEvent { key: Some(key), shift_down: false, ctrl_down: false };
    let shifted = |key| KeyEvent { key: Some(key), shift_down: true, ctrl_down: false };
    assert!(def_key_handler(plain(Key::Space), &mut text));
    assert!(def_key_handler(shifted(Key::Y), &mut text));
    assert!(def_key_handler(plain(Key::O), &mut text));
    assert!(def_key_handler(plain(Key::U), &mut text));
    assert!(def_key_handler(shifted(Key::One), &mut text));
    assert_eq!(text, "Hi You!");
    assert!(def_key_handler(plain(Key::Backspace), &mut text));
    assert_eq!(text, "Hi You");
    assert!(!def_key_handler(plain(Key::Other), &mut text));
    assert!(!def_key_handler(KeyEvent { key: None, shift_down: true, ctrl_down: true }, &mut text));
    assert_eq!(text, "Hi You");
}

#[test]
fn backspace_on_an_empty_text_leaves_it_empty() {
    let mut text = String::new();
    let handled = def_key_handler(
        KeyEvent { key: Some(Key::Backspace), shift_down: false, ctrl_down: false },
        &mut text,
    );
    assert!(handled);
    assert_eq!(text, "");
}

#[test]
fn numbers_are_written_in_decimal() {
    assert_eq!(decimal_string(0), "0");
    assert_eq!(decimal_string(7), "7");
    assert_eq!(decimal_string(10), "10");
    assert_eq!(decimal_string(4096), "4096");
    assert_eq!(decimal_string(usize::MAX), usize::MAX.to_string());
}

#[test]
fn strings_are_compared_by_their_characters() {
    assert!(str_eq("", ""));
    assert!(str_eq("héllo", "héllo"));
    assert!(!str_eq("hello", "hellO"));
    assert!(!str_eq("hello", "hell"));
}
