//! Greedy word wrap: a text is cut at white space into words, and the words
//! are packed into rows that fit a given width.

use vstd::prelude::*;
use crate::metrics::{is_text_metrics, measure_text, width_fn};
use crate::strings::string_push;

verus! {

/// The white-space characters of Unicode.
pub open spec fn is_whitespace(c: char) -> bool {
    let n = c as u32;
    ||| 0x09 <= n <= 0x0d
    ||| n == 0x20
    ||| n == 0x85
    ||| n == 0xa0
    ||| n == 0x1680
    ||| 0x2000 <= n <= 0x200a
    ||| n == 0x2028
    ||| n == 0x2029
    ||| n == 0x202f
    ||| n == 0x205f
    ||| n == 0x3000
}

/// Tests a character for white space.
pub fn char_is_whitespace(c: char) -> (r: bool)
    ensures
        r == is_whitespace(c),
{
    let n = c as u32;
    (0x09 <= n && n <= 0x0d) || n == 0x20 || n == 0x85 || n == 0xa0 || n == 0x1680 || (0x2000 <= n
        && n <= 0x200a) || n == 0x2028 || n == 0x2029 || n == 0x202f || n == 0x205f || n == 0x3000
}

/// The list `done`, followed by `current` where that is not empty.
pub open spec fn flushed(done: Seq<Seq<char>>, current: Seq<char>) -> Seq<Seq<char>> {
    if current.len() > 0 {
        done.push(current)
    } else {
        done
    }
}

/// The words of `text` from position `i` on, given the words found so far
/// and the characters of the word that is being read.
pub open spec fn words_from(text: Seq<char>, i: int, current: Seq<char>, done: Seq<Seq<char>>) -> Seq<
    Seq<char>,
>
    decreases text.len() - i,
{
    if i < 0 || i >= text.len() {
        flushed(done, current)
    } else if is_whitespace(text[i]) {
        words_from(text, i + 1, Seq::empty(), flushed(done, current))
    } else {
        words_from(text, i + 1, current.push(text[i]), done)
    }
}

/// The words of a text: its maximal runs of characters that are not white
/// space, in order.
pub open spec fn words(text: Seq<char>) -> Seq<Seq<char>> {
    words_from(text, 0, Seq::empty(), Seq::empty())
}

/// A word: not empty, and free of white space.
pub open spec fn is_word(w: Seq<char>) -> bool {
    w.len() > 0 && forall|k: int| 0 <= k < w.len() ==> !is_whitespace(#[trigger] w[k])
}

/// Every item of the list is a word.
pub open spec fn all_words(ws: Seq<Seq<char>>) -> bool {
    forall|k: int| 0 <= k < ws.len() ==> is_word(#[trigger] ws[k])
}

/// Reading on from any point, with words behind and no white space in
/// hand, gives words.
proof fn lemma_words_from_are_words(text: Seq<char>, i: int, current: Seq<char>, done: Seq<Seq<char>>)
    requires
        all_words(done),
        forall|k: int| 0 <= k < current.len() ==> !is_whitespace(#[trigger] current[k]),
    ensures
        all_words(words_from(text, i, current, done)),
    decreases text.len() - i,
{
    if i < 0 || i >= text.len() {
    } else if is_whitespace(text[i]) {
        lemma_words_from_are_words(text, i + 1, Seq::empty(), flushed(done, current));
    } else {
        lemma_words_from_are_words(text, i + 1, current.push(text[i]), done);
    }
}

/// What [`words`] gives are words.
pub proof fn lemma_words_are_words(text: Seq<char>)
    ensures
        all_words(words(text)),
{
    lemma_words_from_are_words(text, 0, Seq::empty(), Seq::empty());
}

/// The items of a list written one after the other with a single space
/// between neighbours.
pub open spec fn join(items: Seq<Seq<char>>) -> Seq<char>
    decreases items.len(),
{
    if items.len() == 0 {
        Seq::empty()
    } else if items.len() == 1 {
        items[0]
    } else {
        join(items.drop_last()) + seq![' '] + items.last()
    }
}

/// A text with every run of white space turned into one space, and none at
/// either end.
pub open spec fn normalized(text: Seq<char>) -> Seq<char> {
    join(words(text))
}

/// The row that results from putting `word` behind `current`.
pub open spec fn extended(current: Seq<char>, word: Seq<char>) -> Seq<char> {
    if current.len() == 0 {
        word
    } else {
        current + seq![' '] + word
    }
}

/// The rows that greedy packing gives for the words from index `i` on, given
/// the rows that are complete and the row that is being filled.  A word goes
/// on the current row if the row then still fits `max_width`; otherwise the
/// current row is closed and the word opens the next one.
pub open spec fn rows_from(
    ws: Seq<Seq<char>>,
    i: int,
    rows: Seq<Seq<char>>,
    current: Seq<char>,
    max_width: i32,
    font_size: i32,
    width: spec_fn(Seq<char>, i32) -> i32,
) -> Seq<Seq<char>>
    decreases ws.len() - i,
{
    if i < 0 || i >= ws.len() {
        flushed(rows, current)
    } else if width(extended(current, ws[i]), font_size) <= max_width {
        rows_from(ws, i + 1, rows, extended(current, ws[i]), max_width, font_size, width)
    } else {
        rows_from(ws, i + 1, flushed(rows, current), ws[i], max_width, font_size, width)
    }
}

/// The rows into which a text is wrapped.
pub open spec fn text_rows(
    text: Seq<char>,
    max_width: i32,
    font_size: i32,
    width: spec_fn(Seq<char>, i32) -> i32,
) -> Seq<Seq<char>> {
    rows_from(words(text), 0, Seq::empty(), Seq::empty(), max_width, font_size, width)
}

/// Joining two lists one after the other joins their texts.
pub proof fn lemma_join_concat(a: Seq<Seq<char>>, b: Seq<Seq<char>>)
    ensures
        join(a + b) == if a.len() == 0 {
            join(b)
        } else if b.len() == 0 {
            join(a)
        } else {
            join(a) + seq![' '] + join(b)
        },
    decreases b.len(),
{
    if a.len() == 0 {
        assert(a + b =~= b);
    } else if b.len() == 0 {
        assert(a + b =~= a);
    } else {
        assert((a + b).drop_last() =~= a + b.drop_last());
        assert((a + b).last() == b.last());
        lemma_join_concat(a, b.drop_last());
        if b.len() == 1 {
            assert(a + b.drop_last() =~= a);
        } else {
            assert(join(a + b) =~= join(a) + seq![' '] + join(b));
        }
    }
}

/// Packing on from any point keeps the joined text: that of the rows so
/// far, of the row in hand and of the words to come.
proof fn lemma_rows_join(
    ws: Seq<Seq<char>>,
    i: int,
    rows: Seq<Seq<char>>,
    current: Seq<char>,
    max_width: i32,
    font_size: i32,
    width: spec_fn(Seq<char>, i32) -> i32,
)
    requires
        0 <= i <= ws.len(),
        all_words(ws),
    ensures
        join(rows_from(ws, i, rows, current, max_width, font_size, width)) == join(
            flushed(rows, current) + ws.subrange(i, ws.len() as int),
        ),
    decreases ws.len() - i,
{
    let rest = ws.subrange(i, ws.len() as int);
    if i >= ws.len() {
        assert(flushed(rows, current) + rest =~= flushed(rows, current));
    } else {
        let word = ws[i];
        assert(is_word(word));
        let tail = ws.subrange(i + 1, ws.len() as int);
        assert(rest =~= seq![word] + tail);
        lemma_join_concat(seq![word], tail);
        assert(join(seq![word]) == word);
        lemma_join_concat(flushed(rows, current), rest);
        if width(extended(current, word), font_size) <= max_width {
            let next = extended(current, word);
            lemma_rows_join(ws, i + 1, rows, next, max_width, font_size, width);
            lemma_join_concat(flushed(rows, next), tail);
            assert(flushed(rows, next) == rows.push(next));
            // join(rows.push(next)) == join(flushed(rows, current) + [word])
            if current.len() == 0 {
                assert(rows.push(next) =~= flushed(rows, current) + seq![word]);
            } else {
                lemma_join_concat(rows.push(current), seq![word]);
                assert(rows.push(next).drop_last() =~= rows);
                assert(rows.push(current).drop_last() =~= rows);
                if rows.len() == 0 {
                    assert(join(rows.push(next)) =~= join(rows.push(current)) + seq![' '] + word);
                } else {
                    assert(join(rows.push(next)) =~= join(rows.push(current)) + seq![' '] + word);
                }
            }
            lemma_join_concat(flushed(rows, current), seq![word]);
            lemma_join_concat(flushed(rows, current) + seq![word], tail);
            assert(flushed(rows, current) + rest =~= (flushed(rows, current) + seq![word]) + tail);
        } else {
            lemma_rows_join(ws, i + 1, flushed(rows, current), word, max_width, font_size, width);
            assert(flushed(flushed(rows, current), word) =~= flushed(rows, current) + seq![word]);
            assert(flushed(rows, current) + rest =~= (flushed(rows, current) + seq![word]) + tail);
        }
    }
}

/// Word-wrap round trip: the rows of a text, joined with single spaces, are
/// the text with its white space normalized.
pub proof fn lemma_wrap_round_trip(
    text: Seq<char>,
    max_width: i32,
    font_size: i32,
    width: spec_fn(Seq<char>, i32) -> i32,
)
    ensures
        join(text_rows(text, max_width, font_size, width)) == normalized(text),
{
    let ws = words(text);
    lemma_words_are_words(text);
    lemma_rows_join(ws, 0, Seq::empty(), Seq::empty(), max_width, font_size, width);
    assert(flushed(Seq::<Seq<char>>::empty(), Seq::<char>::empty()) + ws.subrange(0, ws.len() as int)
        =~= ws);
}

/// A row is within bounds if it fits the width, or holds one word only.
pub open spec fn row_in_bounds(
    row: Seq<char>,
    ws: Seq<Seq<char>>,
    max_width: i32,
    font_size: i32,
    width: spec_fn(Seq<char>, i32) -> i32,
) -> bool {
    width(row, font_size) <= max_width || exists|k: int| 0 <= k < ws.len() && #[trigger] ws[k] == row
}

/// Packing on from any point, with rows within bounds behind and in hand,
/// gives rows within bounds.
proof fn lemma_rows_in_bounds(
    ws: Seq<Seq<char>>,
    i: int,
    rows: Seq<Seq<char>>,
    current: Seq<char>,
    max_width: i32,
    font_size: i32,
    width: spec_fn(Seq<char>, i32) -> i32,
)
    requires
        0 <= i <= ws.len(),
        forall|r: int|
            0 <= r < rows.len() ==> row_in_bounds(#[trigger] rows[r], ws, max_width, font_size, width),
        current.len() > 0 ==> row_in_bounds(current, ws, max_width, font_size, width),
    ensures
        forall|r: int|
            0 <= r < rows_from(ws, i, rows, current, max_width, font_size, width).len()
                ==> row_in_bounds(
                #[trigger] rows_from(ws, i, rows, current, max_width, font_size, width)[r],
                ws,
                max_width,
                font_size,
                width,
            ),
    decreases ws.len() - i,
{
    let closed = flushed(rows, current);
    assert forall|r: int| 0 <= r < closed.len() implies row_in_bounds(
        #[trigger] closed[r],
        ws,
        max_width,
        font_size,
        width,
    ) by {
        if r < rows.len() {
            assert(closed[r] == rows[r]);
        } else {
            assert(closed[r] == current);
        }
    }
    let result = rows_from(ws, i, rows, current, max_width, font_size, width);
    if i >= ws.len() {
        assert(result == closed);
    } else if width(extended(current, ws[i]), font_size) <= max_width {
        let next = extended(current, ws[i]);
        assert(row_in_bounds(next, ws, max_width, font_size, width));
        lemma_rows_in_bounds(ws, i + 1, rows, next, max_width, font_size, width);
        assert(result == rows_from(ws, i + 1, rows, next, max_width, font_size, width));
    } else {
        assert(row_in_bounds(ws[i], ws, max_width, font_size, width));
        lemma_rows_in_bounds(ws, i + 1, closed, ws[i], max_width, font_size, width);
        assert(result == rows_from(ws, i + 1, closed, ws[i], max_width, font_size, width));
    }
}

/// No row of a wrapped text is wider than the width it was wrapped to,
/// except a row that holds a single word.
pub proof fn lemma_wrap_rows_fit(
    text: Seq<char>,
    max_width: i32,
    font_size: i32,
    width: spec_fn(Seq<char>, i32) -> i32,
)
    ensures
        forall|r: int|
            0 <= r < text_rows(text, max_width, font_size, width).len() ==> row_in_bounds(
                #[trigger] text_rows(text, max_width, font_size, width)[r],
                words(text),
                max_width,
                font_size,
                width,
            ),
{
    lemma_rows_in_bounds(words(text), 0, Seq::empty(), Seq::empty(), max_width, font_size, width);
}

/// Cuts a text into its words.
pub fn split_words(text: &str) -> (ws: Vec<String>)
    ensures
        ws.deep_view() == words(text@),
{
    let mut done: Vec<String> = Vec::new();
    let mut current = String::new();
    assert(done.deep_view() =~= Seq::<Seq<char>>::empty());
    for c in it: text.chars()
        invariant
            it.seq() == text@,
            words_from(text@, it.index() as int, current@, done.deep_view()) == words(text@),
    {
        if char_is_whitespace(c) {
            if !current.as_str().is_empty() {
                let ghost before = done.deep_view();
                let word = current;
                done.push(word);
                assert(done.deep_view() =~= before.push(word@));
            }
            current = String::new();
        } else {
            string_push(&mut current, c);
        }
    }
    if !current.as_str().is_empty() {
        let ghost before = done.deep_view();
        let word = current;
        done.push(word);
        assert(done.deep_view() =~= before.push(word@));
    }
    done
}

/// Wraps a text into rows no wider than `max_width`, as far as its words
/// allow: a word that is too wide on its own still gets a row of its own.
pub fn get_text_rows<F: Fn(&str, i32) -> i32>(
    content: &str,
    max_width: i32,
    font_size: i32,
    measure: &F,
) -> (rows: Vec<String>)
    requires
        is_text_metrics(*measure),
    ensures
        rows.deep_view() == text_rows(content@, max_width, font_size, width_fn(*measure)),
{
    let ws = split_words(content);
    let mut rows: Vec<String> = Vec::new();
    let mut current = String::new();
    let mut i: usize = 0;
    assert(rows.deep_view() =~= Seq::<Seq<char>>::empty());
    while i < ws.len()
        invariant
            i <= ws.len(),
            is_text_metrics(*measure),
            ws.deep_view() == words(content@),
            rows_from(
                ws.deep_view(),
                i as int,
                rows.deep_view(),
                current@,
                max_width,
                font_size,
                width_fn(*measure),
            ) == text_rows(content@, max_width, font_size, width_fn(*measure)),
        decreases ws.len() - i,
    {
        let word = &ws[i];
        assert(ws.deep_view()[i as int] == word@);
        let mut test_row = current.clone();
        if !test_row.as_str().is_empty() {
            string_push(&mut test_row, ' ');
        }
        test_row.append(word.as_str());
        assert(test_row@ =~= extended(current@, word@));
        let text_width = measure_text(measure, test_row.as_str(), font_size);
        if text_width <= max_width {
            current = test_row;
        } else {
            if !current.as_str().is_empty() {
                let ghost before = rows.deep_view();
                rows.push(current);
                assert(rows.deep_view() =~= before.push(current@));
            }
            current = word.clone();
        }
        i += 1;
    }
    if !current.as_str().is_empty() {
        let ghost before = rows.deep_view();
        let last = current;
        rows.push(last);
        assert(rows.deep_view() =~= before.push(last@));
    }
    rows
}

} // verus!
