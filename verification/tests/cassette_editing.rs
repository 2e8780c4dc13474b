use cassette::cassette::{pos_to_row_col, wrap_spans, Cassette, Side};

fn cassette_with(text: &str, cursor: usize) -> Cassette {
    let mut c = Cassette::new();
    for ch in text.chars() {
        c.insert(ch);
    }
    c.set_cursor(cursor);
    c
}

#[test]
fn insert_and_text() {
    let mut c = Cassette::new();
    c.insert('h');
    c.insert('i');
    assert_eq!(c.text(), "hi");
    assert_eq!(c.cursor_pos(), 2);
}

#[test]
fn backspace_removes_left() {
    let mut c = Cassette::new();
    c.insert('a');
    c.insert('b');
    c.backspace();
    assert_eq!(c.text(), "a");
}

#[test]
fn delete_removes_right() {
    let mut c = Cassette::new();
    c.insert('a');
    c.insert('b');
    c.move_left();
    c.delete();
    assert_eq!(c.text(), "a");
}

#[test]
fn move_left_right() {
    let mut c = Cassette::new();
    c.insert('a');
    c.insert('b');
    c.move_left();
    assert_eq!(c.cursor_pos(), 1);
    c.move_right();
    assert_eq!(c.cursor_pos(), 2);
}

#[test]
fn word_count() {
    let mut c = Cassette::new();
    for ch in "hello world foo".chars() {
        c.insert(ch);
    }
    assert_eq!(c.word_count(), 3);
}

#[test]
fn wrap_spans_breaks_on_newline_and_width() {
    let chars: Vec<char> = "abcd\nefghij".chars().collect();
    let spans = wrap_spans(&chars, 4);
    assert_eq!(spans, vec![(0, 4), (5, 9), (9, 11)]);
}

#[test]
fn wrap_spans_empty_text() {
    assert_eq!(wrap_spans(&[], 10), vec![(0, 0)]);
}

#[test]
fn wrap_breaks_at_word_boundary() {
    // "hello " stays on row 0 (trailing space), "world" moves whole to row 1.
    let chars: Vec<char> = "hello world".chars().collect();
    let spans = wrap_spans(&chars, 8);
    assert_eq!(spans, vec![(0, 6), (6, 11)]);
    assert_ne!(chars[6], ' ', "wrapped row must not start with a space");
}

#[test]
fn wrap_hard_breaks_long_words() {
    let chars: Vec<char> = "abcdefghij".chars().collect();
    assert_eq!(wrap_spans(&chars, 4), vec![(0, 4), (4, 8), (8, 10)]);
}

#[test]
fn wrap_lets_trailing_spaces_hang() {
    // Spaces past the edge hang on the row instead of wrapping.
    let chars: Vec<char> = "ab   ".chars().collect();
    assert_eq!(wrap_spans(&chars, 3), vec![(0, 5)]);
}

#[test]
fn wrap_consumes_space_run_at_break() {
    let chars: Vec<char> = "ab  cd".chars().collect();
    let spans = wrap_spans(&chars, 4);
    assert_eq!(spans, vec![(0, 4), (4, 6)]);
    assert_eq!(chars[4], 'c', "next row starts at the word");
}

#[test]
fn pos_maps_to_row_after_soft_wrap() {
    let chars: Vec<char> = "abcdef".chars().collect();
    let spans = wrap_spans(&chars, 3); // [(0,3), (3,6)]
    assert_eq!(pos_to_row_col(&spans, 3), (1, 0));
    assert_eq!(pos_to_row_col(&spans, 2), (0, 2));
    assert_eq!(pos_to_row_col(&spans, 6), (1, 3));
}

#[test]
fn flip_switches_sides_and_keeps_cursors() {
    let mut c = cassette_with("main thought", 4);
    assert_eq!(c.side, Side::A);
    c.flip();
    assert_eq!(c.side, Side::B);
    assert_eq!(c.text(), "");
    for ch in "scratch".chars() {
        c.insert(ch);
    }
    c.set_cursor(2);
    c.flip();
    assert_eq!(c.side, Side::A);
    assert_eq!(c.text(), "main thought");
    assert_eq!(c.cursor_pos(), 4, "side A cursor survives the round trip");
    c.flip();
    assert_eq!(c.text(), "scratch");
    assert_eq!(c.cursor_pos(), 2, "side B keeps its own cursor");
}

#[test]
fn side_texts_are_stable_regardless_of_active_side() {
    let mut c = cassette_with("side a words", 0);
    c.flip();
    for ch in "side b words".chars() {
        c.insert(ch);
    }
    assert_eq!(c.side_a_text(), "side a words");
    assert_eq!(c.side_b_text(), "side b words");
    c.flip();
    assert_eq!(c.side_a_text(), "side a words");
    assert_eq!(c.side_b_text(), "side b words");
}

#[test]
fn word_count_covers_both_sides() {
    let mut c = cassette_with("one two three", 0);
    c.flip();
    for ch in "four five".chars() {
        c.insert(ch);
    }
    assert_eq!(c.word_count(), 5);
}

#[test]
fn cursor_line_col_and_counts() {
    let c = cassette_with("hello\nworld", 8); // on "world", after "wo"
    assert_eq!(c.cursor_line_col(), (2, 3));
    assert_eq!(c.char_count(), 11);
}

#[test]
fn pos_stays_on_line_before_newline() {
    let chars: Vec<char> = "ab\ncd".chars().collect();
    let spans = wrap_spans(&chars, 10); // [(0,2), (3,5)]
    assert_eq!(pos_to_row_col(&spans, 2), (0, 2));
    assert_eq!(pos_to_row_col(&spans, 3), (1, 0));
}

#[test]
fn move_up_down_across_logical_lines() {
    let mut c = cassette_with("hello\nworld", 8); // on "world", col 2
    c.move_up(20);
    assert_eq!(c.cursor_pos(), 2); // "hello", col 2
    c.move_down(20);
    assert_eq!(c.cursor_pos(), 8);
}

#[test]
fn move_up_clamps_column_to_shorter_line() {
    let mut c = cassette_with("hi\nlonger line", 10); // col 7 on line 2
    c.move_up(20);
    assert_eq!(c.cursor_pos(), 2); // end of "hi"
}

#[test]
fn move_down_across_soft_wrap() {
    let mut c = cassette_with("abcdefgh", 1); // width 4 → rows "abcd", "efgh"
    c.move_down(4);
    assert_eq!(c.cursor_pos(), 5);
    c.move_up(4);
    assert_eq!(c.cursor_pos(), 1);
}

#[test]
fn move_up_on_first_row_is_noop() {
    let mut c = cassette_with("abc", 1);
    c.move_up(20);
    assert_eq!(c.cursor_pos(), 1);
}

#[test]
fn row_start_and_end() {
    let mut c = cassette_with("hello\nworld", 8);
    c.move_row_start(20);
    assert_eq!(c.cursor_pos(), 6);
    c.move_row_end(20);
    assert_eq!(c.cursor_pos(), 11);
}

#[test]
fn row_end_on_soft_wrapped_row_stays_on_row() {
    let mut c = cassette_with("abcdefgh", 1); // width 4, row 0 = "abcd"
    c.move_row_end(4);
    assert_eq!(c.cursor_pos(), 3); // before 'd', still row 0
}

#[test]
fn word_motions() {
    let mut c = cassette_with("hello world foo", 0);
    c.move_word_forward();
    assert_eq!(c.cursor_pos(), 6);
    c.move_word_forward();
    assert_eq!(c.cursor_pos(), 12);
    c.move_word_back();
    assert_eq!(c.cursor_pos(), 6);
    c.move_word_back();
    assert_eq!(c.cursor_pos(), 0);
}

#[test]
fn word_forward_crosses_newline() {
    let mut c = cassette_with("hello\nworld", 0);
    c.move_word_forward();
    assert_eq!(c.cursor_pos(), 6);
}

#[test]
fn text_start_and_end() {
    let mut c = cassette_with("hello\nworld", 4);
    c.move_text_end();
    assert_eq!(c.cursor_pos(), 11);
    c.move_text_start();
    assert_eq!(c.cursor_pos(), 0);
}

#[test]
fn delete_line_middle() {
    let mut c = cassette_with("one\ntwo\nthree", 5); // on "two"
    c.delete_line();
    assert_eq!(c.text(), "one\nthree");
    assert_eq!(c.cursor_pos(), 4); // start of "three"
}

#[test]
fn delete_line_last_takes_leading_newline() {
    let mut c = cassette_with("one\ntwo", 5);
    c.delete_line();
    assert_eq!(c.text(), "one");
}

#[test]
fn delete_line_only_line() {
    let mut c = cassette_with("only", 2);
    c.delete_line();
    assert_eq!(c.text(), "");
    assert_eq!(c.cursor_pos(), 0);
}

#[test]
fn open_below_and_above() {
    let mut c = cassette_with("one\ntwo", 1); // on "one"
    c.open_below();
    assert_eq!(c.text(), "one\n\ntwo");
    assert_eq!(c.cursor_pos(), 4); // on the new empty line

    let mut c = cassette_with("one\ntwo", 5); // on "two"
    c.open_above();
    assert_eq!(c.text(), "one\n\ntwo");
    assert_eq!(c.cursor_pos(), 4);
}

