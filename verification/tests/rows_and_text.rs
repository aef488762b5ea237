use rote::file::{rows_to_text, text_to_lines};
use rote::row::{EditorHighlight, Row, is_separator, row_cx_to_rx, row_rx_to_cx, syntax_to_color,
    update_row};

fn chars(s: &str) -> Vec<char> {
    s.chars().collect()
}

#[test]
fn rows_serialize_with_a_line_feed_after_every_row() {
    let rows = vec![Row::new(0, chars("ab")), Row::new(1, chars("")), Row::new(2, chars("c"))];
    assert_eq!(rows_to_text(&rows), chars("ab\n\nc\n"));

    let empty: Vec<Row> = vec![];
    assert_eq!(rows_to_text(&empty), chars(""));
}

#[test]
fn text_splits_into_lines_normalizing_line_endings() {
    assert_eq!(text_to_lines(&chars("a\nb")), vec![chars("a"), chars("b")]);
    assert_eq!(text_to_lines(&chars("a\nb\n")), vec![chars("a"), chars("b")]);
    assert_eq!(text_to_lines(&chars("a\r\nb\r\n")), vec![chars("a"), chars("b")]);
    assert_eq!(text_to_lines(&chars("\n")), vec![chars("")]);
    assert_eq!(text_to_lines(&chars("")), Vec::<Vec<char>>::new());
    assert_eq!(text_to_lines(&chars("tail\r")), vec![chars("tail")]);
}

#[test]
fn serialize_then_parse_restores_the_row_texts() {
    let rows = vec![Row::new(0, chars("one")), Row::new(1, chars("")), Row::new(2, chars("three"))];
    let text = rows_to_text(&rows);
    let lines = text_to_lines(&text);
    let expected: Vec<Vec<char>> = rows.iter().map(|r| r.row.clone()).collect();
    assert_eq!(lines, expected);
}

#[test]
fn render_cache_expands_tabs_to_the_next_tab_stop() {
    let mut row = Row::new(0, chars("a\tb\tc"));
    assert_eq!(row.render, chars("a   b   c"));
    assert_eq!(row.highlight.len(), row.render.len());
    assert!(row.highlight.iter().all(|h| *h == EditorHighlight::Normal));

    row.row = chars("\t");
    update_row(&mut row);
    assert_eq!(row.render, chars("    "));
}

#[test]
fn render_columns_convert_to_and_from_character_columns() {
    let row = Row::new(0, chars("a\tbc"));
    // render is "a   bc": character columns 0..4 start at render columns
    // 0, 1, 4, 5
    assert_eq!(row_cx_to_rx(&row, 0), 0);
    assert_eq!(row_cx_to_rx(&row, 1), 1);
    assert_eq!(row_cx_to_rx(&row, 2), 4);
    assert_eq!(row_cx_to_rx(&row, 3), 5);
    assert_eq!(row_cx_to_rx(&row, 99), 6);

    assert_eq!(row_rx_to_cx(&row, 0), 0);
    assert_eq!(row_rx_to_cx(&row, 2), 1);
    assert_eq!(row_rx_to_cx(&row, 4), 2);
    assert_eq!(row_rx_to_cx(&row, 5), 3);
    assert_eq!(row_rx_to_cx(&row, 42), 4);
}

#[test]
fn separators_end_words_for_highlighting() {
    assert!(is_separator(' '));
    assert!(is_separator(','));
    assert!(is_separator(';'));
    assert!(is_separator('\0'));
    assert!(!is_separator('a'));
    assert!(!is_separator('_'));
}

#[test]
fn each_highlight_class_has_its_colour() {
    assert_eq!(syntax_to_color(EditorHighlight::Comment), 36);
    assert_eq!(syntax_to_color(EditorHighlight::MultilineComment), 36);
    assert_eq!(syntax_to_color(EditorHighlight::Keyword1), 33);
    assert_eq!(syntax_to_color(EditorHighlight::Keyword2), 32);
    assert_eq!(syntax_to_color(EditorHighlight::String), 35);
    assert_eq!(syntax_to_color(EditorHighlight::Number), 31);
    assert_eq!(syntax_to_color(EditorHighlight::Match), 34);
    assert_eq!(syntax_to_color(EditorHighlight::Normal), 37);
}
