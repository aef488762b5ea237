use rote::buffer::EditBufferState;
use rote::edit::{Edit, EditOutcome, Section};
use rote::engine::{EditBuffer, latest, perform_edit, undo};
use rote::history::History;
use rote::row::{EditorHighlight, Row};

fn chars(s: &str) -> Vec<char> {
    s.chars().collect()
}

fn row_texts(state: &EditBufferState) -> Vec<Vec<char>> {
    state.rows.iter().map(|r| r.row.clone()).collect()
}

fn edit_buffer_weak_isomorphism(e_b1: &EditBufferState, e_b2: &EditBufferState) -> bool {
    e_b1.filename == e_b2.filename && row_texts(e_b1) == row_texts(e_b2)
}

fn edit_buffer_isomorphism(e_b1: &EditBufferState, e_b2: &EditBufferState) -> bool {
    edit_buffer_weak_isomorphism(e_b1, e_b2) && e_b1.cx == e_b2.cx && e_b1.cy == e_b2.cy
        && e_b1.rx == e_b2.rx && e_b1.row_offset == e_b2.row_offset
        && e_b1.col_offset == e_b2.col_offset && e_b1.dirty == e_b2.dirty
}

fn must_edit_buffer_isomorphism(e_b1: &EditBufferState, e_b2: &EditBufferState) -> bool {
    assert_eq!(e_b1.filename, e_b2.filename);
    assert_eq!(e_b1.cx, e_b2.cx);
    assert_eq!(e_b1.cy, e_b2.cy);
    assert_eq!(e_b1.rx, e_b2.rx);
    assert_eq!(e_b1.row_offset, e_b2.row_offset);
    assert_eq!(e_b1.col_offset, e_b2.col_offset);
    assert_eq!(e_b1.rows, e_b2.rows);
    assert_eq!(e_b1.dirty, e_b2.dirty);
    true
}

fn must_edit_buffer_weak_isomorphism(e_b1: &EditBufferState, e_b2: &EditBufferState) -> bool {
    assert_eq!(e_b1.filename, e_b2.filename);
    assert_eq!(row_texts(e_b1), row_texts(e_b2));
    true
}

fn plain_row(index: usize, s: &str) -> Row {
    Row {
        index,
        row: chars(s),
        render: chars(s),
        highlight: vec![EditorHighlight::Normal; s.chars().count()],
        highlight_open_comment: false,
    }
}

#[test]
fn remove_at_end() {
    let mut edit_buffer: EditBuffer = Default::default();

    perform_edit(&mut edit_buffer, &Edit::Insert(Section::Character((0, 0)), chars("\n")));
    perform_edit(&mut edit_buffer, &Edit::Insert(Section::Character((0, 1)), chars("qweqwe")));
    perform_edit(&mut edit_buffer, &Edit::Remove(Section::Character((5, 1)), chars("e")));

    assert_eq!(row_texts(&edit_buffer.state), vec![chars(""), chars("qweqw")]);
}

#[test]
fn valid_between_two_invalid() {
    let edit_buffer_ = EditBuffer {
        state: EditBufferState {
            cx: 0,
            cy: 0,
            rx: 0,
            row_offset: 0,
            col_offset: 0,
            rows: vec![plain_row(0, "")],
            dirty: false,
            filename: None,
        },
        history: History {
            edits: vec![
                Edit::Remove(Section::Character((0, 0)), chars("B")),
                Edit::Insert(Section::Character((0, 0)), chars("A")),
                Edit::Remove(Section::Character((0, 0)), chars("B")),
            ],
            current: Some(0),
        },
    };

    let mut edit_buffer = edit_buffer_.clone();

    latest(&mut edit_buffer);

    if edit_buffer_weak_isomorphism(&edit_buffer.state, &edit_buffer_.state) {
        return;
    }

    while let EditOutcome::Changed = undo(&mut edit_buffer) {
        if edit_buffer_weak_isomorphism(&edit_buffer.state, &edit_buffer_.state) {
            return;
        }
    }

    must_edit_buffer_weak_isomorphism(&edit_buffer.state, &edit_buffer_.state);
    must_edit_buffer_isomorphism(&edit_buffer.state, &edit_buffer_.state);

    assert!(false)
}

#[test]
fn weird_history() {
    let edit_buffer_ = EditBuffer {
        state: EditBufferState {
            cx: 0,
            cy: 0,
            rx: 0,
            row_offset: 0,
            col_offset: 0,
            rows: vec![plain_row(0, "1")],
            dirty: false,
            filename: None,
        },
        history: History {
            edits: vec![Edit::Remove(Section::Character((0, 0)), chars(""))],
            current: None,
        },
    };

    let mut edit_buffer = edit_buffer_.clone();

    perform_edit(&mut edit_buffer, &Edit::Insert(Section::Character((1, 0)), chars("2")));

    latest(&mut edit_buffer);

    if edit_buffer_weak_isomorphism(&edit_buffer.state, &edit_buffer_.state) {
        return;
    }

    while let EditOutcome::Changed = undo(&mut edit_buffer) {
        if edit_buffer_weak_isomorphism(&edit_buffer.state, &edit_buffer_.state) {
            return;
        }
    }

    must_edit_buffer_weak_isomorphism(&edit_buffer.state, &edit_buffer_.state);
    must_edit_buffer_isomorphism(&edit_buffer.state, &edit_buffer_.state);

    assert!(false)
}

#[test]
fn newline_carriage_return_then_undo() {
    let edit_buffer_: EditBuffer = Default::default();

    let mut edit_buffer = edit_buffer_.clone();

    perform_edit(&mut edit_buffer, &Edit::Insert(Section::Character((0, 0)), chars("\n\r")));

    latest(&mut edit_buffer);

    if edit_buffer_weak_isomorphism(&edit_buffer.state, &edit_buffer_.state) {
        return;
    }

    while let EditOutcome::Changed = undo(&mut edit_buffer) {
        if edit_buffer_weak_isomorphism(&edit_buffer.state, &edit_buffer_.state) {
            return;
        }
    }

    must_edit_buffer_weak_isomorphism(&edit_buffer.state, &edit_buffer_.state);
    must_edit_buffer_isomorphism(&edit_buffer.state, &edit_buffer_.state);

    assert!(false)
}

#[test]
fn carriage_return_newline_then_undo() {
    let edit_buffer_: EditBuffer = Default::default();

    let mut edit_buffer = edit_buffer_.clone();

    perform_edit(&mut edit_buffer, &Edit::Insert(Section::Character((0, 0)), chars("\r\n")));

    latest(&mut edit_buffer);

    if edit_buffer_weak_isomorphism(&edit_buffer.state, &edit_buffer_.state) {
        return;
    }

    while let EditOutcome::Changed = undo(&mut edit_buffer) {
        if edit_buffer_weak_isomorphism(&edit_buffer.state, &edit_buffer_.state) {
            return;
        }
    }

    must_edit_buffer_weak_isomorphism(&edit_buffer.state, &edit_buffer_.state);
    must_edit_buffer_isomorphism(&edit_buffer.state, &edit_buffer_.state);

    assert!(false)
}

#[test]
fn c_index_byte_index_confusion() {
    let edit_buffer_ = EditBuffer {
        state: EditBufferState {
            cx: 0,
            cy: 0,
            rx: 0,
            row_offset: 0,
            col_offset: 0,
            rows: vec![plain_row(0, "\u{02d3}")],
            dirty: false,
            filename: None,
        },
        history: History {
            edits: vec![Edit::Insert(Section::Character((2, 0)), chars("\n"))],
            current: None,
        },
    };

    let mut edit_buffer = edit_buffer_.clone();

    latest(&mut edit_buffer);

    if edit_buffer_weak_isomorphism(&edit_buffer.state, &edit_buffer_.state) {
        return;
    }

    while let EditOutcome::Changed = undo(&mut edit_buffer) {
        if edit_buffer_weak_isomorphism(&edit_buffer.state, &edit_buffer_.state) {
            return;
        }
    }

    must_edit_buffer_weak_isomorphism(&edit_buffer.state, &edit_buffer_.state);
    must_edit_buffer_isomorphism(&edit_buffer.state, &edit_buffer_.state);

    assert!(false)
}

#[test]
fn undo_initial_newline_paste() {
    let mut edit_buffer_: EditBuffer = Default::default();

    perform_edit(&mut edit_buffer_, &Edit::Insert(Section::Character((0, 0)), chars("4")));

    edit_buffer_.history = History {
        edits: vec![Edit::Insert(Section::Character((1, 0)), chars("\n2"))],
        current: None,
    };

    let mut edit_buffer = edit_buffer_.clone();

    latest(&mut edit_buffer);

    if edit_buffer_weak_isomorphism(&edit_buffer.state, &edit_buffer_.state) {
        return;
    }

    while let EditOutcome::Changed = undo(&mut edit_buffer) {
        if edit_buffer_weak_isomorphism(&edit_buffer.state, &edit_buffer_.state) {
            return;
        }
    }

    must_edit_buffer_weak_isomorphism(&edit_buffer.state, &edit_buffer_.state);
    must_edit_buffer_isomorphism(&edit_buffer.state, &edit_buffer_.state);

    assert!(false)
}

#[test]
fn undo_final_newline_paste() {
    let mut edit_buffer_: EditBuffer = Default::default();

    perform_edit(&mut edit_buffer_, &Edit::Insert(Section::Character((0, 0)), chars("2")));

    let mut edit_buffer = edit_buffer_.clone();

    perform_edit(&mut edit_buffer, &Edit::Insert(Section::Character((0, 0)), chars("4\n")));

    latest(&mut edit_buffer);

    if edit_buffer_weak_isomorphism(&edit_buffer.state, &edit_buffer_.state) {
        return;
    }

    while let EditOutcome::Changed = undo(&mut edit_buffer) {
        if edit_buffer_weak_isomorphism(&edit_buffer.state, &edit_buffer_.state) {
            return;
        }
    }

    must_edit_buffer_weak_isomorphism(&edit_buffer.state, &edit_buffer_.state);
    must_edit_buffer_isomorphism(&edit_buffer.state, &edit_buffer_.state);

    assert!(false)
}

#[test]
fn undo_internal_newline_paste() {
    let mut edit_buffer_: EditBuffer = Default::default();

    perform_edit(&mut edit_buffer_, &Edit::Insert(Section::Character((0, 0)), chars("3")));

    let mut edit_buffer = edit_buffer_.clone();

    perform_edit(&mut edit_buffer, &Edit::Insert(Section::Character((0, 0)), chars("1\n2\n")));

    latest(&mut edit_buffer);

    if edit_buffer_weak_isomorphism(&edit_buffer.state, &edit_buffer_.state) {
        return;
    }

    while let EditOutcome::Changed = undo(&mut edit_buffer) {
        if edit_buffer_weak_isomorphism(&edit_buffer.state, &edit_buffer_.state) {
            return;
        }
    }

    must_edit_buffer_weak_isomorphism(&edit_buffer.state, &edit_buffer_.state);
    must_edit_buffer_isomorphism(&edit_buffer.state, &edit_buffer_.state);

    assert!(false)
}

#[test]
fn handle_invalid_current_index() {
    let edit_buffer_ = EditBuffer {
        state: EditBufferState {
            cx: 0,
            cy: 0,
            rx: 0,
            row_offset: 0,
            col_offset: 0,
            rows: vec![plain_row(0, "^]8")],
            dirty: true,
            filename: None,
        },
        history: History { edits: vec![], current: Some(19) },
    };

    let mut edit_buffer = edit_buffer_.clone();

    perform_edit(&mut edit_buffer, &Edit::Insert(Section::Character((0, 0)), chars("\u{0}")));

    latest(&mut edit_buffer);

    if edit_buffer_weak_isomorphism(&edit_buffer.state, &edit_buffer_.state) {
        return;
    }

    while let EditOutcome::Changed = undo(&mut edit_buffer) {
        if edit_buffer_weak_isomorphism(&edit_buffer.state, &edit_buffer_.state) {
            return;
        }
    }

    must_edit_buffer_weak_isomorphism(&edit_buffer.state, &edit_buffer_.state);
    must_edit_buffer_isomorphism(&edit_buffer.state, &edit_buffer_.state);

    assert!(false)
}

#[test]
fn troublesome_unicode() {
    let mut edit_buffer_: EditBuffer = Default::default();

    perform_edit(&mut edit_buffer_, &Edit::Insert(Section::Character((0, 0)), chars("/\u{02d3}^")));

    let mut edit_buffer = edit_buffer_.clone();

    perform_edit(&mut edit_buffer, &Edit::Insert(Section::Character((2, 0)), chars("/\u{02d3}^")));

    latest(&mut edit_buffer);

    if edit_buffer_weak_isomorphism(&edit_buffer.state, &edit_buffer_.state) {
        return;
    }

    while let EditOutcome::Changed = undo(&mut edit_buffer) {
        if edit_buffer_weak_isomorphism(&edit_buffer.state, &edit_buffer_.state) {
            return;
        }
    }

    must_edit_buffer_weak_isomorphism(&edit_buffer.state, &edit_buffer_.state);
    must_edit_buffer_isomorphism(&edit_buffer.state, &edit_buffer_.state);

    assert!(false)
}

fn get_hello_world() -> EditBuffer {
    let mut edit_buffer: EditBuffer = Default::default();

    perform_edit(&mut edit_buffer, &Edit::Insert(Section::Character((0, 0)), chars("Hello\nWorld")));

    edit_buffer
}

#[test]
fn insert_multiple_lines() {
    let edit_buffer = get_hello_world();

    assert_eq!(row_texts(&edit_buffer.state), vec![chars("Hello"), chars("World")]);
}

#[test]
fn remove_zero_zero() {
    let mut edit_buffer: EditBuffer = get_hello_world();

    perform_edit(&mut edit_buffer, &Edit::Remove(Section::Character((0, 0)), chars("Hello")));

    assert_eq!(row_texts(&edit_buffer.state), vec![chars(""), chars("World")]);
}

#[test]
fn remove_one_zero() {
    let mut edit_buffer: EditBuffer = get_hello_world();

    perform_edit(&mut edit_buffer, &Edit::Remove(Section::Character((1, 0)), chars("ello")));

    assert_eq!(row_texts(&edit_buffer.state), vec![chars("H"), chars("World")]);
}

#[test]
fn remove_four_zero() {
    let mut edit_buffer: EditBuffer = get_hello_world();

    perform_edit(&mut edit_buffer, &Edit::Remove(Section::Character((4, 0)), chars("o")));

    assert_eq!(row_texts(&edit_buffer.state), vec![chars("Hell"), chars("World")]);
}

#[test]
fn remove_five_zero() {
    let mut edit_buffer: EditBuffer = get_hello_world();

    perform_edit(&mut edit_buffer, &Edit::Remove(Section::Character((5, 0)), chars("\n")));

    assert_eq!(row_texts(&edit_buffer.state), vec![chars("HelloWorld")]);
}

#[test]
fn remove_newline_zero_zero() {
    let edit_buffer_: EditBuffer = get_hello_world();
    let mut edit_buffer = edit_buffer_.clone();

    perform_edit(&mut edit_buffer, &Edit::Remove(Section::Character((0, 0)), chars("\n")));

    assert_eq!(edit_buffer.history.edits, edit_buffer_.history.edits);
    assert_eq!(edit_buffer.history.current, edit_buffer_.history.current);
    must_edit_buffer_isomorphism(&edit_buffer.state, &edit_buffer_.state);
}

#[test]
fn insert_ascii() {
    let mut edit_buffer: EditBuffer = Default::default();

    perform_edit(&mut edit_buffer, &Edit::Insert(Section::Character((0, 0)), chars("A")));

    if let Some(row) = edit_buffer.state.rows.first() {
        assert_eq!(row.row, chars("A"))
    } else {
        panic!("No row!")
    }
}

#[test]
fn insert_unicode() {
    let mut edit_buffer: EditBuffer = Default::default();

    perform_edit(&mut edit_buffer, &Edit::Insert(Section::Character((0, 0)), chars("\u{203B}")));

    if let Some(row) = edit_buffer.state.rows.first() {
        assert_eq!(row.row, chars("\u{203B}"))
    } else {
        panic!("No row!")
    }
}

#[test]
fn insert_multiple_unicode() {
    let mut edit_buffer: EditBuffer = Default::default();

    let multiple = "\"\u{2049}\u{15c6}\u{c954}\u{fffc}";

    perform_edit(&mut edit_buffer, &Edit::Insert(Section::Character((0, 0)), chars(multiple)));

    if let Some(row) = edit_buffer.state.rows.first() {
        assert_eq!(row.row, chars(multiple))
    } else {
        panic!("No row!")
    }
}

#[test]
fn non_matching_remove() {
    let mut edit_buffer: EditBuffer = Default::default();

    perform_edit(&mut edit_buffer, &Edit::Insert(Section::Character((0, 0)), chars("Hello")));
    perform_edit(&mut edit_buffer, &Edit::Remove(Section::Character((0, 0)), chars(" World!")));

    if let Some(row) = edit_buffer.state.rows.first() {
        assert_eq!(row.row, chars("Hello"))
    } else {
        panic!("No row!")
    }
}

#[test]
fn undo_non_matching_remove() {
    let mut edit_buffer_: EditBuffer = Default::default();

    perform_edit(&mut edit_buffer_, &Edit::Insert(Section::Character((0, 0)), chars("123")));

    let mut edit_buffer = edit_buffer_.clone();

    perform_edit(&mut edit_buffer, &Edit::Remove(Section::Character((2, 0)), chars("123")));

    latest(&mut edit_buffer);

    if edit_buffer_weak_isomorphism(&edit_buffer.state, &edit_buffer_.state) {
        return;
    }

    while let EditOutcome::Changed = undo(&mut edit_buffer) {
        if edit_buffer_weak_isomorphism(&edit_buffer.state, &edit_buffer_.state) {
            return;
        }
    }

    assert_eq!(edit_buffer.history.edits, vec![Edit::Insert(Section::Character((0, 0)),
        chars("123"))]);
    must_edit_buffer_weak_isomorphism(&edit_buffer.state, &edit_buffer_.state);
    must_edit_buffer_isomorphism(&edit_buffer.state, &edit_buffer_.state);

    assert!(false)
}

#[test]
fn undo_non_matching_remove_one_to_the_right() {
    let mut edit_buffer_: EditBuffer = Default::default();

    perform_edit(&mut edit_buffer_, &Edit::Insert(Section::Character((0, 0)), chars("123")));

    let mut edit_buffer = edit_buffer_.clone();

    perform_edit(&mut edit_buffer, &Edit::Remove(Section::Character((1, 0)), chars("123")));

    latest(&mut edit_buffer);

    if edit_buffer_weak_isomorphism(&edit_buffer.state, &edit_buffer_.state) {
        return;
    }

    while let EditOutcome::Changed = undo(&mut edit_buffer) {
        if edit_buffer_weak_isomorphism(&edit_buffer.state, &edit_buffer_.state) {
            return;
        }
    }

    assert_eq!(edit_buffer.history.edits, vec![Edit::Insert(Section::Character((0, 0)),
        chars("123"))]);
    must_edit_buffer_weak_isomorphism(&edit_buffer.state, &edit_buffer_.state);
    must_edit_buffer_isomorphism(&edit_buffer.state, &edit_buffer_.state);

    assert!(false)
}

#[test]
fn undo_matching_remove() {
    let mut edit_buffer_: EditBuffer = Default::default();

    perform_edit(&mut edit_buffer_, &Edit::Insert(Section::Character((0, 0)), chars("123")));

    let mut edit_buffer = edit_buffer_.clone();

    perform_edit(&mut edit_buffer, &Edit::Remove(Section::Character((0, 0)), chars("123")));

    assert_eq!(row_texts(&edit_buffer.state), vec![chars("")]);

    latest(&mut edit_buffer);

    if edit_buffer_weak_isomorphism(&edit_buffer.state, &edit_buffer_.state) {
        return;
    }

    while let EditOutcome::Changed = undo(&mut edit_buffer) {
        if edit_buffer_weak_isomorphism(&edit_buffer.state, &edit_buffer_.state) {
            return;
        }
    }

    assert_eq!(
        edit_buffer.history.edits,
        vec![
            Edit::Insert(Section::Character((0, 0)), chars("123")),
            Edit::Remove(Section::Character((0, 0)), chars("123")),
        ]
    );
    must_edit_buffer_weak_isomorphism(&edit_buffer.state, &edit_buffer_.state);
    must_edit_buffer_isomorphism(&edit_buffer.state, &edit_buffer_.state);

    assert!(false)
}

#[test]
fn add_linebreak_at_start() {
    let mut edit_buffer: EditBuffer = Default::default();

    perform_edit(&mut edit_buffer, &Edit::Insert(Section::Character((0, 0)), chars("Hello")));
    perform_edit(&mut edit_buffer, &Edit::Insert(Section::Character((0, 0)), chars("\r")));

    assert_eq!(row_texts(&edit_buffer.state), vec![chars(""), chars("Hello")]);
}

#[test]
fn paste_string_containing_linebreak_at_start() {
    let mut edit_buffer: EditBuffer = Default::default();

    perform_edit(&mut edit_buffer, &Edit::Insert(Section::Character((0, 0)), chars("World")));
    perform_edit(&mut edit_buffer, &Edit::Insert(Section::Character((0, 0)), chars("Hello\r")));

    assert_eq!(row_texts(&edit_buffer.state), vec![chars("Hello"), chars("World")]);
}

#[test]
fn remove_from_bad_location() {
    let mut edit_buffer: EditBuffer = Default::default();

    perform_edit(&mut edit_buffer, &Edit::Insert(Section::Character((0, 7)), chars("Hello")));

    assert_eq!(row_texts(&edit_buffer.state), vec![chars("")]);
}

#[test]
fn undo_removal_on_second() {
    let mut edit_buffer: EditBuffer = Default::default();

    perform_edit(&mut edit_buffer, &Edit::Insert(Section::Character((0, 0)), chars("Hello")));
    perform_edit(&mut edit_buffer, &Edit::Insert(Section::Character((5, 0)), chars("\nWorld")));
    perform_edit(&mut edit_buffer, &Edit::Remove(Section::Character((0, 1)), chars("Worl")));

    assert_eq!(row_texts(&edit_buffer.state), vec![chars("Hello"), chars("d")]);

    undo(&mut edit_buffer);

    assert_eq!(row_texts(&edit_buffer.state), vec![chars("Hello"), chars("World")]);
}

#[test]
fn undo_removal_on_first_line() {
    let mut edit_buffer: EditBuffer = Default::default();

    perform_edit(&mut edit_buffer, &Edit::Insert(Section::Character((0, 0)), chars("Hello")));
    perform_edit(&mut edit_buffer, &Edit::Remove(Section::Character((0, 0)), chars("Hell")));

    assert_eq!(row_texts(&edit_buffer.state), vec![chars("o")]);

    undo(&mut edit_buffer);

    assert_eq!(row_texts(&edit_buffer.state), vec![chars("Hello")]);
}

#[test]
fn undo_line_addition() {
    let mut edit_buffer: EditBuffer = Default::default();

    perform_edit(&mut edit_buffer, &Edit::Insert(Section::Character((0, 0)), chars("Hello")));
    perform_edit(&mut edit_buffer, &Edit::Insert(Section::Character((3, 0)), chars("\n")));

    undo(&mut edit_buffer);

    assert_eq!(row_texts(&edit_buffer.state), vec![chars("Hello")]);
}

#[test]
fn undo_line_addition_at_beginning() {
    let mut edit_buffer: EditBuffer = Default::default();

    perform_edit(&mut edit_buffer, &Edit::Insert(Section::Character((0, 0)), chars("Hello")));
    perform_edit(&mut edit_buffer, &Edit::Insert(Section::Character((0, 0)), chars("\n")));

    undo(&mut edit_buffer);

    assert_eq!(row_texts(&edit_buffer.state), vec![chars("Hello")]);
}

#[test]
fn undo_line_addition_at_end() {
    let mut edit_buffer: EditBuffer = Default::default();

    perform_edit(&mut edit_buffer, &Edit::Insert(Section::Character((0, 0)), chars("Hello")));
    perform_edit(&mut edit_buffer, &Edit::Insert(Section::Character((5, 0)), chars("\n")));

    undo(&mut edit_buffer);

    assert_eq!(row_texts(&edit_buffer.state), vec![chars("Hello")]);
}

#[test]
fn cannot_make_row_without_newline() {
    let blank_history: History = Default::default();
    let mut edit_buffer: EditBuffer = Default::default();

    perform_edit(&mut edit_buffer, &Edit::Insert(Section::Character((0, 1)), chars("A")));

    assert_eq!(row_texts(&edit_buffer.state), vec![chars("")]);
    assert_eq!(edit_buffer.history, blank_history);
}

#[test]
fn cannot_make_row_past_last_row() {
    let edit_buffer_ = EditBuffer {
        state: EditBufferState {
            cx: 0,
            cy: 0,
            rx: 0,
            row_offset: 0,
            col_offset: 0,
            rows: vec![plain_row(0, "")],
            dirty: true,
            filename: None,
        },
        history: History { edits: vec![], current: None },
    };

    let mut edit_buffer = edit_buffer_.clone();

    perform_edit(&mut edit_buffer, &Edit::Insert(Section::Character((0, 1)), chars("\n")));

    latest(&mut edit_buffer);

    if edit_buffer_weak_isomorphism(&edit_buffer.state, &edit_buffer_.state) {
        return;
    }

    while let EditOutcome::Changed = undo(&mut edit_buffer) {
        if edit_buffer_weak_isomorphism(&edit_buffer.state, &edit_buffer_.state) {
            return;
        }
    }

    must_edit_buffer_weak_isomorphism(&edit_buffer.state, &edit_buffer_.state);
    must_edit_buffer_isomorphism(&edit_buffer.state, &edit_buffer_.state);

    assert!(false)
}
