use remark::note_buffer::NoteBuffer;

#[test]
fn erasing_undoes_typing() {
    let mut b = NoteBuffer::from_string("ab\ncd".to_string());
    b.move_right();
    let before = b.as_string();
    b.insert_char('é');
    assert_eq!(b.as_string(), "aéb\ncd");
    assert!(b.backspace());
    assert_eq!(b.as_string(), before);
    b.insert_newline();
    assert_eq!(b.as_string(), "a\nb\ncd");
    assert_eq!(b.cursor(), (1, 0));
    assert!(b.backspace());
    assert_eq!(b.as_string(), before);
    assert_eq!(b.cursor(), (0, 1));
    b.move_line_start();
    assert!(!b.backspace());
}

#[test]
fn the_cursor_goes_from_line_to_line() {
    let mut b = NoteBuffer::from_string("long line\nx\n\n".to_string());
    assert_eq!(b.lines().len(), 2);
    b.move_line_end();
    assert_eq!(b.cursor(), (0, 9));
    b.move_down();
    assert_eq!(b.cursor(), (1, 1));
    b.move_down();
    b.move_right();
    assert_eq!(b.cursor(), (1, 1));
    b.move_left();
    b.move_left();
    assert_eq!(b.cursor(), (0, 9));
    b.move_right();
    assert_eq!(b.cursor(), (1, 0));
    b.move_up();
    assert_eq!(b.cursor(), (0, 0));
    b.move_up();
    b.move_left();
    assert_eq!(b.cursor(), (0, 0));
}

#[test]
fn a_text_reads_back() {
    for s in ["", "a", "a\nb", "\n\nx"] {
        assert_eq!(NoteBuffer::from_string(s.to_string()).as_string(), s);
    }
    assert_eq!(NoteBuffer::from_string("a\r\n\n".to_string()).as_string(), "a");
    assert_eq!(NoteBuffer::new().as_string(), "");
}
