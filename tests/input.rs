use cabin::input::{Input, InputEvent, Key};

fn feed(input: &mut Input, bytes: &[u8]) {
    for b in bytes {
        input.putc(*b);
    }
}

fn events(input: &mut Input) -> Vec<String> {
    let mut out = vec![];
    while let Some(e) = input.next_event() {
        match e {
            InputEvent::Line(l) => out.push(format!("line:{}", l)),
            InputEvent::KeyCode(k) => out.push(format!("key:{:?}", k)),
        }
    }
    out
}

#[test]
fn typed_text_is_inserted_and_submitted() {
    let mut input = Input::default();
    feed(&mut input, b"hello");
    assert_eq!(input.value(), "hello");
    assert_eq!(input.cursor(), 5);
    feed(&mut input, b"\r");
    assert_eq!(input.value(), "");
    assert_eq!(input.cursor(), 0);
    assert_eq!(events(&mut input), vec!["line:hello".to_string()]);
}

#[test]
fn line_feed_also_submits() {
    let mut input = Input::default();
    feed(&mut input, b"ab\ncd\r");
    assert_eq!(events(&mut input), vec!["line:ab".to_string(), "line:cd".to_string()]);
}

#[test]
fn delete_sequence_in_single_bytes_gives_one_delete() {
    let mut input = Input::default();
    feed(&mut input, b"abc");
    input.set_cursor(1);
    input.putc(0x1b);
    input.putc(b'[');
    input.putc(b'3');
    input.putc(b'~');
    assert_eq!(input.value(), "ac");
    assert_eq!(input.cursor(), 1);
    assert_eq!(events(&mut input), vec![format!("key:{:?}", Key::Delete)]);
}

#[test]
fn delete_at_end_removes_nothing() {
    let mut input = Input::default();
    feed(&mut input, b"ab\x1b[3~");
    assert_eq!(input.value(), "ab");
    assert_eq!(events(&mut input), vec!["key:Delete".to_string()]);
}

#[test]
fn arrows_move_the_cursor_and_saturate() {
    let mut input = Input::default();
    feed(&mut input, b"ab");
    feed(&mut input, b"\x1b[D\x1b[D\x1b[D");
    assert_eq!(input.cursor(), 0);
    feed(&mut input, b"\x1b[C\x1b[C\x1b[C\x1b[C");
    assert_eq!(input.cursor(), 2);
    feed(&mut input, b"\x1b[A\x1b[B");
    assert_eq!(input.value(), "ab");
    let evs = events(&mut input);
    assert_eq!(evs.len(), 9);
    assert_eq!(evs[0], "key:Left");
    assert_eq!(evs[3], "key:Right");
    assert_eq!(evs[7], "key:Up");
    assert_eq!(evs[8], "key:Down");
}

#[test]
fn backspace_and_ctrl_h_delete_left() {
    let mut input = Input::default();
    feed(&mut input, b"abc\x7f");
    assert_eq!(input.value(), "ab");
    feed(&mut input, b"\x08\x08\x08");
    assert_eq!(input.value(), "");
    assert_eq!(input.cursor(), 0);
}

#[test]
fn broken_sequence_is_read_afresh() {
    let mut input = Input::default();
    // ESC followed by a letter: the letter is typed.
    feed(&mut input, b"\x1bx");
    assert_eq!(input.value(), "x");
    // ESC [ followed by an unknown final byte: that byte is typed.
    feed(&mut input, b"\x1b[z");
    assert_eq!(input.value(), "xz");
    // ESC [ 3 then a letter.
    feed(&mut input, b"\x1b[3q");
    assert_eq!(input.value(), "xzq");
    // ESC ESC [ C: the second ESC starts the sequence again.
    input.set_cursor(0);
    feed(&mut input, b"\x1b\x1b[C");
    assert_eq!(input.cursor(), 1);
    assert_eq!(input.value(), "xzq");
}

#[test]
fn tilde_outside_a_sequence_is_text() {
    let mut input = Input::default();
    feed(&mut input, b"a~");
    assert_eq!(input.value(), "a~");
}

#[test]
fn control_bytes_are_ignored_and_high_bytes_replaced() {
    let mut input = Input::default();
    feed(&mut input, &[0x03, 0x01, b'a', 0xc3]);
    assert_eq!(input.value(), "a\u{FFFD}");
    assert_eq!(input.cursor(), 2);
}

#[test]
fn cursor_never_leaves_the_text() {
    let mut input = Input::default();
    let mut seed: u32 = 12345;
    let alphabet: [u8; 12] = [0x1b, b'[', b'3', b'~', b'A', b'C', b'D', 0x7f, 0x08, b'x', b'\r', b'y'];
    for _ in 0..5000 {
        seed = seed.wrapping_mul(1103515245).wrapping_add(12345);
        let b = alphabet[((seed >> 16) as usize) % alphabet.len()];
        input.putc(b);
        assert!(input.cursor() <= input.value().chars().count());
        while input.next_event().is_some() {}
    }
}

#[test]
fn editing_operations() {
    let mut input = Input::default();
    input.set_value("hello world");
    assert_eq!(input.cursor(), 0);
    input.set_cursor(100);
    assert_eq!(input.cursor(), 11);
    input.remove_left(6);
    assert_eq!(input.value(), "hello");
    assert_eq!(input.cursor(), 5);
    input.remove_left(10);
    assert_eq!(input.value(), "");
    assert_eq!(input.cursor(), 0);
    input.set_value("abcdef");
    input.set_cursor(2);
    input.remove_right(2);
    assert_eq!(input.value(), "abef");
    input.remove_right(9);
    assert_eq!(input.value(), "ab");
    input.insert_at_cursor(&vec!['X', 'Y']);
    assert_eq!(input.value(), "abXY");
    assert_eq!(input.cursor(), 4);
    input.set_value("a");
    assert_eq!(input.cursor(), 1);
}

#[test]
fn next_line_skips_keys() {
    let mut input = Input::default();
    feed(&mut input, b"\x1b[Aone\r");
    assert_eq!(input.get_next_line(), Some("one".to_string()));
    assert_eq!(input.get_next_line(), None);
    assert_eq!(events(&mut input), vec!["key:Up".to_string()]);
}
