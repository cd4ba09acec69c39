use cabin::ui::{Ui, Window, STATUS_CHANNEL};

fn texts(w: &Window) -> Vec<String> {
    w.lines().iter().map(|l| l.text.clone()).collect()
}

#[test]
fn new_window_is_empty() {
    let w = Window::new(vec![1, 2], "chat".to_string());
    assert_eq!(w.address, vec![1, 2]);
    assert_eq!(w.channel, "chat");
    assert_eq!(w.topic, "");
    assert_eq!(w.limit, 50);
    assert!(w.lines().is_empty());
}

#[test]
fn lines_keep_insertion_order_whatever_the_timestamps() {
    let mut w = Window::new(vec![], "c".to_string());
    // Two writers, interleaved, with equal and reversed timestamps.
    for i in 0..10u64 {
        w.insert(1000 - i, None, None, &format!("a{}", i));
        w.insert(500, Some([7u8; 32]), Some("bob".to_string()), &format!("b{}", i));
    }
    let lines = w.lines();
    assert_eq!(lines.len(), 20);
    for (k, l) in lines.iter().enumerate() {
        assert_eq!(l.index, k as u64);
        let expect = if k % 2 == 0 { format!("a{}", k / 2) } else { format!("b{}", k / 2) };
        assert_eq!(l.text, expect);
    }
    assert_eq!(lines[1].author, Some([7u8; 32]));
    assert_eq!(lines[1].nickname, Some("bob".to_string()));
}

#[test]
fn write_stamps_status_lines() {
    let mut w = Window::new(vec![], "c".to_string());
    w.write("hi");
    assert_eq!(texts(&w), vec!["hi".to_string()]);
    assert!(w.lines()[0].timestamp > 0);
    assert_eq!(w.lines()[0].author, None);
    w.update_topic("news".to_string());
    assert_eq!(w.topic, "news");
}

#[test]
fn ui_starts_with_the_status_window() {
    let ui = Ui::new((80, 24));
    assert_eq!(ui.windows().len(), 1);
    assert_eq!(ui.get_active_window().channel, STATUS_CHANNEL);
    assert_eq!(ui.get_active_index(), 0);
    assert_eq!(ui.get_active_address(), None);
    assert_eq!(ui.get_size(), (80, 24));
}

#[test]
fn windows_are_added_found_and_activated() {
    let mut ui = Ui::new((80, 24));
    assert_eq!(ui.add_window(vec![0; 32], "one".to_string()), 1);
    assert_eq!(ui.add_window(vec![1; 32], "two".to_string()), 2);
    assert_eq!(ui.get_window_index(&vec![1; 32], &"two".to_string()), Some(2));
    assert_eq!(ui.get_window_index(&vec![0; 32], &"two".to_string()), None);
    assert_eq!(ui.get_window(&vec![0; 32], &"one".to_string()).unwrap().channel, "one");
    ui.set_active_index(2);
    assert_eq!(ui.get_active_index(), 2);
    ui.set_active_index(9);
    assert_eq!(ui.get_active_index(), 2);
    ui.write(1, "test line 1");
    ui.write_status("status");
    assert_eq!(texts(&ui.windows()[1]), vec!["test line 1".to_string()]);
    assert_eq!(texts(&ui.windows()[0]), vec!["status".to_string()]);
    ui.set_active_address(&vec![0xab]);
    assert_eq!(ui.get_active_address(), Some(&vec![0xab]));
}

#[test]
fn removing_before_the_active_window_shifts_it_down_by_one() {
    let mut ui = Ui::new((80, 24));
    for c in ["a", "b", "c", "d"] {
        ui.add_window(vec![1], c.to_string());
    }
    ui.set_active_index(3);
    ui.remove_window(1);
    assert_eq!(ui.get_active_index(), 2);
    assert_eq!(ui.get_active_window().channel, "c");
    ui.remove_window(3);
    assert_eq!(ui.get_active_index(), 2);
    ui.remove_window(2);
    assert_eq!(ui.get_active_index(), 1);
    assert_eq!(ui.windows().len(), 2);
}

#[test]
fn the_status_window_is_never_removed() {
    let mut ui = Ui::new((80, 24));
    ui.remove_window(0);
    assert_eq!(ui.windows().len(), 1);
    ui.add_window(vec![1], "a".to_string());
    ui.set_active_index(1);
    ui.remove_window(0);
    assert_eq!(ui.windows().len(), 2);
    ui.remove_window(1);
    assert_eq!(ui.windows().len(), 1);
    assert_eq!(ui.get_active_index(), 0);
    ui.remove_window(5);
    assert_eq!(ui.windows().len(), 1);
}

#[test]
fn windows_move_but_the_status_window_stays_first() {
    let mut ui = Ui::new((80, 24));
    ui.add_window(vec![1], "a".to_string());
    ui.add_window(vec![1], "b".to_string());
    ui.move_window(2, 1);
    assert_eq!(ui.windows()[1].channel, "b");
    assert_eq!(ui.windows()[2].channel, "a");
    ui.move_window(1, 0);
    assert_eq!(ui.windows()[0].channel, STATUS_CHANNEL);
}

#[test]
fn frame_of_the_status_window() {
    let mut ui = Ui::new((20, 4));
    ui.set_active_address(&vec![0xab, 0x12]);
    for b in b"hi" {
        ui.putc(*b);
    }
    let frame = ui.render_frame(&vec![]);
    assert_eq!(
        frame,
        "[\x1b[92m!status\x1b[39m] cabal://ab12\n\n\n> hi\x1b[7m \x1b[0m"
    );
}

#[test]
fn frame_shows_the_most_recent_lines_with_authors() {
    let mut ui = Ui::new((40, 4));
    let i = ui.add_window(vec![1], "chat".to_string());
    ui.update_topic(i, "the topic".to_string());
    ui.insert_line(i, 1, None, None, "old");
    let mut key = [0u8; 32];
    key[0] = 1;
    key[1] = 0xab;
    ui.insert_line(i, 2, Some(key), None, "mid");
    ui.insert_line(i, 3, Some(key), Some("ann".to_string()), "new\nline");
    ui.set_active_index(i);
    for b in b"xy\x1b[D" {
        ui.putc(*b);
    }
    let clocks = vec!["10:01".to_string(), "10:02".to_string()];
    let frame = ui.render_frame(&clocks);
    // sum of key bytes = 1 + 171 = 172, 172 % 12 == 4: blue
    assert_eq!(
        frame,
        "[#chat] the topic\n\
         [10:01] <\x1b[34m1ab00\x1b[39m> mid\n\
         [10:02] <\x1b[34mann\x1b[39m> new line\n\
         > x\x1b[7my\x1b[0m"
    );
}

#[test]
fn frame_pads_to_the_terminal_height() {
    let mut ui = Ui::new((40, 5));
    ui.write_status("one");
    let frame = ui.render_frame(&vec!["00:00".to_string()]);
    assert_eq!(frame.split('\n').count(), 5);
    assert!(frame.starts_with("[\x1b[92m!status\x1b[39m] \n[00:00] \x1b[92m-status-\x1b[39m one\n\n\n"));
}

#[test]
fn first_update_clears_the_screen_and_later_ones_send_changes() {
    let mut ui = Ui::new((40, 5));
    let first = ui.update();
    assert!(first.starts_with("\x1bc\x1b[?25l"));
    assert!(first.contains("!status"));
    assert!(first.contains("\r\n"));
    ui.write_status("hello there");
    let second = ui.update();
    assert!(!second.starts_with("\x1bc"));
    assert!(second.contains("hello there"));
    let third = ui.update();
    assert!(!third.contains("hello there"));
    assert_eq!(ui.finish(), "\x1bc");
}

#[test]
fn non_ascii_header_is_drawn_through_the_differ() {
    let mut ui = Ui::new((40, 5));
    let i = ui.add_window(vec![1], "café".to_string());
    ui.set_active_index(i);
    let first = ui.update();
    assert!(first.starts_with("\x1bc\x1b[?25l"));
    assert!(first.contains("[#café] "));
    let frame = ui.render_frame(&vec![]);
    assert!(frame.starts_with("[#café] \x1b[0m\n"));
    ui.update_topic(i, "née".to_string());
    let second = ui.update();
    assert!(!second.starts_with("\x1bc"));
    assert!(second.contains("née"));
}

#[test]
fn resize_takes_the_new_size() {
    let mut ui = Ui::new((40, 5));
    ui.update();
    ui.resize((30, 3));
    assert_eq!(ui.get_size(), (30, 3));
    let frame = ui.render_frame(&vec![]);
    assert_eq!(frame.split('\n').count(), 3);
    // The screen is cleared on the first frame only, resizes included.
    let out = ui.update();
    assert!(!out.starts_with("\x1bc"));
    ui.write_status("after");
    let again = ui.update();
    assert!(!again.starts_with("\x1bc"));
    assert!(again.contains("after"));
}

#[test]
fn out_of_range_windows_are_left_alone() {
    let mut ui = Ui::new((40, 5));
    ui.write(3, "nowhere");
    ui.insert_line(3, 1, None, None, "nowhere");
    ui.update_topic(3, "nowhere".to_string());
    assert_eq!(ui.windows().len(), 1);
    assert!(ui.windows()[0].lines().is_empty());
    ui.write(0, "here");
    assert_eq!(ui.windows()[0].lines().len(), 1);
}
