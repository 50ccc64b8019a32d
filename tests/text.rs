use mint_client::{force_width, handle_key, InputLine, Key, Window, Event};

#[test]
fn force_width_pads_and_truncates() {
    assert_eq!(force_width("ab".to_string(), 4), "ab  ");
    assert_eq!(force_width("abcdef".to_string(), 3), "abc");
    assert_eq!(force_width("abc".to_string(), 3), "abc");
    assert_eq!(force_width("".to_string(), 0), "");
    assert_eq!(force_width("héllo".to_string(), 2), "hé");
}

fn line_with(text: &str, width: usize) -> InputLine {
    let mut l = InputLine::new(width, 1);
    l.set_string(text.to_string());
    l
}

#[test]
fn insert_char_goes_at_the_cursor() {
    let mut l = InputLine::new(10, 1);
    l.insert_char('a');
    l.insert_char('c');
    l.move_cursor(-1);
    l.insert_char('b');
    assert_eq!(l.as_text(), "abc");
    assert_eq!(l.get_cursor_pos(), (2, 0));
}

#[test]
fn delete_behind_the_cursor() {
    let mut l = line_with("abcdef", 10);
    l.move_cursor(4);
    l.delete_chars(-2);
    assert_eq!(l.as_text(), "abef");
    assert_eq!(l.get_cursor_pos(), (2, 0));
    l.delete_chars(-10);
    assert_eq!(l.as_text(), "ef");
    assert_eq!(l.get_cursor_pos(), (0, 0));
}

#[test]
fn delete_ahead_of_the_cursor() {
    let mut l = line_with("abcdef", 10);
    l.move_cursor(1);
    l.delete_chars(2);
    assert_eq!(l.as_text(), "adef");
    assert_eq!(l.get_cursor_pos(), (1, 0));
    l.delete_chars(100);
    assert_eq!(l.as_text(), "a");
    l.delete_chars(isize::MIN);
    assert_eq!(l.as_text(), "");
}

#[test]
fn move_cursor_stops_at_the_ends() {
    let mut l = line_with("abc", 10);
    l.move_cursor(-5);
    assert_eq!(l.get_cursor_pos(), (0, 0));
    l.move_cursor(isize::MAX);
    assert_eq!(l.get_cursor_pos(), (3, 0));
    l.move_cursor(isize::MIN);
    assert_eq!(l.get_cursor_pos(), (0, 0));
}

#[test]
fn set_string_resets_the_cursor() {
    let mut l = line_with("abc", 10);
    l.move_cursor(2);
    l.set_string("xyz".to_string());
    assert_eq!(l.get_cursor_pos(), (0, 0));
    assert_eq!(l.as_text(), "xyz");
}

#[test]
fn render_wraps_and_pads() {
    let l = line_with("abcdefg", 3);
    assert_eq!(l.render(), vec!["abc".to_string(), "def".to_string(), "g  ".to_string()]);
    assert_eq!(l.get_size(), (3, 3));
    let empty = InputLine::new(4, 1);
    assert_eq!(empty.render(), vec!["    ".to_string()]);
    assert_eq!(empty.get_size(), (4, 1));
    let exact = line_with("abcdef", 3);
    assert_eq!(exact.get_size(), (3, 2));
}

#[test]
fn cursor_position_wraps() {
    let mut l = line_with("abcdefg", 3);
    l.move_cursor(7);
    assert_eq!(l.get_cursor_pos(), (1, 2));
    l.set_width(7);
    assert_eq!(l.get_cursor_pos(), (0, 1));
    l.set_height(9);
    assert_eq!(l.get_size(), (7, 1));
}

#[test]
fn keys_edit_the_line_and_enter_sends_it() {
    let mut l = InputLine::new(20, 1);
    assert_eq!(handle_key(&mut l, Key::Char('h')), None);
    assert_eq!(handle_key(&mut l, Key::Char('x')), None);
    assert_eq!(handle_key(&mut l, Key::Ctrl('h')), None);
    assert_eq!(handle_key(&mut l, Key::Char('i')), None);
    assert_eq!(handle_key(&mut l, Key::Left), None);
    assert_eq!(handle_key(&mut l, Key::Ctrl('b')), None);
    assert_eq!(handle_key(&mut l, Key::Ctrl('d')), None);
    assert_eq!(handle_key(&mut l, Key::Right), None);
    assert_eq!(handle_key(&mut l, Key::Ctrl('f')), None);
    assert_eq!(handle_key(&mut l, Key::Other), None);
    assert_eq!(l.as_text(), "i");
    assert_eq!(
        handle_key(&mut l, Key::Char('\n')),
        Some(Event::UserInput { line: "i".to_string(), which: 0 })
    );
    assert_eq!(l.as_text(), "");
    assert_eq!(handle_key(&mut l, Key::Ctrl('c')), Some(Event::QuitRequest));
}
