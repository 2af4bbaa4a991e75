use proof_editor::editor::{
    delete_character, insert_character, insert_newline, move_cursor_down, move_cursor_left, move_cursor_right,
    move_cursor_up, EditorData, EditorState, FileGraphics, MenuGraphics, MenuLine,
};
use proof_editor::events::{
    handle_event_in_char_insertion, handle_event_in_file_edition, handle_event_in_menu, open_file, Direction, Event, Key,
    KeyModifiers, Redraw,
};
use proof_editor::library::{LibraryData, References};
use proof_editor::types::{ColorInfo, LineContext};

fn chars(s: &str) -> Vec<char> {
    s.chars().collect()
}

fn editor(text: &str, cursor: (usize, usize)) -> EditorData {
    let menu = MenuGraphics { cursor: 2, camera: 1, lines: vec![MenuLine::Text(chars("Files")), MenuLine::File(chars("a.txt"))] };
    let mut e = EditorData::new(menu, LibraryData::new(), References::new());
    let lines: Vec<Vec<char>> = text.split('\n').map(chars).collect();
    e.file = FileGraphics::from_lines(lines, &e.lib_data, &e.references);
    e.file.cursor = cursor;
    e.state = EditorState::EditingFile;
    e
}

fn texts(e: &EditorData) -> Vec<String> {
    e.file.lines.iter().map(|l| l.chars.iter().collect()).collect()
}

fn in_bounds(e: &EditorData) -> bool {
    let (cy, cx) = e.file.cursor;
    cy >= 1 && cy <= e.file.lines.len() && cx >= 1 && cx <= e.file.lines[cy - 1].chars.len() + 1
}

fn key(k: Key) -> Event {
    Event::KeyPressedOther(k, KeyModifiers::NoModifier)
}

#[test]
fn typing_into_raw_line() {
    let mut e = editor("hello\nabc", (2, 1));
    let r = handle_event_in_file_edition(Event::KeyPressedChar('x', KeyModifiers::NoModifier), &mut e);
    assert_eq!(r, Redraw::File);
    assert_eq!(texts(&e), vec!["hello", "xabc"]);
    assert_eq!(e.file.lines[1].context, LineContext::Raw);
    assert_eq!(e.file.lines[1].colors, vec![ColorInfo::no_color(); 4]);
    assert_eq!(e.file.cursor, (2, 2));
}

#[test]
fn backspace_joins_lines() {
    let mut e = editor("ab\ncd", (2, 1));
    handle_event_in_file_edition(key(Key::Backspace), &mut e);
    assert_eq!(texts(&e), vec!["abcd"]);
    assert_eq!(e.file.lines[0].context, LineContext::Raw);
    assert_eq!(e.file.cursor, (1, 5));
}

#[test]
fn backspace_deletes_and_moves_left() {
    let mut e = editor("ab\ncde", (2, 3));
    handle_event_in_file_edition(key(Key::Backspace), &mut e);
    assert_eq!(texts(&e), vec!["ab", "ce"]);
    assert_eq!(e.file.cursor, (2, 2));
}

#[test]
fn backspace_at_start_does_nothing() {
    let mut e = editor("ab", (1, 1));
    handle_event_in_file_edition(key(Key::Backspace), &mut e);
    assert_eq!(texts(&e), vec!["ab"]);
    assert_eq!(e.file.cursor, (1, 1));
}

#[test]
fn enter_splits_line() {
    let mut e = editor("hello\nabcd", (2, 3));
    handle_event_in_file_edition(key(Key::Enter), &mut e);
    assert_eq!(texts(&e), vec!["hello", "ab", "cd"]);
    assert_eq!(e.file.cursor, (3, 1));
}

#[test]
fn edits_keep_cursor_in_bounds() {
    let mut e = editor("hello\nab", (2, 3));
    let events = vec![
        Event::KeyPressedChar('z', KeyModifiers::NoModifier),
        key(Key::Enter),
        key(Key::Backspace),
        key(Key::Backspace),
        Event::KeyPressedChar('q', KeyModifiers::NoModifier),
        key(Key::Enter),
        key(Key::Enter),
        key(Key::Backspace),
    ];
    for ev in events {
        handle_event_in_file_edition(ev, &mut e);
        assert!(in_bounds(&e));
    }
    assert_eq!(texts(&e), vec!["hello", "abq", ""]);
}

#[test]
fn direct_edits() {
    let mut e = editor("hello\nabc", (2, 2));
    insert_character('!', &mut e);
    assert_eq!(texts(&e), vec!["hello", "a!bc"]);
    delete_character(&mut e);
    assert_eq!(texts(&e), vec!["hello", "!bc"]);
    insert_newline(&mut e);
    assert_eq!(texts(&e), vec!["hello", "!", "bc"]);
}

#[test]
fn local_reparse_of_assertion() {
    let mut e = editor("## Axiom a\n# Assertion\n𝛼", (3, 2));
    insert_character('…', &mut e);
    assert_eq!(e.file.lines[2].context, LineContext::AxiomHypothesis);
    assert_eq!(texts(&e)[2], "𝛼…");
    assert!(e.file.lines[2].colors.iter().all(|c| *c == ColorInfo::fg_color(proof_editor::types::Color::Red)));
}

#[test]
fn title_edit_reparses_everything() {
    let mut e = editor("## Axiom a\n# Assertion", (1, 1));
    insert_character('x', &mut e);
    assert_eq!(e.file.lines[0].context, LineContext::Raw);
    assert_eq!(e.file.lines[1].context, LineContext::Raw);
}

#[test]
fn cursor_left_and_right() {
    let e = editor("ab\ncd", (1, 3));
    assert_eq!(move_cursor_right(&e), Some((2, 1)));
    assert_eq!(move_cursor_left(&e), Some((1, 2)));
    let e = editor("ab\ncd", (2, 1));
    assert_eq!(move_cursor_left(&e), Some((1, 3)));
    let e = editor("ab\ncd", (2, 3));
    assert_eq!(move_cursor_right(&e), None);
    let e = editor("ab\ncd", (1, 1));
    assert_eq!(move_cursor_left(&e), None);
}

#[test]
fn cursor_up_and_down_wrap() {
    let long: String = std::iter::repeat('a').take(40).collect();
    let text = format!("short\n{}\nxy", long);
    let mut e = editor(&text, (2, 3));
    e.dimensions = (20, 10);
    e.indent = 2;
    assert_eq!(move_cursor_down(&e), Some((2, 20)));
    e.file.cursor = (2, 37);
    assert_eq!(move_cursor_down(&e), Some((3, 3)));
    assert_eq!(move_cursor_up(&e), Some((2, 20)));
    e.file.cursor = (2, 3);
    assert_eq!(move_cursor_up(&e), Some((1, 3)));
    e.file.cursor = (3, 2);
    assert_eq!(move_cursor_up(&e), Some((2, 37)));
    e.file.cursor = (3, 3);
    assert_eq!(move_cursor_down(&e), None);
    e.file.cursor = (3, 1);
    assert_eq!(move_cursor_down(&e), Some((3, 3)));
    e.file.cursor = (1, 4);
    assert_eq!(move_cursor_up(&e), Some((1, 1)));
}

#[test]
fn arrows_through_events() {
    let mut e = editor("ab\ncd", (1, 1));
    let r = handle_event_in_file_edition(Event::KeyPressedArrow(Direction::Right, KeyModifiers::NoModifier), &mut e);
    assert_eq!((r, e.file.cursor), (Redraw::File, (1, 2)));
    let r = handle_event_in_file_edition(Event::KeyPressedArrow(Direction::Down, KeyModifiers::Shift), &mut e);
    assert_eq!((r, e.file.camera), (Redraw::File, 2));
    handle_event_in_file_edition(Event::KeyPressedArrow(Direction::Down, KeyModifiers::Shift), &mut e);
    assert_eq!(e.file.camera, 2);
    handle_event_in_file_edition(Event::KeyPressedArrow(Direction::Up, KeyModifiers::Shift), &mut e);
    handle_event_in_file_edition(Event::KeyPressedArrow(Direction::Up, KeyModifiers::Shift), &mut e);
    assert_eq!(e.file.camera, 1);
}

#[test]
fn state_changes() {
    let mut e = editor("ab", (1, 1));
    assert_eq!(handle_event_in_file_edition(key(Key::Tab), &mut e), Redraw::CommandBar);
    assert_eq!(e.state, EditorState::InsertSpecialChar);
    handle_event_in_char_insertion(Event::KeyPressedChar('9', KeyModifiers::NoModifier), &mut e);
    handle_event_in_char_insertion(Event::KeyPressedChar('7', KeyModifiers::NoModifier), &mut e);
    handle_event_in_char_insertion(key(Key::Backspace), &mut e);
    assert_eq!(e.special_char_command, vec!['9']);
    assert_eq!(handle_event_in_char_insertion(key(Key::Enter), &mut e), Redraw::File);
    assert_eq!(e.state, EditorState::EditingFile);
    assert_eq!(handle_event_in_file_edition(key(Key::Escape), &mut e), Redraw::Menu);
    assert_eq!(e.state, EditorState::InMenu);
    handle_event_in_menu(Event::KeyboardInterrupt, &mut e);
    assert_eq!(e.state, EditorState::ShouldExit);
}

#[test]
fn resize_sets_indent() {
    let mut e = editor("ab", (1, 1));
    handle_event_in_file_edition(Event::WindowResize(25, 10), &mut e);
    assert_eq!((e.dimensions, e.indent), ((25, 10), 2));
    handle_event_in_file_edition(Event::WindowResize(200, 50), &mut e);
    assert_eq!(e.indent, 4);
    handle_event_in_file_edition(Event::WindowResize(2, 5), &mut e);
    assert_eq!((e.dimensions, e.indent), ((3, 5), 1));
}

#[test]
fn menu_opens_file() {
    let mut e = editor("ab", (1, 1));
    e.state = EditorState::InMenu;
    assert_eq!(handle_event_in_menu(key(Key::Enter), &mut e), Redraw::OpenFile(1));
    open_file(&mut e, vec![chars("## Theorem t")]);
    assert_eq!(e.state, EditorState::EditingFile);
    assert_eq!(e.file.cursor, (1, 1));
    assert_eq!(e.file.lines[0].context, LineContext::Title);
    e.state = EditorState::InMenu;
    handle_event_in_menu(Event::KeyPressedArrow(Direction::Up, KeyModifiers::NoModifier), &mut e);
    assert_eq!(e.menu.cursor, 2);
    handle_event_in_menu(Event::KeyPressedArrow(Direction::Down, KeyModifiers::NoModifier), &mut e);
    assert_eq!(e.menu.cursor, 2);
}

#[test]
fn proof_line_backspace_keeps_cursor_on_line() {
    let text = "## Theorem t\n# Hypothesis\nh:𝛼\n# Assertion\n𝛼\n# Proof\n1;;h;𝛼 𝛼";
    let mut e = editor(text, (7, 1));
    assert_eq!(texts(&e)[6], "1  ;    ; h  ; 𝛼 𝛼");
    e.file.cursor = (7, 19);
    handle_event_in_file_edition(key(Key::Backspace), &mut e);
    assert_eq!(texts(&e)[6], "1  ;    ; h  ; 𝛼");
    assert_eq!(e.file.lines[6].context, LineContext::ProofLine);
    assert_eq!(e.file.cursor, (7, 17));
    assert!(in_bounds(&e));
    assert_eq!(e.state, EditorState::EditingFile);
}

#[test]
fn proof_line_edits_keep_cursor_in_bounds() {
    let text = "## Theorem t\n# Hypothesis\nh:𝛼\n# Assertion\n𝛼\n# Proof\n1;;h;𝛼\n2 ; 1 ; h ; 𝛼";
    let mut e = editor(text, (7, 1));
    let len = e.file.lines[6].chars.len();
    e.file.cursor = (7, len + 1);
    let events = vec![
        Event::KeyPressedChar(' ', KeyModifiers::NoModifier),
        key(Key::Backspace),
        key(Key::Backspace),
        Event::KeyPressedChar(';', KeyModifiers::NoModifier),
        Event::KeyPressedArrow(Direction::Left, KeyModifiers::NoModifier),
        key(Key::Backspace),
        key(Key::Enter),
        key(Key::Backspace),
    ];
    for ev in events {
        handle_event_in_file_edition(ev, &mut e);
        assert!(in_bounds(&e));
    }
}
