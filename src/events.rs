use vstd::prelude::*;
use crate::editor::{
    EditorData, EditorState, FileGraphics, MenuLine, move_cursor_up, move_cursor_down, move_cursor_left,
    move_cursor_right, insert_character, insert_newline, delete_character, spec_up, spec_down, spec_left, spec_right,
    lines_after_insert, lines_after_delete, lines_after_newline, clamp_pos,
};
use crate::types::{lines_view, text_view};
use crate::parser::spec_parse_file;

verus! {

#[derive(Debug, PartialEq, Eq, Structural, Clone, Copy)]
pub enum Direction {
    Up,
    Down,
    Left,
    Right,
}

/// The modifier keys held with a key, as far as the editor tells them apart.
#[derive(Debug, PartialEq, Eq, Structural, Clone, Copy)]
pub enum KeyModifiers {
    NoModifier,
    Shift,
    Other,
}

/// Keys other than characters and arrows, as far as the editor tells them apart.
#[derive(Debug, PartialEq, Eq, Structural, Clone, Copy)]
pub enum Key {
    Enter,
    Escape,
    Tab,
    Backspace,
    Other,
}

/// An input event.
#[derive(Debug, PartialEq, Eq, Structural, Clone, Copy)]
pub enum Event {
    KeyPressedChar(char, KeyModifiers),
    KeyPressedArrow(Direction, KeyModifiers),
    KeyPressedOther(Key, KeyModifiers),
    MouseMoved(u16, u16),
    WindowResize(usize, usize),
    KeyboardInterrupt,
}

/// What has to be drawn again after an event.
#[derive(Debug, PartialEq, Eq, Structural, Clone, Copy)]
pub enum Redraw {
    Nothing,
    Menu,
    File,
    CommandBar,
    FileAndCommandBar,
    /// The file of the menu entry at this index is to be loaded and opened.
    OpenFile(usize),
}

/// Whether `f` satisfies `FileGraphics::wf`.
pub fn file_is_wf(f: &FileGraphics) -> (r: bool)
    ensures
        r == f.wf(),
{
    let (cy, cx) = f.cursor;
    if f.lines.len() == usize::MAX {
        return false;
    }
    if cy < 1 || cy > f.lines.len() {
        return false;
    }
    if cx < 1 || cx - 1 > f.lines[cy - 1].chars.len() {
        return false;
    }
    let mut i: usize = 0;
    while i < f.lines.len()
        invariant
            i <= f.lines@.len(),
            forall|j: int| 0 <= j < i ==> (#[trigger] f.lines@[j]).chars@.len() + 1 < usize::MAX,
        decreases f.lines.len() - i,
    {
        if f.lines[i].chars.len() >= usize::MAX - 1 {
            return false;
        }
        i += 1;
    }
    true
}

/// Whether `f` satisfies `FileGraphics::cursor_ok`.
pub fn cursor_is_ok(f: &FileGraphics) -> (r: bool)
    ensures
        r == f.cursor_ok(),
{
    let (cy, cx) = f.cursor;
    if cy < 1 || cy == usize::MAX || cx < 1 || cx == usize::MAX {
        return false;
    }
    let mut i: usize = 0;
    while i < f.lines.len()
        invariant
            i <= f.lines@.len(),
            forall|j: int| 0 <= j < i ==> (#[trigger] f.lines@[j]).chars@.len() < usize::MAX,
        decreases f.lines.len() - i,
    {
        if f.lines[i].chars.len() == usize::MAX {
            return false;
        }
        i += 1;
    }
    true
}

/// One less, but not below 1.
pub open spec fn step_down_to_one(x: usize) -> usize {
    if x > 2 {
        (x - 1) as usize
    } else {
        1
    }
}

/// One more, but not above `n`.
pub open spec fn step_up_to(x: usize, n: nat) -> usize {
    if x < n {
        (x + 1) as usize
    } else {
        n as usize
    }
}

/// Whether the cursor `(cy, cx)` may move one column on `lines`: counted
/// from 1, one column short of the machine's limit, on lines short enough to
/// measure.
pub open spec fn can_step(lines: Seq<crate::types::FileLine>, cy: int, cx: int) -> bool {
    &&& 1 <= cy < usize::MAX
    &&& 1 <= cx < usize::MAX
    &&& forall|i: int| 0 <= i < lines.len() ==> (#[trigger] lines[i]).chars@.len() < usize::MAX
}

/// Where the cursor goes after a character is typed: one step right over the
/// new lines, then into bounds.
pub open spec fn typed_cursor(lines: Seq<crate::types::FileLine>, cy: int, cx: int) -> (int, int) {
    let p = if can_step(lines, cy, cx) {
        match spec_right(lines, cy, cx) {
            Some(q) => q,
            None => (cy, cx),
        }
    } else {
        (cy, cx)
    };
    clamp_pos(lines, p.0, p.1)
}

/// Where the cursor goes after Backspace: one step left over the new lines,
/// then into bounds.
pub open spec fn deleted_cursor(lines: Seq<crate::types::FileLine>, cy: int, cx: int) -> (int, int) {
    let p = if can_step(lines, cy, cx) {
        match spec_left(lines, cy, cx) {
            Some(q) => q,
            None => (cy, cx),
        }
    } else {
        (cy, cx)
    };
    clamp_pos(lines, p.0, p.1)
}

/// A typed character keeps at least one line where the cursor was in bounds.
proof fn lemma_edit_keeps_lines(e: &EditorData, c: char)
    ensures
        e.file.wf() ==> lines_after_insert(e, c).len() == e.file.lines@.len(),
{
    if e.file.wf() {
        let lines = lines_view(e.file.lines@);
        crate::laws::lemma_insert_keeps_cursor_in_bounds(lines, e.cy(), e.cx(), c, e.lib_data, e.references);
    }
}

/// Backspace leaves at least one line where the cursor was in bounds.
proof fn lemma_delete_keeps_lines(e: &EditorData)
    ensures
        e.file.wf() ==> lines_after_delete(e).len() >= 1,
{
    if e.file.wf() {
        let lines = lines_view(e.file.lines@);
        let (cy, cx) = (e.cy(), e.cx());
        if cx == 1 && cy > 1 {
            crate::laws::lemma_join_keeps_cursor_in_bounds(lines, cy, e.lib_data, e.references);
        } else if cx > 1 {
            crate::laws::lemma_delete_keeps_cursor_in_bounds(lines, cy, cx, e.lib_data, e.references);
        }
    }
}

/// Enter adds one line.
proof fn lemma_newline_adds_line(e: &EditorData)
    ensures
        e.file.wf() ==> lines_after_newline(e).len() == e.file.lines@.len() + 1,
{
    if e.file.wf() {
        let lines = lines_view(e.file.lines@);
        let t = crate::editor::split_line_at(crate::editor::chars_of(lines), e.cy() - 1, e.cx() - 1);
        crate::laws::lemma_parse_file_keeps_line_count(t, e.lib_data, e.references);
    }
}

/// Moves the cursor to the nearest position in bounds.
fn clamp_cursor(file: &mut FileGraphics)
    ensures
        final(file).lines@ == old(file).lines@,
        final(file).camera == old(file).camera,
        final(file).read_only == old(file).read_only,
        (final(file).cursor.0 as int, final(file).cursor.1 as int) == clamp_pos(
            old(file).lines@,
            old(file).cursor.0 as int,
            old(file).cursor.1 as int,
        ),
{
    let n = file.lines.len();
    if n == 0 {
        return;
    }
    let (cy, cx) = file.cursor;
    let row = if cy < 1 {
        1
    } else if cy > n {
        n
    } else {
        cy
    };
    let len = file.lines[row - 1].chars.len();
    let col = if cx < 1 {
        1
    } else if cx - 1 > len {
        len + 1
    } else {
        cx
    };
    file.cursor = (row, col);
}

/// The indent that a terminal width asks for: a tenth of it, from 1 to 4.
pub open spec fn indent_for(cols: int) -> int {
    let t = cols / 10;
    if t < 1 {
        1
    } else if t > 4 {
        4
    } else {
        t
    }
}

/// A resize to `cols` by `rows` with the file in view: the indent follows
/// the width, the width counted is at least the indent plus 2, and the file
/// and the state stay as they were.
pub open spec fn resized(a: &EditorData, b: &EditorData, cols: usize, rows: usize) -> bool {
    &&& b.indent == indent_for(cols as int)
    &&& b.dimensions == (
        if cols >= b.indent + 2 {
            cols
        } else {
            (b.indent + 2) as usize
        },
        rows,
    )
    &&& b.file == a.file
    &&& b.state == a.state
}

/// A new terminal size: the indent follows the width, and the width counted
/// is at least the indent plus 2, so that wrapped rows have room.
fn resize(editor_data: &mut EditorData, cols: usize, rows: usize)
    ensures
        final(editor_data).indent == indent_for(cols as int),
        final(editor_data).dimensions == (
            if cols >= final(editor_data).indent + 2 {
                cols
            } else {
                (final(editor_data).indent + 2) as usize
            },
            rows,
        ),
        final(editor_data).file == old(editor_data).file,
        final(editor_data).state == old(editor_data).state,
        final(editor_data).lib_data == old(editor_data).lib_data,
        final(editor_data).references == old(editor_data).references,
{
    let t = cols / 10;
    let indent: usize = if t < 1 {
        1
    } else if t > 4 {
        4
    } else {
        t
    };
    editor_data.indent = indent;
    editor_data.dimensions = (if cols >= indent + 2 { cols } else { indent + 2 }, rows);
}

/// What an event does while a file is edited. Arrows move the cursor, with
/// Shift they scroll; characters are inserted; Enter splits the line;
/// Backspace deletes; Tab starts entering a special character; Escape goes
/// back to the menu; Ctrl-C asks to exit.
pub fn handle_event_in_file_edition(event: Event, editor_data: &mut EditorData) -> (r: Redraw)
    ensures
        event == Event::KeyboardInterrupt ==> final(editor_data).state == EditorState::ShouldExit,
        event == Event::KeyPressedOther(Key::Escape, KeyModifiers::NoModifier) ==> final(editor_data).state
            == EditorState::InMenu && r == Redraw::Menu,
        event == Event::KeyPressedOther(Key::Tab, KeyModifiers::NoModifier) ==> final(editor_data).state
            == EditorState::InsertSpecialChar && final(editor_data).special_char_command@.len() == 0 && r
            == Redraw::CommandBar,
        forall|d: Direction|
            event == Event::KeyPressedArrow(d, KeyModifiers::NoModifier) && old(editor_data).wf() ==> {
                let lines = old(editor_data).file.lines@;
                let (cy, cx) = (old(editor_data).cy(), old(editor_data).cx());
                let cols = old(editor_data).dimensions.0 as int;
                let ind = old(editor_data).indent as int;
                let p = match d {
                    Direction::Up => spec_up(lines, cy, cx, cols, ind),
                    Direction::Down => spec_down(lines, cy, cx, cols, ind),
                    Direction::Left => spec_left(lines, cy, cx),
                    Direction::Right => spec_right(lines, cy, cx),
                };
                &&& final(editor_data).file.lines@ == lines
                &&& match p {
                    Some((y, x)) => final(editor_data).file.cursor.0 == y && final(editor_data).file.cursor.1 == x
                        && r == Redraw::File,
                    None => final(editor_data).file.cursor == old(editor_data).file.cursor && r == Redraw::Nothing,
                }
            },
        event == Event::KeyPressedOther(Key::Enter, KeyModifiers::NoModifier) && old(editor_data).file.wf() ==> {
            &&& final(editor_data).file.cursor == ((old(editor_data).cy() + 1) as usize, 1usize)
            &&& r == Redraw::File
            &&& lines_view(final(editor_data).file.lines@) == lines_after_newline(old(editor_data))
            &&& final(editor_data).state == old(editor_data).state
            &&& final(editor_data).file.cursor_in_bounds()
        },
        forall|c: char|
            event == Event::KeyPressedChar(c, KeyModifiers::NoModifier) ==> {
                let e = *final(editor_data);
                &&& lines_view(e.file.lines@) == lines_after_insert(old(editor_data), c)
                &&& e.state == old(editor_data).state
                &&& (e.file.cursor.0 as int, e.file.cursor.1 as int) == typed_cursor(
                    e.file.lines@,
                    old(editor_data).cy(),
                    old(editor_data).cx(),
                )
                &&& r == Redraw::File
                &&& old(editor_data).file.wf() ==> e.file.cursor_in_bounds()
            },
        event == Event::KeyPressedArrow(Direction::Up, KeyModifiers::Shift) ==> final(editor_data).file.camera
            == step_down_to_one(old(editor_data).file.camera),
        event == Event::KeyPressedArrow(Direction::Down, KeyModifiers::Shift) ==> final(editor_data).file.camera
            == step_up_to(old(editor_data).file.camera, old(editor_data).file.lines@.len()),
        event == Event::KeyPressedOther(Key::Backspace, KeyModifiers::NoModifier) && old(editor_data).file.wf() ==> {
            let e = *final(editor_data);
            &&& lines_view(e.file.lines@) == lines_after_delete(old(editor_data))
            &&& e.state == old(editor_data).state
            &&& (e.file.cursor.0 as int, e.file.cursor.1 as int) == deleted_cursor(
                e.file.lines@,
                old(editor_data).cy(),
                old(editor_data).cx(),
            )
            &&& r == Redraw::File
            &&& e.file.cursor_in_bounds()
        },
        forall|cols: usize, rows: usize|
            event == Event::WindowResize(cols, rows) ==> {
                let e = *final(editor_data);
                &&& resized(old(editor_data), &e, cols, rows)
                &&& r == Redraw::File
            },
{
    match event {
        Event::KeyboardInterrupt => {
            editor_data.state = EditorState::ShouldExit;
            Redraw::Nothing
        },
        Event::KeyPressedOther(Key::Escape, KeyModifiers::NoModifier) => {
            editor_data.state = EditorState::InMenu;
            Redraw::Menu
        },
        Event::KeyPressedArrow(direction, KeyModifiers::NoModifier) => {
            if !(file_is_wf(&editor_data.file) && editor_data.indent < editor_data.dimensions.0
                && editor_data.dimensions.0 - editor_data.indent >= 2) {
                return Redraw::Nothing;
            }
            let new_pos = match direction {
                Direction::Up => move_cursor_up(editor_data),
                Direction::Down => move_cursor_down(editor_data),
                Direction::Left => move_cursor_left(editor_data),
                Direction::Right => move_cursor_right(editor_data),
            };
            match new_pos {
                Some(pos) => {
                    editor_data.file.cursor = pos;
                    Redraw::File
                },
                None => Redraw::Nothing,
            }
        },
        Event::KeyPressedArrow(direction, KeyModifiers::Shift) => {
            let camera = editor_data.file.camera;
            let n = editor_data.file.lines.len();
            match direction {
                Direction::Up => {
                    editor_data.file.camera = if camera > 2 { camera - 1 } else { 1 };
                    Redraw::File
                },
                Direction::Down => {
                    editor_data.file.camera = if camera < n { camera + 1 } else { n };
                    Redraw::File
                },
                _ => Redraw::Nothing,
            }
        },
        Event::KeyPressedChar(c, KeyModifiers::NoModifier) => {
            let ghost before = *editor_data;
            insert_character(c, editor_data);
            proof {
                lemma_edit_keeps_lines(&before, c);
            }
            if cursor_is_ok(&editor_data.file) {
                if let Some(pos) = move_cursor_right(editor_data) {
                    editor_data.file.cursor = pos;
                }
            }
            clamp_cursor(&mut editor_data.file);
            Redraw::File
        },
        Event::KeyPressedOther(Key::Enter, KeyModifiers::NoModifier) => {
            if !file_is_wf(&editor_data.file) {
                return Redraw::Nothing;
            }
            let ghost before = *editor_data;
            insert_newline(editor_data);
            proof {
                lemma_newline_adds_line(&before);
            }
            let (cy, _) = editor_data.file.cursor;
            editor_data.file.cursor = (cy + 1, 1);
            Redraw::File
        },
        Event::KeyPressedOther(Key::Backspace, KeyModifiers::NoModifier) => {
            if !file_is_wf(&editor_data.file) {
                return Redraw::Nothing;
            }
            let ghost before = *editor_data;
            delete_character(editor_data);
            proof {
                lemma_delete_keeps_lines(&before);
            }
            if cursor_is_ok(&editor_data.file) {
                if let Some(pos) = move_cursor_left(editor_data) {
                    editor_data.file.cursor = pos;
                }
            }
            clamp_cursor(&mut editor_data.file);
            Redraw::File
        },
        Event::KeyPressedOther(Key::Tab, KeyModifiers::NoModifier) => {
            editor_data.special_char_command = Vec::new();
            editor_data.state = EditorState::InsertSpecialChar;
            Redraw::CommandBar
        },
        Event::WindowResize(cols, rows) => {
            resize(editor_data, cols, rows);
            Redraw::File
        },
        _ => Redraw::Nothing,
    }
}

/// What an event does in the file menu: arrows move the cursor, with Shift
/// they scroll; Enter opens the file under the cursor; Ctrl-C asks to exit.
pub fn handle_event_in_menu(event: Event, editor_data: &mut EditorData) -> (r: Redraw)
    ensures
        event == Event::KeyboardInterrupt ==> final(editor_data).state == EditorState::ShouldExit,
        r matches Redraw::OpenFile(i) ==> i < old(editor_data).menu.lines@.len()
            && old(editor_data).menu.lines@[i as int] is File,
        forall|cols: usize, rows: usize|
            event == Event::WindowResize(cols, rows) ==> final(editor_data).dimensions == (cols, rows)
                && final(editor_data).indent == old(editor_data).indent && r == Redraw::Menu,
        event == Event::KeyPressedOther(Key::Enter, KeyModifiers::NoModifier) ==> {
            let c = old(editor_data).menu.cursor as int;
            let ls = old(editor_data).menu.lines@;
            r == if 1 <= c <= ls.len() && ls[c - 1] is File {
                Redraw::OpenFile((c - 1) as usize)
            } else {
                Redraw::Nothing
            }
        },
        event == Event::KeyPressedArrow(Direction::Up, KeyModifiers::NoModifier) ==> final(editor_data).menu.cursor
            == (if old(editor_data).menu.cursor > 3 {
            old(editor_data).menu.cursor - 1
        } else {
            2
        }),
        event == Event::KeyPressedArrow(Direction::Down, KeyModifiers::NoModifier) ==> final(editor_data).menu.cursor
            == step_up_to(old(editor_data).menu.cursor, old(editor_data).menu.lines@.len()),
        event == Event::KeyPressedArrow(Direction::Up, KeyModifiers::Shift) ==> final(editor_data).menu.camera
            == step_down_to_one(old(editor_data).menu.camera),
        event == Event::KeyPressedArrow(Direction::Down, KeyModifiers::Shift) ==> final(editor_data).menu.camera
            == step_up_to(old(editor_data).menu.camera, old(editor_data).menu.lines@.len()),
        final(editor_data).file == old(editor_data).file,
{
    match event {
        Event::KeyboardInterrupt => {
            editor_data.state = EditorState::ShouldExit;
            Redraw::Nothing
        },
        Event::KeyPressedArrow(direction, KeyModifiers::NoModifier) => {
            let cursor = editor_data.menu.cursor;
            let n = editor_data.menu.lines.len();
            match direction {
                Direction::Up => {
                    editor_data.menu.cursor = if cursor > 3 { cursor - 1 } else { 2 };
                    Redraw::Menu
                },
                Direction::Down => {
                    editor_data.menu.cursor = if cursor < n { cursor + 1 } else { n };
                    Redraw::Menu
                },
                _ => Redraw::Nothing,
            }
        },
        Event::KeyPressedArrow(direction, KeyModifiers::Shift) => {
            let camera = editor_data.menu.camera;
            let n = editor_data.menu.lines.len();
            match direction {
                Direction::Up => {
                    editor_data.menu.camera = if camera > 2 { camera - 1 } else { 1 };
                    Redraw::Menu
                },
                Direction::Down => {
                    editor_data.menu.camera = if camera < n { camera + 1 } else { n };
                    Redraw::Menu
                },
                _ => Redraw::Nothing,
            }
        },
        Event::KeyPressedOther(Key::Enter, KeyModifiers::NoModifier) => {
            let cursor = editor_data.menu.cursor;
            if cursor >= 1 && cursor - 1 < editor_data.menu.lines.len() {
                if let MenuLine::File(_) = &editor_data.menu.lines[cursor - 1] {
                    return Redraw::OpenFile(cursor - 1);
                }
            }
            Redraw::Nothing
        },
        Event::WindowResize(cols, rows) => {
            editor_data.dimensions = (cols, rows);
            Redraw::Menu
        },
        _ => Redraw::Nothing,
    }
}

/// Opens a file in the editor from its lines of text, after `Redraw::OpenFile`.
pub fn open_file(editor_data: &mut EditorData, lines: Vec<Vec<char>>)
    ensures
        lines_view(final(editor_data).file.lines@) == spec_parse_file(
            text_view(lines@),
            old(editor_data).lib_data,
            old(editor_data).references,
        ),
        final(editor_data).file.cursor == (1usize, 1usize),
        final(editor_data).state == EditorState::EditingFile,
{
    let file = FileGraphics::from_lines(lines, &editor_data.lib_data, &editor_data.references);
    editor_data.file = file;
    editor_data.state = EditorState::EditingFile;
}

/// What an event does while a special character is typed in the command
/// bar: characters are collected, Backspace removes the last one, Enter goes
/// back to the file.
pub fn handle_event_in_char_insertion(event: Event, editor_data: &mut EditorData) -> (r: Redraw)
    ensures
        event == Event::KeyboardInterrupt ==> final(editor_data).state == EditorState::ShouldExit,
        event == Event::KeyPressedOther(Key::Enter, KeyModifiers::NoModifier) ==> final(editor_data).state
            == EditorState::EditingFile && r == Redraw::File,
        forall|c: char|
            event == Event::KeyPressedChar(c, KeyModifiers::NoModifier) ==> final(editor_data).special_char_command@
                == old(editor_data).special_char_command@.push(c),
        event == Event::KeyPressedOther(Key::Backspace, KeyModifiers::NoModifier) ==> final(editor_data).special_char_command@
            == (if old(editor_data).special_char_command@.len() == 0 {
            old(editor_data).special_char_command@
        } else {
            old(editor_data).special_char_command@.drop_last()
        }),
        final(editor_data).file == old(editor_data).file,
        forall|cols: usize, rows: usize|
            event == Event::WindowResize(cols, rows) ==> resized(old(editor_data), final(editor_data), cols, rows)
                && r == Redraw::FileAndCommandBar,
{
    match event {
        Event::KeyboardInterrupt => {
            editor_data.state = EditorState::ShouldExit;
            Redraw::Nothing
        },
        Event::KeyPressedOther(Key::Enter, KeyModifiers::NoModifier) => {
            editor_data.state = EditorState::EditingFile;
            Redraw::File
        },
        Event::KeyPressedChar(c, KeyModifiers::NoModifier) => {
            editor_data.special_char_command.push(c);
            Redraw::CommandBar
        },
        Event::KeyPressedOther(Key::Backspace, KeyModifiers::NoModifier) => {
            editor_data.special_char_command.pop();
            Redraw::CommandBar
        },
        Event::WindowResize(cols, rows) => {
            resize(editor_data, cols, rows);
            Redraw::FileAndCommandBar
        },
        _ => Redraw::Nothing,
    }
}

} // verus!
