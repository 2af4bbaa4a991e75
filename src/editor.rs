use vstd::prelude::*;
use crate::types::{
    Color, ColorInfo, LineContext, FileLine, LineView, no_color, fg, mono_line, mono_file_line, lines_view, text_view,
};
use crate::library::{SyntaxType, LibraryData, References};
use crate::formula::{parse_new_syntax, spec_parse_new_syntax, parse_formula, spec_parse_formula};
use crate::parser::{parse_file, spec_parse_file};
use crate::text::{copy_chars, slice_chars};

verus! {

/// The styled lines of an open file, with the cursor `(row, column)` counted
/// from 1 and the first visible row.
pub struct FileGraphics {
    pub cursor: (usize, usize),
    pub camera: usize,
    pub lines: Vec<FileLine>,
    pub read_only: bool,
}

impl FileGraphics {
    /// The cursor stands on a line, at most one past its last glyph.
    pub open spec fn cursor_in_bounds(&self) -> bool {
        &&& 1 <= self.cursor.0 <= self.lines@.len()
        &&& 1 <= self.cursor.1 <= self.lines@[self.cursor.0 - 1].chars@.len() + 1
    }

    /// No line is too long to count two past its end, nor the file to count
    /// one line more.
    pub open spec fn within_limits(&self) -> bool {
        &&& self.lines@.len() < usize::MAX
        &&& forall|i: int| 0 <= i < self.lines@.len() ==> (#[trigger] self.lines@[i]).chars@.len() + 1 < usize::MAX
    }

    /// The cursor is in bounds, within the machine's limits.
    pub open spec fn wf(&self) -> bool {
        &&& self.cursor_in_bounds()
        &&& self.within_limits()
    }

    /// What moving the cursor left or right needs: a cursor counted from 1
    /// that can move one column on, and lines short enough to measure.
    pub open spec fn cursor_ok(&self) -> bool {
        &&& 1 <= self.cursor.0 < usize::MAX
        &&& 1 <= self.cursor.1 < usize::MAX
        &&& forall|i: int| 0 <= i < self.lines@.len() ==> (#[trigger] self.lines@[i]).chars@.len() < usize::MAX
    }

    /// A file shown from its start, with the cursor on its first glyph.
    pub fn from_lines(lines: Vec<Vec<char>>, lib_data: &LibraryData, references: &References) -> (r: Self)
        ensures
            lines_view(r.lines@) == spec_parse_file(text_view(lines@), *lib_data, *references),
            r.cursor == (1usize, 1usize),
            r.camera == 1,
            !r.read_only,
    {
        FileGraphics { cursor: (1, 1), camera: 1, lines: parse_file(lines, lib_data, references), read_only: false }
    }
}

/// The line that `line_len` measures: its glyphs plus the slot after them,
/// or 1 when there is no such line.
pub open spec fn line_len(lines: Seq<FileLine>, n: int) -> int {
    if 1 <= n <= lines.len() {
        lines[n - 1].chars@.len() + 1int
    } else {
        1
    }
}

pub open spec fn sat_sub(a: int, b: int) -> int {
    if a > b {
        a - b
    } else {
        0
    }
}

pub open spec fn min_int(a: int, b: int) -> int {
    if a <= b {
        a
    } else {
        b
    }
}

pub open spec fn max_int(a: int, b: int) -> int {
    if a >= b {
        a
    } else {
        b
    }
}

/// The wrapped row of a column within its line.
pub open spec fn wrap_row(x: int, indent: int, period: int) -> int {
    sat_sub(x, indent + 1) / period
}

/// Cursor one row up on screen, keeping the visual column.
pub open spec fn spec_up(lines: Seq<FileLine>, cy: int, cx: int, cols: int, indent: int) -> Option<(int, int)> {
    let period = cols - indent - 1;
    if cy == 1 && cx == 1 {
        None
    } else if cy == 1 {
        Some((1, 1))
    } else if wrap_row(cx, indent, period) == 0 {
        let prev_len = line_len(lines, cy - 1);
        let prev_h = wrap_row(prev_len, indent, period);
        let x = if prev_h == 0 {
            cx
        } else {
            max_int(cx, indent + 1) + prev_h * period
        };
        Some((cy - 1, min_int(x, prev_len)))
    } else {
        Some((cy, cx - period))
    }
}

/// Cursor one row down on screen, keeping the visual column.
pub open spec fn spec_down(lines: Seq<FileLine>, cy: int, cx: int, cols: int, indent: int) -> Option<(int, int)> {
    let len = line_len(lines, cy);
    let n = lines.len() as int;
    let period = cols - indent - 1;
    if cy == n && cx == len {
        None
    } else if cy == n {
        Some((n, len))
    } else if wrap_row(cx, indent, period) == wrap_row(len, indent, period) {
        let x = cx - wrap_row(cx, indent, period) * period;
        Some((cy + 1, min_int(x, line_len(lines, cy + 1))))
    } else {
        Some((cy, min_int(max_int(cx, indent + 1) + period, len)))
    }
}

pub open spec fn spec_left(lines: Seq<FileLine>, cy: int, cx: int) -> Option<(int, int)> {
    if cy == 1 && cx == 1 {
        None
    } else if cx == 1 {
        Some((cy - 1, line_len(lines, cy - 1)))
    } else {
        Some((cy, cx - 1))
    }
}

pub open spec fn spec_right(lines: Seq<FileLine>, cy: int, cx: int) -> Option<(int, int)> {
    let len = line_len(lines, cy);
    if cy == lines.len() && cx == len {
        None
    } else if cx == len {
        Some((cy + 1, 1))
    } else {
        Some((cy, cx + 1))
    }
}

/// The nearest position in bounds: the row within the lines, the column
/// within that row and the slot after it. Without lines, `(y, x)` itself.
pub open spec fn clamp_pos(lines: Seq<FileLine>, y: int, x: int) -> (int, int) {
    let n = lines.len() as int;
    if n == 0 {
        (y, x)
    } else {
        let row = if y < 1 {
            1
        } else if y > n {
            n
        } else {
            y
        };
        let len = line_len(lines, row);
        (row, if x < 1 {
            1
        } else if x > len {
            len
        } else {
            x
        })
    }
}

pub open spec fn pos_view(p: Option<(usize, usize)>) -> Option<(int, int)> {
    match p {
        Some((a, b)) => Some((a as int, b as int)),
        None => None,
    }
}

} // verus!

verus! {

/// One entry of the file menu.
pub enum MenuLine {
    Text(Vec<char>),
    /// A file that can be opened, by its path.
    File(Vec<char>),
}

/// The file menu, with its cursor and first visible row, counted from 1.
pub struct MenuGraphics {
    pub cursor: usize,
    pub camera: usize,
    pub lines: Vec<MenuLine>,
}

/// What the editor is doing.
#[derive(Debug, PartialEq, Eq, Structural, Clone, Copy)]
pub enum EditorState {
    InMenu,
    EditingFile,
    InsertSpecialChar,
    ShouldExit,
}

/// Everything the editor knows.
pub struct EditorData {
    pub state: EditorState,
    pub menu: MenuGraphics,
    pub file: FileGraphics,
    pub special_char_command: Vec<char>,
    /// Columns and rows of the terminal.
    pub dimensions: (usize, usize),
    pub indent: usize,
    pub lib_data: LibraryData,
    pub references: References,
}

impl EditorData {
    /// The file's cursor is in bounds and the terminal is wide enough to wrap
    /// lines after the indent.
    pub open spec fn wf(&self) -> bool {
        &&& self.file.wf()
        &&& self.dimensions.0 >= self.indent + 2
    }

    pub open spec fn cy(&self) -> int {
        self.file.cursor.0 as int
    }

    pub open spec fn cx(&self) -> int {
        self.file.cursor.1 as int
    }

    /// An editor in its menu, on an 80 by 24 terminal, with no file open.
    pub fn new(menu: MenuGraphics, lib_data: LibraryData, references: References) -> (r: Self)
        ensures
            r.state == EditorState::InMenu,
            r.dimensions == (80usize, 24usize),
            r.indent == 4,
            r.file.lines@.len() == 0,
            r.special_char_command@.len() == 0,
    {
        EditorData {
            state: EditorState::InMenu,
            menu,
            file: FileGraphics { cursor: (1, 1), camera: 1, lines: Vec::new(), read_only: false },
            special_char_command: Vec::new(),
            dimensions: (80, 24),
            indent: 4,
            lib_data,
            references,
        }
    }
}

/// The length of line `index` plus one, or 1 when there is no such line.
fn get_len_of_file_line(editor_data: &EditorData, index: usize) -> (r: usize)
    requires
        index >= 1,
        forall|i: int|
            0 <= i < editor_data.file.lines@.len() ==> (#[trigger] editor_data.file.lines@[i]).chars@.len()
                < usize::MAX,
    ensures
        r == line_len(editor_data.file.lines@, index as int),
{
    if index - 1 < editor_data.file.lines.len() {
        editor_data.file.lines[index - 1].chars.len() + 1
    } else {
        1
    }
}

proof fn lemma_div_mul_le(a: int, p: int)
    requires
        a >= 0,
        p > 0,
    ensures
        (a / p) * p <= a,
        a / p >= 0,
{
    assert((a / p) * p <= a) by (nonlinear_arith)
        requires
            a >= 0,
            p > 0,
    ;
    assert(a / p >= 0) by (nonlinear_arith)
        requires
            a >= 0,
            p > 0,
    ;
}

/// `min(max(x, lo) + add, cap)`, without overflow.
fn capped_sum(x: usize, lo: usize, add: usize, cap: usize) -> (r: usize)
    ensures
        r == min_int(max_int(x as int, lo as int) + add, cap as int),
{
    let m = if x >= lo { x } else { lo };
    if m >= cap || cap - m <= add {
        cap
    } else {
        m + add
    }
}

/// The cursor one screen row up, if it can move.
pub fn move_cursor_up(editor_data: &EditorData) -> (r: Option<(usize, usize)>)
    requires
        editor_data.wf(),
    ensures
        pos_view(r) == spec_up(
            editor_data.file.lines@,
            editor_data.cy(),
            editor_data.cx(),
            editor_data.dimensions.0 as int,
            editor_data.indent as int,
        ),
{
    let (cy, cx) = editor_data.file.cursor;
    if cy == 1 && cx == 1 {
        return None;
    }
    if cy == 1 {
        return Some((1, 1));
    }
    let indent = editor_data.indent;
    let period = editor_data.dimensions.0 - indent - 1;
    let cursor_height = if cx > indent + 1 { cx - (indent + 1) } else { 0 } / period;
    if cursor_height == 0 {
        let prev_line_len = get_len_of_file_line(editor_data, cy - 1);
        let prev_line_height = if prev_line_len > indent + 1 { prev_line_len - (indent + 1) } else { 0 } / period;
        if prev_line_height == 0 {
            Some((cy - 1, if cx <= prev_line_len { cx } else { prev_line_len }))
        } else {
            proof {
                lemma_div_mul_le(sat_sub(prev_line_len as int, indent + 1), period as int);
            }
            let add = prev_line_height * period;
            Some((cy - 1, capped_sum(cx, indent + 1, add, prev_line_len)))
        }
    } else {
        proof {
            lemma_div_mul_le(sat_sub(cx as int, indent + 1), period as int);
            assert(cursor_height * period >= period) by (nonlinear_arith)
                requires
                    cursor_height >= 1,
                    period > 0,
            ;
        }
        Some((cy, cx - period))
    }
}

/// The cursor one screen row down, if it can move.
pub fn move_cursor_down(editor_data: &EditorData) -> (r: Option<(usize, usize)>)
    requires
        editor_data.wf(),
    ensures
        pos_view(r) == spec_down(
            editor_data.file.lines@,
            editor_data.cy(),
            editor_data.cx(),
            editor_data.dimensions.0 as int,
            editor_data.indent as int,
        ),
{
    let (cy, cx) = editor_data.file.cursor;
    let line_len = get_len_of_file_line(editor_data, cy);
    let file_len = editor_data.file.lines.len();
    if cy == file_len && cx == line_len {
        return None;
    }
    if cy == file_len {
        return Some((file_len, line_len));
    }
    let indent = editor_data.indent;
    let period = editor_data.dimensions.0 - indent - 1;
    let line_height = if line_len > indent + 1 { line_len - (indent + 1) } else { 0 } / period;
    let cursor_height = if cx > indent + 1 { cx - (indent + 1) } else { 0 } / period;
    proof {
        lemma_div_mul_le(sat_sub(cx as int, indent + 1), period as int);
    }
    if cursor_height == line_height {
        let next_line_len = get_len_of_file_line(editor_data, cy + 1);
        let x = cx - cursor_height * period;
        Some((cy + 1, if x <= next_line_len { x } else { next_line_len }))
    } else {
        Some((cy, capped_sum(cx, indent + 1, period, line_len)))
    }
}

/// The cursor one glyph left, onto the end of the previous line from the
/// first column.
pub fn move_cursor_left(editor_data: &EditorData) -> (r: Option<(usize, usize)>)
    requires
        editor_data.file.cursor_ok(),
    ensures
        pos_view(r) == spec_left(editor_data.file.lines@, editor_data.cy(), editor_data.cx()),
{
    let (cy, cx) = editor_data.file.cursor;
    if cy == 1 && cx == 1 {
        return None;
    }
    if cx == 1 {
        Some((cy - 1, get_len_of_file_line(editor_data, cy - 1)))
    } else {
        Some((cy, cx - 1))
    }
}

/// The cursor one glyph right, onto the start of the next line from the
/// slot after the last glyph.
pub fn move_cursor_right(editor_data: &EditorData) -> (r: Option<(usize, usize)>)
    requires
        editor_data.file.cursor_ok(),
    ensures
        pos_view(r) == spec_right(editor_data.file.lines@, editor_data.cy(), editor_data.cx()),
{
    let (cy, cx) = editor_data.file.cursor;
    let line_len = get_len_of_file_line(editor_data, cy);
    if cy == editor_data.file.lines.len() && cx == line_len {
        return None;
    }
    if cx == line_len {
        Some((cy + 1, 1))
    } else {
        Some((cy, cx + 1))
    }
}

} // verus!

verus! {

/// The glyphs of each line.
pub open spec fn chars_of(lines: Seq<LineView>) -> Seq<Seq<char>> {
    lines.map_values(|l: LineView| l.chars)
}

/// The line that a local reparse gives for an edited line, or `None` when
/// the line's role asks for the whole file to be parsed again.
pub open spec fn local_reparse(line: Seq<char>, ctx: LineContext, lib: LibraryData) -> Option<LineView> {
    match ctx {
        LineContext::Title | LineContext::Section | LineContext::Hypothesis | LineContext::ProofLine => None,
        LineContext::SyntaxDefinition => Some(spec_parse_new_syntax(line, SyntaxType::Formula).0),
        LineContext::AxiomHypothesis | LineContext::UnprovenAssertion | LineContext::AssumedAssertion => Some(
            spec_parse_formula(line, lib.syntax_views(), None, ctx),
        ),
        LineContext::Raw => Some(mono_line(ctx, line, no_color())),
        LineContext::UnexpectedLine => Some(mono_line(ctx, line, fg(Color::Red))),
    }
}

/// The lines after line `idx` (from 0) has become `line`.
pub open spec fn spec_update(
    lines: Seq<LineView>,
    idx: int,
    line: Seq<char>,
    ctx: LineContext,
    lib: LibraryData,
    refs: References,
) -> Seq<LineView> {
    match local_reparse(line, ctx, lib) {
        Some(l) => lines.update(idx, l),
        None => spec_parse_file(chars_of(lines).update(idx, line), lib, refs),
    }
}

/// `s` with `ch` inserted before position `c`, or at the end when `c` is past it.
pub open spec fn insert_at(s: Seq<char>, c: int, ch: char) -> Seq<char> {
    let k = min_int(c, s.len() as int);
    s.subrange(0, k) + seq![ch] + s.subrange(k, s.len() as int)
}

/// `s` without its glyph at position `c`, if it has one.
pub open spec fn remove_at(s: Seq<char>, c: int) -> Seq<char> {
    if 0 <= c < s.len() {
        s.subrange(0, c) + s.subrange(c + 1, s.len() as int)
    } else {
        s
    }
}

/// The editor's fields that edits of the buffer keep.
pub open spec fn same_setting(a: &EditorData, b: &EditorData) -> bool {
    &&& a.state == b.state
    &&& a.menu == b.menu
    &&& a.special_char_command == b.special_char_command
    &&& a.file.read_only == b.file.read_only
    &&& a.file.cursor == b.file.cursor
    &&& a.file.camera == b.file.camera
    &&& a.dimensions == b.dimensions
    &&& a.indent == b.indent
    &&& a.lib_data == b.lib_data
    &&& a.references == b.references
}

fn lines_chars(lines: &Vec<FileLine>) -> (r: Vec<Vec<char>>)
    ensures
        text_view(r@) == chars_of(lines_view(lines@)),
{
    let mut r: Vec<Vec<char>> = Vec::new();
    let mut i: usize = 0;
    while i < lines.len()
        invariant
            i <= lines@.len(),
            text_view(r@) =~= chars_of(lines_view(lines@)).subrange(0, i as int),
        decreases lines.len() - i,
    {
        let c = copy_chars(&lines[i].chars);
        let ghost cv = c@;
        r.push(c);
        assert(text_view(r@) =~= chars_of(lines_view(lines@)).subrange(0, i as int).push(cv));
        i += 1;
    }
    assert(chars_of(lines_view(lines@)).subrange(0, lines@.len() as int) =~= chars_of(lines_view(lines@)));
    r
}

fn reparse_all(editor_data: &mut EditorData, lines: Vec<Vec<char>>)
    ensures
        lines_view(final(editor_data).file.lines@) == spec_parse_file(
            text_view(lines@),
            old(editor_data).lib_data,
            old(editor_data).references,
        ),
        same_setting(old(editor_data), final(editor_data)),
{
    let parsed = parse_file(lines, &editor_data.lib_data, &editor_data.references);
    editor_data.file.lines = parsed;
}

/// Puts the edited line `line` in place of the cursor's line: reparsed alone
/// when its role allows, by reparsing the whole file otherwise.
fn update_file(line: Vec<char>, context: LineContext, editor_data: &mut EditorData)
    requires
        sat_sub(old(editor_data).cy(), 1) < old(editor_data).file.lines@.len(),
    ensures
        lines_view(final(editor_data).file.lines@) == spec_update(
            lines_view(old(editor_data).file.lines@),
            sat_sub(old(editor_data).cy(), 1),
            line@,
            context,
            old(editor_data).lib_data,
            old(editor_data).references,
        ),
        same_setting(old(editor_data), final(editor_data)),
{
    let cy = editor_data.file.cursor.0;
    let l_index: usize = if cy >= 1 { cy - 1 } else { 0 };
    let ghost old_lines = lines_view(editor_data.file.lines@);
    let fl = match context {
        LineContext::Title | LineContext::Section | LineContext::Hypothesis | LineContext::ProofLine => {
            let ghost lv = line@;
            let mut all = lines_chars(&editor_data.file.lines);
            assert(all@.len() == text_view(all@).len());
            all.set(l_index, line);
            assert(text_view(all@) =~= chars_of(old_lines).update(l_index as int, lv));
            reparse_all(editor_data, all);
            return ;
        },
        LineContext::SyntaxDefinition => {
            let (file_line, _) = parse_new_syntax(line, SyntaxType::Formula);
            file_line
        },
        LineContext::AxiomHypothesis | LineContext::UnprovenAssertion | LineContext::AssumedAssertion => {
            parse_formula(line, &editor_data.lib_data, None, context)
        },
        LineContext::Raw => mono_file_line(context, line, ColorInfo::no_color()),
        LineContext::UnexpectedLine => mono_file_line(context, line, ColorInfo::fg_color(Color::Red)),
    };
    let ghost fv = fl@;
    editor_data.file.lines.set(l_index, fl);
    assert(lines_view(editor_data.file.lines@) =~= old_lines.update(l_index as int, fv));
}

} // verus!

verus! {

/// The lines after `ch` is typed at the cursor; unchanged when the cursor is
/// on no line.
pub open spec fn lines_after_insert(e: &EditorData, ch: char) -> Seq<LineView> {
    let lines = lines_view(e.file.lines@);
    let idx = sat_sub(e.cy(), 1);
    let c = sat_sub(e.cx(), 1);
    if idx < lines.len() {
        spec_update(lines, idx, insert_at(lines[idx].chars, c, ch), lines[idx].context, e.lib_data, e.references)
    } else {
        lines
    }
}

/// Inserts `ch` at the cursor; nothing happens when the cursor is on no line.
pub fn insert_character(ch: char, editor_data: &mut EditorData)
    ensures
        lines_view(final(editor_data).file.lines@) == lines_after_insert(old(editor_data), ch),
        same_setting(old(editor_data), final(editor_data)),
{
    let (cy, cx) = editor_data.file.cursor;
    let l_index: usize = if cy >= 1 { cy - 1 } else { 0 };
    let c_index: usize = if cx >= 1 { cx - 1 } else { 0 };
    if l_index >= editor_data.file.lines.len() {
        return;
    }
    let current = &editor_data.file.lines[l_index];
    let n = current.chars.len();
    let k = if c_index <= n { c_index } else { n };
    let mut new_line = slice_chars(&current.chars, 0, k);
    new_line.push(ch);
    let rest = slice_chars(&current.chars, k, n);
    crate::formula::extend_copy(&mut new_line, &rest);
    let context = current.context;
    proof {
        let lines = lines_view(editor_data.file.lines@);
        assert(new_line@ =~= insert_at(lines[l_index as int].chars, c_index as int, ch));
    }
    update_file(new_line, context, editor_data);
}

} // verus!

verus! {

/// The glyphs of the lines after the cursor's line is split at the cursor.
pub open spec fn split_line_at(lines: Seq<Seq<char>>, idx: int, c: int) -> Seq<Seq<char>> {
    lines.subrange(0, idx) + seq![lines[idx].subrange(0, c), lines[idx].subrange(c, lines[idx].len() as int)]
        + lines.subrange(idx + 1, lines.len() as int)
}

/// The glyphs of the lines after line `idx` is joined onto line `idx - 1`.
pub open spec fn join_line(lines: Seq<Seq<char>>, idx: int) -> Seq<Seq<char>> {
    lines.subrange(0, idx - 1) + seq![lines[idx - 1] + lines[idx]] + lines.subrange(idx + 1, lines.len() as int)
}

/// Splits the cursor's line at the cursor and parses the whole file again.
pub fn insert_newline(editor_data: &mut EditorData)
    requires
        old(editor_data).file.wf(),
    ensures
        lines_view(final(editor_data).file.lines@) == lines_after_newline(old(editor_data)),
        same_setting(old(editor_data), final(editor_data)),
{
    let (cy, cx) = editor_data.file.cursor;
    let l_index = cy - 1;
    let c_index = cx - 1;
    let ghost cl = chars_of(lines_view(editor_data.file.lines@));
    let mut all = lines_chars(&editor_data.file.lines);
    assert(all@.len() == text_view(all@).len());
    assert(all@[l_index as int]@ == text_view(all@)[l_index as int]);
    assert(cl[l_index as int] == editor_data.file.lines@[l_index as int].chars@);
    let n = all[l_index].len();
    let first = slice_chars(&all[l_index], 0, c_index);
    let second = slice_chars(&all[l_index], c_index, n);
    let ghost fv = first@;
    let ghost sv = second@;
    all.set(l_index, first);
    all.insert(l_index + 1, second);
    assert(text_view(all@) =~= split_line_at(cl, l_index as int, c_index as int));
    reparse_all(editor_data, all);
}

/// Joins the cursor's line onto the previous one and parses the whole file again.
fn delete_newline(editor_data: &mut EditorData)
    requires
        2 <= old(editor_data).file.cursor.0 <= old(editor_data).file.lines@.len(),
    ensures
        lines_view(final(editor_data).file.lines@) == spec_parse_file(
            join_line(chars_of(lines_view(old(editor_data).file.lines@)), old(editor_data).cy() - 1),
            old(editor_data).lib_data,
            old(editor_data).references,
        ),
        same_setting(old(editor_data), final(editor_data)),
{
    let l_index = editor_data.file.cursor.0 - 1;
    let ghost cl = chars_of(lines_view(editor_data.file.lines@));
    let mut all = lines_chars(&editor_data.file.lines);
    assert(all@.len() == text_view(all@).len());
    let second = all.remove(l_index);
    let mut combined = copy_chars(&all[l_index - 1]);
    crate::formula::extend_copy(&mut combined, &second);
    all.set(l_index - 1, combined);
    assert(text_view(all@) =~= join_line(cl, l_index as int));
    reparse_all(editor_data, all);
}

/// The lines after Backspace: the glyph before the cursor goes; from the
/// first column the line joins the previous one; at the start of the file
/// nothing changes.
pub open spec fn lines_after_delete(e: &EditorData) -> Seq<LineView> {
    let lines = lines_view(e.file.lines@);
    let cy = e.cy();
    let cx = e.cx();
    if cx == 1 && cy == 1 {
        lines
    } else if cx == 1 {
        spec_parse_file(join_line(chars_of(lines), cy - 1), e.lib_data, e.references)
    } else {
        spec_update(lines, cy - 1, remove_at(lines[cy - 1].chars, cx - 2), lines[cy - 1].context, e.lib_data, e.references)
    }
}

/// The lines after Enter splits the cursor's line at the cursor.
pub open spec fn lines_after_newline(e: &EditorData) -> Seq<LineView> {
    spec_parse_file(split_line_at(chars_of(lines_view(e.file.lines@)), e.cy() - 1, e.cx() - 1), e.lib_data, e.references)
}

/// Deletes the glyph before the cursor. From the first column it joins the
/// line onto the previous one; at the start of the file there is nothing to
/// delete.
pub fn delete_character(editor_data: &mut EditorData)
    requires
        old(editor_data).file.wf(),
    ensures
        lines_view(final(editor_data).file.lines@) == lines_after_delete(old(editor_data)),
        same_setting(old(editor_data), final(editor_data)),
{
    let (cy, cx) = editor_data.file.cursor;
    if cx == 1 {
        if cy == 1 {
            return;
        }
        delete_newline(editor_data);
        return;
    }
    let l_index = cy - 1;
    let c_index = cx - 1;
    let current = &editor_data.file.lines[l_index];
    let n = current.chars.len();
    let k = c_index - 1;
    let mut new_line = slice_chars(&current.chars, 0, k);
    if k < n {
        let rest = slice_chars(&current.chars, k + 1, n);
        crate::formula::extend_copy(&mut new_line, &rest);
    }
    let context = current.context;
    proof {
        let lines = lines_view(editor_data.file.lines@);
        assert(new_line@ =~= remove_at(lines[l_index as int].chars, k as int));
    }
    update_file(new_line, context, editor_data);
}

} // verus!
