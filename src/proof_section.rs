use vstd::prelude::*;
use crate::types::{
    Color, ColorInfo, LineContext, FileLine, LineView, no_color, fg, lines_view, all_wf, text_view,
};
use crate::library::{LibraryData, Reference, References, lookup_ref};
use crate::formula::{parse_formula, spec_parse_formula, spaces, no_colors, push_repeated, extend_copy};
use crate::sections::{header_line, header_file_line, push_line};
use crate::text::{
    trim, lead_ws, trail_ws, parse_nat, find_first, before_first, after_first, ws_margins, trim_chars,
    parse_usize, find_char, slice_chars, copy_chars, chars_eq, chars_eq_str, lemma_find_from_bounds,
};

verus! {

/// The four `;`-separated columns of a proof line, each trimmed: line
/// number, used hypotheses, reference, formula. Missing columns are empty;
/// the formula column holds the whole rest of the line.
pub open spec fn proof_columns(line: Seq<char>) -> (Seq<char>, Seq<char>, Seq<char>, Seq<char>) {
    let r1 = after_first(line, ';');
    let r2 = match r1 {
        Some(r) => after_first(r, ';'),
        None => None,
    };
    let r3 = match r2 {
        Some(r) => after_first(r, ';'),
        None => None,
    };
    (
        trim(before_first(line, ';')),
        match r1 {
            Some(r) => trim(before_first(r, ';')),
            None => Seq::empty(),
        },
        match r2 {
            Some(r) => trim(before_first(r, ';')),
            None => Seq::empty(),
        },
        match r3 {
            Some(r) => trim(r),
            None => Seq::empty(),
        },
    )
}

/// One item of the used-hypotheses list, its glyphs kept as typed: the
/// number is unstyled when it names an earlier line, red otherwise, and the
/// white space around it is unstyled.
pub open spec fn used_item(p: Seq<char>, line_num: nat) -> (Seq<char>, Seq<ColorInfo>) {
    let t = trim(p);
    let c = match parse_nat(t) {
        Some(n) => if n < line_num {
            no_color()
        } else {
            fg(Color::Red)
        },
        None => fg(Color::Red),
    };
    (p, no_colors(lead_ws(p)) + Seq::new(t.len(), |i: int| c) + no_colors(trail_ws(p)))
}

/// The comma-separated used-hypotheses list, item by item.
pub open spec fn used_items(s: Seq<char>, line_num: nat) -> (Seq<char>, Seq<ColorInfo>)
    decreases s.len(),
{
    match find_first(s, ',') {
        Some(i) => if 0 <= i < s.len() {
            let (c1, k1) = used_item(s.subrange(0, i), line_num);
            let (c2, k2) = used_items(s.subrange(i + 1, s.len() as int), line_num);
            (c1 + seq![','] + c2, k1 + seq![no_color()] + k2)
        } else {
            (s, no_colors(s.len()))
        },
        None => used_item(s, line_num),
    }
}

/// The used-hypotheses column: unstyled as it is when the line number does
/// not parse, item by item otherwise.
pub open spec fn used_column(used: Seq<char>, line_no: Seq<char>) -> (Seq<char>, Seq<ColorInfo>) {
    match parse_nat(line_no) {
        Some(n) => used_items(used, n),
        None => (used, no_colors(used.len())),
    }
}

/// Whether a proof line may cite `theo`: a hypothesis of this theorem, or a
/// library name with an optional `.n` (`n` from 1): 1 for a definition, up
/// to the number of assertions for an axiom or a theorem.
pub open spec fn theo_valid(theo: Seq<char>, names: Seq<Seq<char>>, lib: LibraryData, refs: References) -> bool {
    if names.contains(theo) {
        true
    } else {
        let (name, sub) = match find_first(theo, '.') {
            Some(i) => (theo.subrange(0, i), parse_nat(theo.subrange(i + 1, theo.len() as int))),
            None => (theo, Some(1nat)),
        };
        match sub {
            None => false,
            Some(k) => k != 0 && match refs.spec_get(name) {
                Some(Reference::DefinitionReference(_)) => k == 1,
                Some(Reference::AxiomReference(a, _)) => a < lib.axioms@.len() && k
                    <= lib.axioms@[a as int].assertions@.len(),
                Some(Reference::TheoremReference(t, _)) => t < lib.theorems@.len() && k
                    <= lib.theorems@[t as int].assertions@.len(),
                None => false,
            },
        }
    }
}

/// A proof line before its columns are padded.
pub struct ProofRow {
    pub line_no: Seq<char>,
    pub line_no_color: ColorInfo,
    pub used: Seq<char>,
    pub used_colors: Seq<ColorInfo>,
    pub theo: Seq<char>,
    pub theo_color: ColorInfo,
    pub formula: LineView,
}

/// Proof line `i` (from 0): its number must read `i + 1`.
pub open spec fn proof_row(line: Seq<char>, i: int, names: Seq<Seq<char>>, lib: LibraryData, refs: References) -> ProofRow {
    let (ln, used, theo, form) = proof_columns(line);
    let (uc, ucol) = used_column(used, ln);
    ProofRow {
        line_no: ln,
        line_no_color: if parse_nat(ln) == Some((i + 1) as nat) {
            no_color()
        } else {
            fg(Color::Red)
        },
        used: uc,
        used_colors: ucol,
        theo,
        theo_color: if theo_valid(theo, names, lib, refs) {
            no_color()
        } else {
            fg(Color::Red)
        },
        formula: spec_parse_formula(form, lib.syntax_views(), None, LineContext::ProofLine),
    }
}

pub open spec fn max_nat(a: nat, b: nat) -> nat {
    if a >= b {
        a
    } else {
        b
    }
}

/// The width of column `col` (0, 1 or 2) over the lines: the longest entry,
/// and at least 2.
pub open spec fn column_width(body: Seq<Seq<char>>, col: int) -> nat
    decreases body.len(),
{
    if body.len() == 0 {
        2
    } else {
        let (ln, used, theo, _) = proof_columns(body.last());
        let w = if col == 0 {
            ln.len()
        } else if col == 1 {
            used.len()
        } else {
            theo.len()
        };
        max_nat(column_width(body.drop_last(), col), w)
    }
}

/// `s` followed by spaces up to `w` glyphs.
pub open spec fn padded(s: Seq<char>, w: nat) -> Seq<char> {
    s + spaces(if w > s.len() {
        (w - s.len()) as nat
    } else {
        0
    })
}

pub open spec fn separator() -> Seq<char> {
    seq![' ', ';', ' ']
}

/// The final proof line: padded columns joined by ` ; `, then the formula.
pub open spec fn render_row(row: ProofRow, w0: nat, w1: nat, w2: nat) -> LineView {
    let ln = padded(row.line_no, w0);
    let used = padded(row.used, w1);
    let theo = padded(row.theo, w2);
    LineView {
        context: row.formula.context,
        chars: ln + separator() + used + separator() + theo + separator() + row.formula.chars,
        colors: Seq::new(ln.len(), |j: int| row.line_no_color) + no_colors(3) + row.used_colors + no_colors(
            (used.len() - row.used.len()) as nat,
        ) + no_colors(3) + Seq::new(theo.len(), |j: int| row.theo_color) + no_colors(3) + row.formula.colors,
    }
}

/// A proof section: the header `# Proof`, then each line in columns that are
/// padded to the widest entry of the section.
pub open spec fn spec_proof_section(
    section: Seq<Seq<char>>,
    lib: LibraryData,
    refs: References,
    names: Seq<Seq<char>>,
) -> Seq<LineView> {
    if section.len() == 0 {
        Seq::empty()
    } else {
        let body = section.subrange(1, section.len() as int);
        let w0 = column_width(body, 0);
        let w1 = column_width(body, 1);
        let w2 = column_width(body, 2);
        seq![header_line(section[0], section[0] == "# Proof"@)] + Seq::new(
            body.len(),
            |i: int| render_row(proof_row(body[i], i, names, lib, refs), w0, w1, w2),
        )
    }
}

} // verus!

verus! {

pub open spec fn opt_chars(o: Option<Vec<char>>) -> Option<Seq<char>> {
    match o {
        Some(v) => Some(v@),
        None => None,
    }
}

/// Splits `s` at the first `c`.
fn split_first(s: &Vec<char>, c: char) -> (r: (Vec<char>, Option<Vec<char>>))
    ensures
        r.0@ == before_first(s@, c),
        opt_chars(r.1) == after_first(s@, c),
{
    match find_char(s, c) {
        Some(i) => {
            proof {
                lemma_find_from_bounds(s@, c, 0);
            }
            let n = s.len();
            (slice_chars(s, 0, i), Some(slice_chars(s, i + 1, n)))
        },
        None => (copy_chars(s), None),
    }
}

fn proof_columns_exec(line: &Vec<char>) -> (r: (Vec<char>, Vec<char>, Vec<char>, Vec<char>))
    ensures
        (r.0@, r.1@, r.2@, r.3@) == proof_columns(line@),
{
    let (part1, r1) = split_first(line, ';');
    let line_no = trim_chars(&part1);
    let (used, theo, formula) = match r1 {
        None => (Vec::new(), Vec::new(), Vec::new()),
        Some(rest1) => {
            let (part2, r2) = split_first(&rest1, ';');
            let used = trim_chars(&part2);
            match r2 {
                None => (used, Vec::new(), Vec::new()),
                Some(rest2) => {
                    let (part3, r3) = split_first(&rest2, ';');
                    let theo = trim_chars(&part3);
                    match r3 {
                        None => (used, theo, Vec::new()),
                        Some(rest3) => (used, theo, trim_chars(&rest3)),
                    }
                },
            }
        },
    };
    (line_no, used, theo, formula)
}

fn used_item_exec(p: &Vec<char>, line_num: usize, chars: &mut Vec<char>, colors: &mut Vec<ColorInfo>)
    ensures
        final(chars)@ == old(chars)@ + used_item(p@, line_num as nat).0,
        final(colors)@ == old(colors)@ + used_item(p@, line_num as nat).1,
{
    let (a, t) = ws_margins(p);
    let n = p.len();
    let item = slice_chars(p, a, n - t);
    let c = match parse_usize(&item) {
        Some(k) => if k < line_num {
            ColorInfo::no_color()
        } else {
            ColorInfo::fg_color(Color::Red)
        },
        None => ColorInfo::fg_color(Color::Red),
    };
    extend_copy(chars, p);
    push_repeated(colors, ColorInfo::no_color(), a);
    push_repeated(colors, c, item.len());
    push_repeated(colors, ColorInfo::no_color(), t);
    proof {
        let (c1, k1) = used_item(p@, line_num as nat);
        assert(final(chars)@ =~= old(chars)@ + c1);
        assert(final(colors)@ =~= old(colors)@ + k1);
    }
}

/// Styles the used-hypotheses column of a proof line whose number column
/// is `line_no`.
fn parse_used_hypots(used: &Vec<char>, line_no: &Vec<char>) -> (r: (Vec<char>, Vec<ColorInfo>))
    ensures
        (r.0@, r.1@) == used_column(used@, line_no@),
{
    let line_num = match parse_usize(line_no) {
        Some(n) => n,
        None => {
            let mut colors: Vec<ColorInfo> = Vec::new();
            push_repeated(&mut colors, ColorInfo::no_color(), used.len());
            return (copy_chars(used), colors);
        },
    };
    let mut chars: Vec<char> = Vec::new();
    let mut colors: Vec<ColorInfo> = Vec::new();
    let mut rest = copy_chars(used);
    loop
        invariant
            parse_nat(line_no@) == Some(line_num as nat),
            ({
                let (rc, rk) = used_items(rest@, line_num as nat);
                &&& chars@ + rc == used_items(used@, line_num as nat).0
                &&& colors@ + rk == used_items(used@, line_num as nat).1
            }),
        decreases rest@.len(),
    {
        match find_char(&rest, ',') {
            None => {
                assert(used_items(rest@, line_num as nat) == used_item(rest@, line_num as nat));
                let ghost pc = chars@;
                let ghost pk = colors@;
                used_item_exec(&rest, line_num, &mut chars, &mut colors);
                assert(chars@ == pc + used_item(rest@, line_num as nat).0);
                assert(colors@ == pk + used_item(rest@, line_num as nat).1);
                return (chars, colors);
            },
            Some(i) => {
                proof {
                    lemma_find_from_bounds(rest@, ',', 0);
                }
                let head = slice_chars(&rest, 0, i);
                let n = rest.len();
                let tail = slice_chars(&rest, i + 1, n);
                let ghost (c1, k1) = used_item(head@, line_num as nat);
                let ghost (c2, k2) = used_items(tail@, line_num as nat);
                assert(used_items(rest@, line_num as nat) == (c1 + seq![','] + c2, k1 + seq![no_color()] + k2));
                let ghost pc = chars@;
                let ghost pk = colors@;
                used_item_exec(&head, line_num, &mut chars, &mut colors);
                chars.push(',');
                colors.push(ColorInfo::no_color());
                assert(chars@ + c2 =~= pc + (c1 + seq![','] + c2));
                assert(colors@ + k2 =~= pk + (k1 + seq![no_color()] + k2));
                rest = tail;
            },
        }
    }
}

/// The reference of `name`, if any.
fn lookup(refs: &References, name: &Vec<char>) -> (r: Option<Reference>)
    ensures
        r == refs.spec_get(name@),
{
    let ghost ev = refs.entries_view();
    assert(ev.subrange(0, ev.len() as int) =~= ev);
    let mut i: usize = 0;
    while i < refs.entries.len()
        invariant
            i <= refs.entries@.len(),
            ev == refs.entries_view(),
            ev.len() == refs.entries@.len(),
            lookup_ref(ev, name@) == lookup_ref(ev.subrange(i as int, ev.len() as int), name@),
        decreases refs.entries.len() - i,
    {
        let ghost rest = ev.subrange(i as int, ev.len() as int);
        assert(rest.drop_first() =~= ev.subrange(i + 1, ev.len() as int));
        assert(rest[0] == ev[i as int]);
        if chars_eq(&refs.entries[i].0, name) {
            return Some(refs.entries[i].1);
        }
        i += 1;
    }
    None
}

fn contains_name(names: &Vec<Vec<char>>, theo: &Vec<char>) -> (r: bool)
    ensures
        r == text_view(names@).contains(theo@),
{
    let ghost nv = text_view(names@);
    let mut i: usize = 0;
    while i < names.len()
        invariant
            i <= names@.len(),
            nv == text_view(names@),
            forall|j: int| 0 <= j < i ==> nv[j] != theo@,
        decreases names.len() - i,
    {
        if chars_eq(&names[i], theo) {
            assert(nv[i as int] == theo@);
            return true;
        }
        i += 1;
    }
    false
}

/// Whether a proof line may cite `theo_ref`.
fn theo_is_valid(theo_ref: &Vec<char>, hypot_names: &Vec<Vec<char>>, lib_data: &LibraryData, references: &References) -> (r:
    bool)
    ensures
        r == theo_valid(theo_ref@, text_view(hypot_names@), *lib_data, *references),
{
    if contains_name(hypot_names, theo_ref) {
        return true;
    }
    let (name, sub_id) = match find_char(theo_ref, '.') {
        Some(i) => {
            proof {
                lemma_find_from_bounds(theo_ref@, '.', 0);
            }
            let n = theo_ref.len();
            let num = slice_chars(theo_ref, i + 1, n);
            match parse_usize(&num) {
                Some(k) => (slice_chars(theo_ref, 0, i), k),
                None => {
                    return false;
                },
            }
        },
        None => (copy_chars(theo_ref), 1),
    };
    if sub_id == 0 {
        return false;
    }
    match lookup(references, &name) {
        Some(Reference::DefinitionReference(_)) => sub_id == 1,
        Some(Reference::AxiomReference(id, _)) => id < lib_data.axioms.len() && sub_id
            <= lib_data.axioms[id].assertions.len(),
        Some(Reference::TheoremReference(id, _)) => id < lib_data.theorems.len() && sub_id
            <= lib_data.theorems[id].assertions.len(),
        None => false,
    }
}

} // verus!

verus! {

/// The styled used-hypotheses list shows the list as typed, one style per glyph.
proof fn lemma_used_items_shape(s: Seq<char>, n: nat)
    ensures
        used_items(s, n).0 == s,
        used_items(s, n).1.len() == s.len(),
    decreases s.len(),
{
    match find_first(s, ',') {
        Some(i) => if 0 <= i < s.len() {
            crate::text::lemma_trim_props(s.subrange(0, i));
            lemma_find_from_bounds(s, ',', 0);
            lemma_used_items_shape(s.subrange(i + 1, s.len() as int), n);
            assert(s =~= s.subrange(0, i) + seq![','] + s.subrange(i + 1, s.len() as int));
        },
        None => {
            crate::text::lemma_trim_props(s);
        },
    }
}

struct Row {
    line_no: Vec<char>,
    line_no_color: ColorInfo,
    used: Vec<char>,
    used_colors: Vec<ColorInfo>,
    theo: Vec<char>,
    theo_color: ColorInfo,
    formula: FileLine,
}

impl View for Row {
    type V = ProofRow;

    closed spec fn view(&self) -> ProofRow {
        ProofRow {
            line_no: self.line_no@,
            line_no_color: self.line_no_color,
            used: self.used@,
            used_colors: self.used_colors@,
            theo: self.theo@,
            theo_color: self.theo_color,
            formula: self.formula@,
        }
    }
}

spec fn row_wf(r: ProofRow) -> bool {
    r.used.len() == r.used_colors.len() && r.formula.wf()
}

fn render_row_exec(row: Row, w0: usize, w1: usize, w2: usize) -> (r: FileLine)
    requires
        row_wf(row@),
    ensures
        r@ == render_row(row@, w0 as nat, w1 as nat, w2 as nat),
        r@.wf(),
{
    let ghost rv = row@;
    let Row { line_no, line_no_color, used, used_colors, theo, theo_color, formula } = row;
    let FileLine { context, chars: fchars, colors: fcolors } = formula;
    let mut chars: Vec<char> = Vec::new();
    let mut colors: Vec<ColorInfo> = Vec::new();
    let pad0: usize = if w0 > line_no.len() { w0 - line_no.len() } else { 0 };
    extend_copy(&mut chars, &line_no);
    push_repeated(&mut chars, ' ', pad0);
    push_repeated(&mut colors, line_no_color, line_no.len() + pad0);
    push_repeated(&mut chars, ' ', 1);
    chars.push(';');
    chars.push(' ');
    push_repeated(&mut colors, ColorInfo::no_color(), 3);
    let pad1: usize = if w1 > used.len() { w1 - used.len() } else { 0 };
    extend_copy(&mut chars, &used);
    push_repeated(&mut chars, ' ', pad1);
    extend_copy(&mut colors, &used_colors);
    push_repeated(&mut colors, ColorInfo::no_color(), pad1);
    push_repeated(&mut chars, ' ', 1);
    chars.push(';');
    chars.push(' ');
    push_repeated(&mut colors, ColorInfo::no_color(), 3);
    let pad2: usize = if w2 > theo.len() { w2 - theo.len() } else { 0 };
    extend_copy(&mut chars, &theo);
    push_repeated(&mut chars, ' ', pad2);
    push_repeated(&mut colors, theo_color, theo.len() + pad2);
    push_repeated(&mut chars, ' ', 1);
    chars.push(';');
    chars.push(' ');
    push_repeated(&mut colors, ColorInfo::no_color(), 3);
    extend_copy(&mut chars, &fchars);
    extend_copy(&mut colors, &fcolors);
    proof {
        let ln = padded(rv.line_no, w0 as nat);
        let us = padded(rv.used, w1 as nat);
        let th = padded(rv.theo, w2 as nat);
        assert(spaces(1) + seq![';', ' '] =~= separator());
        assert(chars@ =~= ln + separator() + us + separator() + th + separator() + rv.formula.chars);
        assert(colors@ =~= Seq::new(ln.len(), |j: int| rv.line_no_color) + no_colors(3) + rv.used_colors
            + no_colors((us.len() - rv.used.len()) as nat) + no_colors(3) + Seq::new(
            th.len(),
            |j: int| rv.theo_color,
        ) + no_colors(3) + rv.formula.colors);
    }
    FileLine { context, chars, colors }
}

/// A proof section: the header `# Proof`, then each line `number ; used
/// hypotheses ; reference ; formula`, checked column by column and padded
/// to the widest entry of each column.
pub fn parse_proof_section(
    section: Vec<Vec<char>>,
    lib_data: &LibraryData,
    references: &References,
    hypot_names: Vec<Vec<char>>,
) -> (r: Vec<FileLine>)
    ensures
        lines_view(r@) == spec_proof_section(text_view(section@), *lib_data, *references, text_view(hypot_names@)),
        all_wf(lines_view(r@)),
{
    let ghost sv = text_view(section@);
    let ghost names = text_view(hypot_names@);
    let mut result: Vec<FileLine> = Vec::new();
    if section.len() == 0 {
        assert(lines_view(result@) =~= Seq::<LineView>::empty());
        return result;
    }
    let valid = chars_eq_str(&section[0], "# Proof");
    push_line(&mut result, header_file_line(&section[0], valid));
    let ghost body = sv.subrange(1, sv.len() as int);
    let mut rows: Vec<Row> = Vec::new();
    let mut w0: usize = 2;
    let mut w1: usize = 2;
    let mut w2: usize = 2;
    let mut i: usize = 1;
    assert(body.subrange(0, 0).len() == 0);
    while i < section.len()
        invariant
            1 <= i <= section@.len(),
            sv == text_view(section@),
            names == text_view(hypot_names@),
            body == sv.subrange(1, sv.len() as int),
            rows@.len() == i - 1,
            forall|j: int|
                0 <= j < i - 1 ==> (#[trigger] rows@[j])@ == proof_row(body[j], j, names, *lib_data, *references)
                    && row_wf(rows@[j]@),
            w0 == column_width(body.subrange(0, i - 1), 0),
            w1 == column_width(body.subrange(0, i - 1), 1),
            w2 == column_width(body.subrange(0, i - 1), 2),
        decreases section.len() - i,
    {
        let (line_no, used, theo, form) = proof_columns_exec(&section[i]);
        assert(body[i - 1] == section@[i as int]@);
        let line_no_color = match parse_usize(&line_no) {
            Some(n) => if n == i {
                ColorInfo::no_color()
            } else {
                ColorInfo::fg_color(Color::Red)
            },
            None => ColorInfo::fg_color(Color::Red),
        };
        let (uc, ucol) = parse_used_hypots(&used, &line_no);
        proof {
            lemma_used_items_shape(used@, parse_nat(line_no@)->Some_0);
        }
        let theo_ok = theo_is_valid(&theo, &hypot_names, lib_data, references);
        let theo_color = if theo_ok {
            ColorInfo::no_color()
        } else {
            ColorInfo::fg_color(Color::Red)
        };
        let ghost prefix = body.subrange(0, i as int);
        assert(prefix.drop_last() =~= body.subrange(0, i - 1));
        assert(prefix.last() == body[i - 1]);
        if line_no.len() > w0 {
            w0 = line_no.len();
        }
        if used.len() > w1 {
            w1 = used.len();
        }
        if theo.len() > w2 {
            w2 = theo.len();
        }
        let formula = parse_formula(form, lib_data, None, LineContext::ProofLine);
        let row = Row { line_no, line_no_color, used: uc, used_colors: ucol, theo, theo_color, formula };
        assert(row@ == proof_row(body[i - 1], i - 1, names, *lib_data, *references));
        rows.push(row);
        i += 1;
    }
    assert(body.subrange(0, body.len() as int) =~= body);
    let ghost rv = rows@;
    let ghost head = lines_view(result@);
    let mut k: usize = 0;
    let total = section.len();
    assert(body.len() < total);
    while rows.len() > 0
        invariant
            body.len() < total,
            k + rows@.len() == body.len(),
            rows@ == rv.subrange(k as int, rv.len() as int),
            forall|j: int|
                0 <= j < body.len() ==> (#[trigger] rv[j])@ == proof_row(body[j], j, names, *lib_data, *references)
                    && row_wf(rv[j]@),
            rv.len() == body.len(),
            lines_view(result@) =~= head + Seq::new(
                k as nat,
                |j: int|
                    render_row(
                        proof_row(body[j], j, names, *lib_data, *references),
                        w0 as nat,
                        w1 as nat,
                        w2 as nat,
                    ),
            ),
            all_wf(lines_view(result@)),
        decreases rows@.len(),
    {
        let row = rows.remove(0);
        assert(row == rv[k as int]);
        let line = render_row_exec(row, w0, w1, w2);
        push_line(&mut result, line);
        k += 1;
    }
    result
}

} // verus!

verus! {

proof fn lemma_trim_padded(pre: nat, x: Seq<char>, post: nat)
    requires
        crate::text::tight(x),
    ensures
        trim(spaces(pre) + x + spaces(post)) == x,
{
    if x.len() == 0 {
        assert(spaces(pre) + x + spaces(post) =~= spaces(pre + post) + x + spaces(0));
        crate::text::lemma_trim_framed(pre + post, x, 0);
    } else {
        crate::text::lemma_trim_framed(pre, x, post);
    }
}

/// Reading a styled used-hypotheses column again gives the same column.
pub proof fn lemma_used_column_stable(used: Seq<char>, line_no: Seq<char>)
    ensures
        used_column(used, line_no).0 == used,
        used_column(used, line_no).1.len() == used.len(),
{
    match parse_nat(line_no) {
        Some(n) => lemma_used_items_shape(used, n),
        None => {},
    }
}

proof fn lemma_column_split(pre: nat, x: Seq<char>, post: nat, rest: Seq<char>)
    requires
        crate::text::tight(x),
        forall|k: int| 0 <= k < x.len() ==> #[trigger] x[k] != ';',
    ensures
        trim(before_first(spaces(pre) + x + spaces(post) + seq![';'] + rest, ';')) == x,
        after_first(spaces(pre) + x + spaces(post) + seq![';'] + rest, ';') == Some(rest),
{
    let head = spaces(pre) + x + spaces(post);
    let s = head + seq![';'] + rest;
    assert forall|k: int| 0 <= k < head.len() implies #[trigger] head[k] != ';' by {
        if pre <= k < pre + x.len() {
            assert(head[k] == x[k - pre]);
        }
    }
    assert(s =~= head + (seq![';'] + rest));
    assert(find_first(seq![';'] + rest, ';') == Some(0int));
    crate::text::lemma_find_first_concat(head, seq![';'] + rest, ';');
    assert(s.subrange(0, head.len() as int) =~= head);
    assert(s.subrange(head.len() + 1int, s.len() as int) =~= rest);
    lemma_trim_padded(pre, x, post);
}

/// A rendered proof line splits back into the columns it was made of.
pub proof fn lemma_render_row_columns(row: ProofRow, w0: nat, w1: nat, w2: nat)
    requires
        crate::text::tight(row.line_no),
        crate::text::tight(row.used),
        crate::text::tight(row.theo),
        crate::text::tight(row.formula.chars),
        forall|k: int| 0 <= k < row.line_no.len() ==> #[trigger] row.line_no[k] != ';',
        forall|k: int| 0 <= k < row.used.len() ==> #[trigger] row.used[k] != ';',
        forall|k: int| 0 <= k < row.theo.len() ==> #[trigger] row.theo[k] != ';',
    ensures
        proof_columns(render_row(row, w0, w1, w2).chars) == (row.line_no, row.used, row.theo, row.formula.chars),
{
    let f = row.formula.chars;
    let r = render_row(row, w0, w1, w2).chars;
    let pa = if w0 > row.line_no.len() { (w0 - row.line_no.len()) as nat } else { 0 };
    let pb = if w1 > row.used.len() { (w1 - row.used.len()) as nat } else { 0 };
    let pc = if w2 > row.theo.len() { (w2 - row.theo.len()) as nat } else { 0 };
    let r3 = spaces(1) + f + spaces(0);
    let r2 = spaces(1) + row.theo + spaces(pc + 1) + seq![';'] + r3;
    let r1 = spaces(1) + row.used + spaces(pb + 1) + seq![';'] + r2;
    assert(r =~= spaces(0) + row.line_no + spaces(pa + 1) + seq![';'] + r1);
    lemma_column_split(0, row.line_no, pa + 1, r1);
    lemma_column_split(1, row.used, pb + 1, r2);
    lemma_column_split(1, row.theo, pc + 1, r3);
    lemma_trim_padded(1, f, 0);
}

proof fn lemma_trimmed_part(s: Seq<char>)
    requires
        forall|k: int| 0 <= k < s.len() ==> #[trigger] s[k] != ';',
    ensures
        crate::text::tight(trim(s)),
        forall|k: int| 0 <= k < trim(s).len() ==> #[trigger] trim(s)[k] != ';',
{
    crate::text::lemma_trim_props(s);
    assert forall|k: int| 0 <= k < trim(s).len() implies #[trigger] trim(s)[k] != ';' by {
        assert(trim(s)[k] == s[lead_ws(s) + k]);
    }
}

proof fn lemma_before_first_clean(s: Seq<char>)
    ensures
        forall|k: int| 0 <= k < before_first(s, ';').len() ==> #[trigger] before_first(s, ';')[k] != ';',
{
    crate::text::lemma_find_first_none_before(s, ';');
}

/// The columns of a proof line are trimmed, and the first three hold no `;`.
proof fn lemma_columns_clean(line: Seq<char>)
    ensures
        ({
            let (ln, used, theo, form) = proof_columns(line);
            &&& crate::text::tight(ln) && crate::text::tight(used) && crate::text::tight(theo)
            &&& crate::text::tight(form)
            &&& forall|k: int| 0 <= k < ln.len() ==> #[trigger] ln[k] != ';'
            &&& forall|k: int| 0 <= k < used.len() ==> #[trigger] used[k] != ';'
            &&& forall|k: int| 0 <= k < theo.len() ==> #[trigger] theo[k] != ';'
        }),
{
    lemma_before_first_clean(line);
    lemma_trimmed_part(before_first(line, ';'));
    if let Some(r1) = after_first(line, ';') {
        lemma_before_first_clean(r1);
        lemma_trimmed_part(before_first(r1, ';'));
        if let Some(r2) = after_first(r1, ';') {
            lemma_before_first_clean(r2);
            lemma_trimmed_part(before_first(r2, ';'));
            if let Some(r3) = after_first(r2, ';') {
                crate::text::lemma_trim_props(r3);
            }
        }
    }
}

/// Reading a rendered proof line again gives the same row, with columns of
/// the same widths.
proof fn lemma_row_stable(
    line: Seq<char>,
    i: int,
    names: Seq<Seq<char>>,
    lib: LibraryData,
    refs: References,
    w0: nat,
    w1: nat,
    w2: nat,
)
    ensures
        ({
            let row = proof_row(line, i, names, lib, refs);
            let rl = render_row(row, w0, w1, w2).chars;
            let (ln, used, theo, _) = proof_columns(line);
            let (ln2, used2, theo2, _) = proof_columns(rl);
            &&& proof_row(rl, i, names, lib, refs) == row
            &&& ln2.len() == ln.len() && used2.len() == used.len() && theo2.len() == theo.len()
        }),
{
    let (ln, used, theo, form) = proof_columns(line);
    let row = proof_row(line, i, names, lib, refs);
    lemma_columns_clean(line);
    lemma_used_column_stable(used, ln);
    assert(row.used == used);
    crate::formula::lemma_formula_keeps_chars(form, lib.syntax_views(), None, LineContext::ProofLine);
    lemma_render_row_columns(row, w0, w1, w2);
}

proof fn lemma_widths_stable(body: Seq<Seq<char>>, other: Seq<Seq<char>>, col: int)
    requires
        body.len() == other.len(),
        forall|j: int|
            0 <= j < body.len() ==> {
                let (a0, a1, a2, _) = proof_columns(#[trigger] body[j]);
                let (b0, b1, b2, _) = proof_columns(other[j]);
                a0.len() == b0.len() && a1.len() == b1.len() && a2.len() == b2.len()
            },
    ensures
        column_width(body, col) == column_width(other, col),
    decreases body.len(),
{
    if body.len() > 0 {
        let n = body.len() - 1;
        assert(body.last() == body[n]);
        assert(other.last() == other[n]);
        assert forall|j: int| 0 <= j < body.drop_last().len() implies {
            let (a0, a1, a2, _) = proof_columns(#[trigger] body.drop_last()[j]);
            let (b0, b1, b2, _) = proof_columns(other.drop_last()[j]);
            a0.len() == b0.len() && a1.len() == b1.len() && a2.len() == b2.len()
        } by {
            assert(body.drop_last()[j] == body[j]);
            assert(other.drop_last()[j] == other[j]);
        }
        lemma_widths_stable(body.drop_last(), other.drop_last(), col);
    }
}

/// Reading the text of a parsed proof section again gives the same lines.
pub proof fn lemma_proof_section_stable(s: Seq<Seq<char>>, lib: LibraryData, refs: References, names: Seq<Seq<char>>)
    ensures
        spec_proof_section(
            spec_proof_section(s, lib, refs, names).map_values(|l: LineView| l.chars),
            lib,
            refs,
            names,
        ) == spec_proof_section(s, lib, refs, names),
{
    let out = spec_proof_section(s, lib, refs, names);
    let t = out.map_values(|l: LineView| l.chars);
    if s.len() > 0 {
        let body = s.subrange(1, s.len() as int);
        let w0 = column_width(body, 0);
        let w1 = column_width(body, 1);
        let w2 = column_width(body, 2);
        let tb = t.subrange(1, t.len() as int);
        assert(tb.len() == body.len());
        assert forall|j: int| 0 <= j < body.len() implies {
            let (a0, a1, a2, _) = proof_columns(#[trigger] body[j]);
            let (b0, b1, b2, _) = proof_columns(tb[j]);
            a0.len() == b0.len() && a1.len() == b1.len() && a2.len() == b2.len()
        } by {
            assert(tb[j] == render_row(proof_row(body[j], j, names, lib, refs), w0, w1, w2).chars);
            lemma_row_stable(body[j], j, names, lib, refs, w0, w1, w2);
        }
        lemma_widths_stable(body, tb, 0);
        lemma_widths_stable(body, tb, 1);
        lemma_widths_stable(body, tb, 2);
        assert(t[0] == s[0]);
        let again = spec_proof_section(t, lib, refs, names);
        assert forall|j: int| 0 <= j < body.len() implies #[trigger] again[j + 1] == out[j + 1] by {
            assert(tb[j] == render_row(proof_row(body[j], j, names, lib, refs), w0, w1, w2).chars);
            lemma_row_stable(body[j], j, names, lib, refs, w0, w1, w2);
        }
        assert(again =~= out) by {
            assert forall|j: int| 0 <= j < out.len() implies again[j] == out[j] by {
                if j > 0 {
                    assert(again[(j - 1) + 1] == out[(j - 1) + 1]);
                }
            }
        }
    } else {
        assert(t =~= Seq::<Seq<char>>::empty());
    }
}

} // verus!

verus! {

/// Where the reference column of a rendered row starts.
pub open spec fn reference_start(row: ProofRow, w0: nat, w1: nat) -> int {
    (padded(row.line_no, w0).len() + 3 + padded(row.used, w1).len() + 3) as int
}

/// A proof line whose number is not its position (from 1) shows that
/// number in red.
pub proof fn lemma_wrong_line_number_is_red(
    s: Seq<Seq<char>>,
    lib: LibraryData,
    refs: References,
    names: Seq<Seq<char>>,
    i: int,
)
    requires
        0 <= i < s.len() - 1,
        parse_nat(proof_columns(s[i + 1]).0) != Some((i + 1) as nat),
    ensures
        ({
            let out = spec_proof_section(s, lib, refs, names)[i + 1];
            let ln = proof_columns(s[i + 1]).0;
            &&& out.chars.subrange(0, ln.len() as int) == ln
            &&& forall|j: int| 0 <= j < ln.len() ==> #[trigger] out.colors[j] == fg(Color::Red)
        }),
{
    let body = s.subrange(1, s.len() as int);
    assert(body[i] == s[i + 1]);
    let row = proof_row(body[i], i, names, lib, refs);
    let ln = row.line_no;
    let out = spec_proof_section(s, lib, refs, names)[i + 1];
    assert(out.chars.subrange(0, ln.len() as int) =~= ln);
    assert forall|j: int| 0 <= j < ln.len() implies #[trigger] out.colors[j] == fg(Color::Red) by {
        assert(out.colors[j] == row.line_no_color);
    }
}

/// A proof line that cites neither a hypothesis nor a name of the library
/// shows its reference in red.
pub proof fn lemma_unknown_reference_is_red(
    s: Seq<Seq<char>>,
    lib: LibraryData,
    refs: References,
    names: Seq<Seq<char>>,
    i: int,
)
    requires
        0 <= i < s.len() - 1,
        ({
            let theo = proof_columns(s[i + 1]).2;
            let name = before_first(theo, '.');
            &&& !names.contains(theo)
            &&& refs.spec_get(name) is None
        }),
    ensures
        ({
            let body = s.subrange(1, s.len() as int);
            let row = proof_row(s[i + 1], i, names, lib, refs);
            let o = reference_start(row, column_width(body, 0), column_width(body, 1));
            let out = spec_proof_section(s, lib, refs, names)[i + 1];
            let theo = proof_columns(s[i + 1]).2;
            &&& out.chars.subrange(o, o + theo.len()) == theo
            &&& forall|j: int| o <= j < o + theo.len() ==> #[trigger] out.colors[j] == fg(Color::Red)
        }),
{
    let body = s.subrange(1, s.len() as int);
    assert(body[i] == s[i + 1]);
    let row = proof_row(body[i], i, names, lib, refs);
    let theo = row.theo;
    let w0 = column_width(body, 0);
    let w1 = column_width(body, 1);
    let w2 = column_width(body, 2);
    crate::text::lemma_find_first_none_before(theo, '.');
    assert(!theo_valid(theo, names, lib, refs)) by {
        if let Some(k) = find_first(theo, '.') {
            assert(theo.subrange(0, k) == before_first(theo, '.'));
        }
    }
    let o = reference_start(row, w0, w1);
    let out = spec_proof_section(s, lib, refs, names)[i + 1];
    assert(out == render_row(row, w0, w1, w2));
    let a = padded(row.line_no, w0);
    let b = padded(row.used, w1);
    let c = padded(theo, w2);
    assert(out.chars == a + separator() + b + separator() + c + separator() + row.formula.chars);
    assert(out.chars.subrange(o, o + theo.len()) =~= theo);
    assert forall|j: int| o <= j < o + theo.len() implies #[trigger] out.colors[j] == fg(Color::Red) by {
        assert(row.used_colors.len() == row.used.len()) by {
            if let Some(n) = parse_nat(row.line_no) {
                lemma_used_items_shape(proof_columns(body[i]).1, n);
            }
        }
        assert(out.colors[j] == row.theo_color);
    }
}

} // verus!
