use vstd::prelude::*;
use crate::types::{Color, LineContext, LineView, FileType, no_color, fg, mono_line, mono_lines};
use crate::library::{Placeholder, SyntaxType, SyntaxView, LibraryData, References};
use crate::parser::{spec_parse_file, split_sections, flatten, typed_sections, spec_parse_title};
use crate::sections::{
    spec_syntax_section, spec_definition_section, spec_hypothesis_section, spec_assertion_section, unexpected_lines,
};
use crate::proof_section::spec_proof_section;
use crate::editor::{chars_of, split_line_at, join_line, local_reparse, insert_at, remove_at, min_int};
use crate::formula::{
    spec_parse_formula, spec_parse_new_syntax, scan_new_syntax, scan_step, var_index, lead_end, has_ellipsis,
    is_ellipsis, NewSyntaxScan,
};

verus! {

proof fn lemma_lead_end_all_spaces(s: Seq<char>, i: int)
    requires
        0 <= i <= s.len(),
        forall|j: int| 0 <= j < s.len() ==> s[j] == ' ',
    ensures
        lead_end(s, i) == s.len(),
    decreases s.len() - i,
{
    if i < s.len() {
        lemma_lead_end_all_spaces(s, i + 1);
    }
}

/// A formula line made only of spaces keeps them, all unstyled.
pub proof fn lemma_spaces_stay_plain(
    line: Seq<char>,
    lib: Seq<SyntaxView>,
    new_syntax: Option<SyntaxView>,
    ctx: LineContext,
)
    requires
        forall|j: int| 0 <= j < line.len() ==> line[j] == ' ',
    ensures
        spec_parse_formula(line, lib, new_syntax, ctx) == mono_line(ctx, line, no_color()),
{
    lemma_lead_end_all_spaces(line, 0);
    assert(!has_ellipsis(line)) by {
        if has_ellipsis(line) {
            let j = choose|j: int| 0 <= j < line.len() && is_ellipsis(#[trigger] line[j]);
            assert(line[j] == ' ');
        }
    }
}

/// A formula line that holds `…` is drawn all in red.
pub proof fn lemma_ellipsis_is_red(line: Seq<char>, lib: Seq<SyntaxView>, new_syntax: Option<SyntaxView>, ctx: LineContext)
    requires
        exists|j: int| 0 <= j < line.len() && line[j] == '\u{2026}',
    ensures
        spec_parse_formula(line, lib, new_syntax, ctx) == mono_line(ctx, line, fg(Color::Red)),
{
    let j = choose|j: int| 0 <= j < line.len() && line[j] == '\u{2026}';
    assert(is_ellipsis(line[j]));
}

/// Some placeholder of `f` is the formula placeholder `id`.
pub open spec fn uses_wff(f: Seq<Placeholder>, id: usize) -> bool {
    exists|i: int| 0 <= i < f.len() && f[i] == Placeholder::WellFormedFormula(id)
}

/// Some placeholder of `f` is the object placeholder `id`.
pub open spec fn uses_obj(f: Seq<Placeholder>, id: usize) -> bool {
    exists|i: int| 0 <= i < f.len() && f[i] == Placeholder::Object(id)
}

/// The placeholder ids of a scan are exactly the indexes of its variables.
pub open spec fn ids_dense(st: NewSyntaxScan) -> bool {
    &&& forall|i: int|
        0 <= i < st.formula.len() ==> match #[trigger] st.formula[i] {
            Placeholder::WellFormedFormula(id) => id < st.wff_vars.len(),
            Placeholder::Object(id) => id < st.obj_vars.len(),
            _ => true,
        }
    &&& forall|id: usize| id < st.wff_vars.len() ==> #[trigger] uses_wff(st.formula, id)
    &&& forall|id: usize| id < st.obj_vars.len() ==> #[trigger] uses_obj(st.formula, id)
}

proof fn lemma_var_index_bound(vars: Seq<char>, c: char)
    ensures
        var_index(vars, c) matches Some(i) ==> i < vars.len(),
    decreases vars.len(),
{
    if vars.len() > 0 {
        lemma_var_index_bound(vars.drop_last(), c);
    }
}

proof fn lemma_scan_step_prefix(prev: NewSyntaxScan, c: char)
    requires
        prev.wff_vars.len() < usize::MAX,
        prev.obj_vars.len() < usize::MAX,
    ensures
        ({
            let st = scan_step(prev, c);
            &&& st.formula.len() == prev.formula.len() || st.formula.len() == prev.formula.len() + 1
            &&& forall|i: int| 0 <= i < prev.formula.len() ==> st.formula[i] == prev.formula[i]
            &&& st.wff_vars.len() == prev.wff_vars.len() || st.wff_vars.len() == prev.wff_vars.len() + 1
            &&& st.obj_vars.len() == prev.obj_vars.len() || st.obj_vars.len() == prev.obj_vars.len() + 1
            &&& st.formula.len() == prev.formula.len() + 1 ==> match st.formula.last() {
                Placeholder::WellFormedFormula(id) => id < st.wff_vars.len(),
                Placeholder::Object(id) => id < st.obj_vars.len(),
                _ => true,
            }
            &&& st.wff_vars.len() == prev.wff_vars.len() + 1 ==> st.formula.len() == prev.formula.len() + 1
                && st.formula.last() == Placeholder::WellFormedFormula(prev.wff_vars.len() as usize)
            &&& st.obj_vars.len() == prev.obj_vars.len() + 1 ==> st.formula.len() == prev.formula.len() + 1
                && st.formula.last() == Placeholder::Object(prev.obj_vars.len() as usize)
        }),
{
    let st = scan_step(prev, c);
    lemma_var_index_bound(prev.wff_vars, c);
    lemma_var_index_bound(prev.obj_vars, c);
    if c == ' ' {
    } else if is_ellipsis(c) {
        assert(st.formula =~= prev.formula.push(Placeholder::Repetition));
    } else if crate::formula::is_latin_var(c) {
        assert(st.formula =~= prev.formula.push(st.formula.last()));
    } else if crate::formula::is_greek_var(c) {
        assert(st.formula =~= prev.formula.push(st.formula.last()));
    } else {
        assert(st.formula =~= prev.formula.push(Placeholder::LiteralChar(c)));
    }
}

proof fn lemma_scan_dense(line: Seq<char>)
    requires
        line.len() <= usize::MAX,
    ensures
        ids_dense(scan_new_syntax(line)),
        scan_new_syntax(line).wff_vars.len() <= line.len(),
        scan_new_syntax(line).obj_vars.len() <= line.len(),
    decreases line.len(),
{
    if line.len() > 0 {
        let prev = scan_new_syntax(line.drop_last());
        lemma_scan_dense(line.drop_last());
        let c = line.last();
        let st = scan_step(prev, c);
        assert(st == scan_new_syntax(line));
        lemma_var_index_bound(prev.wff_vars, c);
        lemma_var_index_bound(prev.obj_vars, c);
        lemma_scan_step_prefix(prev, c);
        assert forall|i: int| 0 <= i < st.formula.len() implies match #[trigger] st.formula[i] {
            Placeholder::WellFormedFormula(id) => id < st.wff_vars.len(),
            Placeholder::Object(id) => id < st.obj_vars.len(),
            _ => true,
        } by {
            if i < prev.formula.len() {
                assert(st.formula[i] == prev.formula[i]);
            } else {
                assert(i == prev.formula.len());
            }
        }
        assert forall|id: usize| id < st.wff_vars.len() implies #[trigger] uses_wff(st.formula, id) by {
            if id < prev.wff_vars.len() {
                assert(uses_wff(prev.formula, id));
                let i = choose|i: int| 0 <= i < prev.formula.len() && prev.formula[i] == Placeholder::WellFormedFormula(id);
                assert(st.formula[i] == prev.formula[i]);
            } else {
                assert(st.formula[st.formula.len() - 1] == Placeholder::WellFormedFormula(id));
            }
        }
        assert forall|id: usize| id < st.obj_vars.len() implies #[trigger] uses_obj(st.formula, id) by {
            if id < prev.obj_vars.len() {
                assert(uses_obj(prev.formula, id));
                let i = choose|i: int| 0 <= i < prev.formula.len() && prev.formula[i] == Placeholder::Object(id);
                assert(st.formula[i] == prev.formula[i]);
            } else {
                assert(st.formula[st.formula.len() - 1] == Placeholder::Object(id));
            }
        }
    }
}

/// A syntax read from a definition line uses exactly the formula ids
/// `0..wff_count` and the object ids `0..object_count`.
pub proof fn lemma_new_syntax_ids_dense(line: Seq<char>, ty: SyntaxType)
    requires
        line.len() <= usize::MAX,
        spec_parse_new_syntax(line, ty).1 is Some,
    ensures
        ({
            let s = spec_parse_new_syntax(line, ty).1->Some_0;
            &&& forall|id: usize| #[trigger] uses_wff(s.formula, id) <==> id < s.wff_count
            &&& forall|id: usize| #[trigger] uses_obj(s.formula, id) <==> id < s.object_count
            &&& s.wf()
        }),
{
    lemma_scan_dense(line);
    let st = scan_new_syntax(line);
    let s = spec_parse_new_syntax(line, ty).1->Some_0;
    assert(s.formula == st.formula);
    assert forall|id: usize| #[trigger] uses_wff(s.formula, id) <==> id < s.wff_count by {
        if uses_wff(s.formula, id) {
            let i = choose|i: int| 0 <= i < s.formula.len() && s.formula[i] == Placeholder::WellFormedFormula(id);
            assert(st.formula[i] == Placeholder::WellFormedFormula(id));
        }
    }
    assert forall|id: usize| #[trigger] uses_obj(s.formula, id) <==> id < s.object_count by {
        if uses_obj(s.formula, id) {
            let i = choose|i: int| 0 <= i < s.formula.len() && s.formula[i] == Placeholder::Object(id);
            assert(st.formula[i] == Placeholder::Object(id));
        }
    }
    assert forall|i: int| 0 <= i < s.formula.len() implies match #[trigger] s.formula[i] {
        Placeholder::WellFormedFormula(id) => id < s.wff_count,
        Placeholder::Object(id) => id < s.object_count,
        _ => true,
    } by {
        assert(s.formula[i] == st.formula[i]);
    }
}

} // verus!

verus! {

proof fn lemma_flatten_split(secs: Seq<Seq<Seq<char>>>, k: int)
    requires
        0 <= k <= secs.len(),
    ensures
        flatten(secs) == flatten(secs.subrange(0, k)) + flatten(secs.subrange(k, secs.len() as int)),
    decreases secs.len(),
{
    if k == secs.len() {
        assert(secs.subrange(0, k) =~= secs);
        assert(secs.subrange(k, k) =~= Seq::<Seq<Seq<char>>>::empty());
        assert(flatten(secs) + flatten(Seq::<Seq<Seq<char>>>::empty()) =~= flatten(secs));
    } else {
        lemma_flatten_split(secs.drop_last(), k);
        assert(secs.drop_last().subrange(0, k) =~= secs.subrange(0, k));
        assert(secs.subrange(k, secs.len() as int).drop_last() =~= secs.drop_last().subrange(
            k,
            secs.len() - 1,
        ));
        assert(secs.subrange(k, secs.len() as int).last() == secs.last());
        assert(flatten(secs) =~= flatten(secs.subrange(0, k)) + flatten(secs.subrange(k, secs.len() as int)));
    }
}

proof fn lemma_flatten_prefix(secs: Seq<Seq<Seq<char>>>, k: int)
    requires
        0 <= k < secs.len(),
    ensures
        flatten(secs.subrange(0, k + 1)).len() == flatten(secs.subrange(0, k)).len() + secs[k].len(),
{
    assert(secs.subrange(0, k + 1).drop_last() =~= secs.subrange(0, k));
}

proof fn lemma_flatten_split_sections(ls: Seq<Seq<char>>)
    ensures
        flatten(split_sections(ls)) == ls,
        split_sections(ls).len() >= 1,
    decreases ls.len(),
{
    if ls.len() == 0 {
        let e = Seq::<Seq<char>>::empty();
        assert(seq![e].drop_last() =~= Seq::<Seq<Seq<char>>>::empty());
        assert(seq![e].last() == e);
        assert(flatten(Seq::<Seq<Seq<char>>>::empty()) == e);
        assert(flatten(seq![e]) =~= e + e);
        assert(e + e =~= e);
    } else {
        let s = split_sections(ls.drop_last());
        lemma_flatten_split_sections(ls.drop_last());
        let l = ls.last();
        if ls.last().len() > 0 && ls.last()[0] == '#' {
            assert(s.push(seq![l]).drop_last() =~= s);
            assert(ls =~= ls.drop_last() + seq![l]);
        } else {
            let t = s.update(s.len() - 1, s.last().push(l));
            assert(t.drop_last() =~= s.drop_last());
            assert(s =~= s.drop_last().push(s.last()));
            assert(flatten(s) == flatten(s.drop_last()) + s.last());
            assert(flatten(t) =~= flatten(s.drop_last()) + s.last().push(l));
            assert(ls =~= ls.drop_last().push(l));
        }
    }
}

proof fn lemma_section_lengths(s: Seq<Seq<char>>, lib: LibraryData, refs: References, names: Seq<Seq<char>>)
    ensures
        spec_syntax_section(s, SyntaxType::Formula).0.len() == s.len(),
        spec_syntax_section(s, SyntaxType::Object).0.len() == s.len(),
        forall|n: Option<SyntaxView>| #[trigger] spec_definition_section(s, lib.syntax_views(), n).len() == s.len(),
        spec_hypothesis_section(s, lib.syntax_views()).0.len() == s.len(),
        forall|ctx: LineContext| #[trigger] spec_assertion_section(s, lib.syntax_views(), ctx).len() == s.len(),
        spec_proof_section(s, lib, refs, names).len() == s.len(),
{
}

/// Parsing a file gives one styled line per line of text.
pub proof fn lemma_parse_file_keeps_line_count(lines: Seq<Seq<char>>, lib: LibraryData, refs: References)
    ensures
        spec_parse_file(lines, lib, refs).len() == lines.len(),
{
    if lines.len() > 0 {
        let (title, kind) = spec_parse_title(lines[0]);
        let rest = lines.subrange(1, lines.len() as int);
        let secs = split_sections(rest);
        lemma_flatten_split_sections(rest);
        let n = secs.len() as int;
        let (body, used) = typed_sections(kind, secs, lib, refs);
        let u = min_int(used, n);
        lemma_flatten_split(secs, u);
        assert(secs.subrange(0, 0) =~= Seq::<Seq<Seq<char>>>::empty());
        lemma_flatten_prefix(secs, 0);
        if n > 1 {
            lemma_flatten_prefix(secs, 1);
            lemma_section_lengths(secs[1], lib, refs, Seq::empty());
        }
        if n > 2 {
            lemma_flatten_prefix(secs, 2);
            lemma_section_lengths(secs[2], lib, refs, Seq::empty());
        }
        if n > 3 {
            lemma_flatten_prefix(secs, 3);
            lemma_section_lengths(secs[3], lib, refs, spec_hypothesis_section(secs[1], lib.syntax_views()).1);
        }
        if kind == FileType::Unknown {
            lemma_flatten_split(secs, 1);
            assert(secs.subrange(n, n) =~= Seq::<Seq<Seq<char>>>::empty());
        }
        assert(flatten(secs).len() == rest.len());
    }
}

} // verus!

verus! {

proof fn lemma_scan_step_chars(prev: NewSyntaxScan, c: char)
    ensures
        scan_step(prev, c).chars == prev.chars.push(c),
{
    if c == ' ' {
    } else if is_ellipsis(c) {
    } else if crate::formula::is_latin_var(c) {
    } else if crate::formula::is_greek_var(c) {
    } else {
    }
}

proof fn lemma_scan_chars(line: Seq<char>)
    ensures
        scan_new_syntax(line).chars == line,
    decreases line.len(),
{
    if line.len() > 0 {
        lemma_scan_chars(line.drop_last());
        lemma_scan_step_chars(scan_new_syntax(line.drop_last()), line.last());
        assert(line =~= line.drop_last().push(line.last()));
    } else {
        assert(line =~= Seq::<char>::empty());
    }
}

/// Reparsing an edited line on its own keeps its glyphs.
pub proof fn lemma_local_reparse_keeps_chars(line: Seq<char>, ctx: LineContext, lib: LibraryData)
    ensures
        local_reparse(line, ctx, lib) matches Some(l) ==> l.chars == line,
{
    lemma_scan_chars(line);
    crate::formula::lemma_formula_keeps_chars(line, lib.syntax_views(), None, ctx);
}

/// The cursor stands on a line, at most one past its last glyph.
pub open spec fn cursor_in_bounds(lines: Seq<LineView>, cy: int, cx: int) -> bool {
    1 <= cy <= lines.len() && 1 <= cx <= lines[cy - 1].chars.len() + 1
}

/// After Enter splits the cursor's line, the cursor at the start of the
/// next line is in bounds.
pub proof fn lemma_enter_keeps_cursor_in_bounds(
    lines: Seq<LineView>,
    cy: int,
    cx: int,
    lib: LibraryData,
    refs: References,
)
    requires
        cursor_in_bounds(lines, cy, cx),
    ensures
        cursor_in_bounds(spec_parse_file(split_line_at(chars_of(lines), cy - 1, cx - 1), lib, refs), cy + 1, 1),
{
    let t = split_line_at(chars_of(lines), cy - 1, cx - 1);
    lemma_parse_file_keeps_line_count(t, lib, refs);
}

/// After Backspace in the first column joins the cursor's line onto the
/// previous one, the cursor at the end of that line is in bounds.
pub proof fn lemma_join_keeps_cursor_in_bounds(lines: Seq<LineView>, cy: int, lib: LibraryData, refs: References)
    requires
        cursor_in_bounds(lines, cy, 1),
        cy >= 2,
    ensures
        ({
            let joined = spec_parse_file(join_line(chars_of(lines), cy - 1), lib, refs);
            cursor_in_bounds(joined, cy - 1, joined[cy - 2].chars.len() + 1int)
        }),
{
    let t = join_line(chars_of(lines), cy - 1);
    lemma_parse_file_keeps_line_count(t, lib, refs);
}

/// Typing a character keeps the number of lines; the cursor one column on is
/// in bounds where the line is reparsed on its own, and where the edited
/// file has no proof section.
pub proof fn lemma_insert_keeps_cursor_in_bounds(
    lines: Seq<LineView>,
    cy: int,
    cx: int,
    ch: char,
    lib: LibraryData,
    refs: References,
)
    requires
        cursor_in_bounds(lines, cy, cx),
    ensures
        ({
            let ctx = lines[cy - 1].context;
            let edited = insert_at(lines[cy - 1].chars, cx - 1, ch);
            let after = crate::editor::spec_update(lines, cy - 1, edited, ctx, lib, refs);
            &&& after.len() == lines.len()
            &&& local_reparse(edited, ctx, lib) is Some ==> cursor_in_bounds(after, cy, cx + 1)
            &&& !has_proof_section(chars_of(lines).update(cy - 1, edited)) ==> cursor_in_bounds(after, cy, cx + 1)
        }),
{
    let ctx = lines[cy - 1].context;
    let edited = insert_at(lines[cy - 1].chars, cx - 1, ch);
    let text = chars_of(lines).update(cy - 1, edited);
    lemma_local_reparse_keeps_chars(edited, ctx, lib);
    lemma_parse_file_keeps_line_count(text, lib, refs);
    if !has_proof_section(text) {
        lemma_parse_file_keeps_text(text, lib, refs);
        assert(chars_of(spec_parse_file(text, lib, refs))[cy - 1] == edited);
    }
}

/// Deleting the character before the cursor keeps the number of lines; the
/// cursor one column back is in bounds where the line is reparsed on its
/// own, and where the edited file has no proof section.
pub proof fn lemma_delete_keeps_cursor_in_bounds(
    lines: Seq<LineView>,
    cy: int,
    cx: int,
    lib: LibraryData,
    refs: References,
)
    requires
        cursor_in_bounds(lines, cy, cx),
        cx >= 2,
    ensures
        ({
            let ctx = lines[cy - 1].context;
            let edited = remove_at(lines[cy - 1].chars, cx - 2);
            let after = crate::editor::spec_update(lines, cy - 1, edited, ctx, lib, refs);
            &&& after.len() == lines.len()
            &&& local_reparse(edited, ctx, lib) is Some ==> cursor_in_bounds(after, cy, cx - 1)
            &&& !has_proof_section(chars_of(lines).update(cy - 1, edited)) ==> cursor_in_bounds(after, cy, cx - 1)
        }),
{
    let ctx = lines[cy - 1].context;
    let edited = remove_at(lines[cy - 1].chars, cx - 2);
    let text = chars_of(lines).update(cy - 1, edited);
    lemma_local_reparse_keeps_chars(edited, ctx, lib);
    lemma_parse_file_keeps_line_count(text, lib, refs);
    if !has_proof_section(text) {
        lemma_parse_file_keeps_text(text, lib, refs);
        assert(chars_of(spec_parse_file(text, lib, refs))[cy - 1] == edited);
    }
}

} // verus!

verus! {

proof fn lemma_flatten_single(x: Seq<Seq<char>>)
    ensures
        flatten(seq![x]) == x,
{
    assert(seq![x].drop_last() =~= Seq::<Seq<Seq<char>>>::empty());
    assert(seq![x].last() == x);
    assert(flatten(Seq::<Seq<Seq<char>>>::empty()) == Seq::<Seq<char>>::empty());
    assert(Seq::<Seq<char>>::empty() + x =~= x);
}

proof fn lemma_chars_of_concat(a: Seq<LineView>, b: Seq<LineView>)
    ensures
        chars_of(a + b) == chars_of(a) + chars_of(b),
{
    assert(chars_of(a + b) =~= chars_of(a) + chars_of(b));
}

proof fn lemma_chars_of_mono(ctx: LineContext, ls: Seq<Seq<char>>, c: crate::types::ColorInfo)
    ensures
        chars_of(mono_lines(ctx, ls, c)) == ls,
{
    assert(chars_of(mono_lines(ctx, ls, c)) =~= ls);
}

proof fn lemma_hypothesis_line_chars(line: Seq<char>, lib: Seq<SyntaxView>)
    ensures
        crate::sections::hypothesis_line(line, lib).chars == line,
{
    match crate::text::find_first(line, ':') {
        Some(p) => {
            crate::text::lemma_find_from_bounds(line, ':', 0);
            let rest = line.subrange(p + 1, line.len() as int);
            crate::formula::lemma_formula_keeps_chars(rest, lib, None, LineContext::Hypothesis);
            assert(line =~= line.subrange(0, p + 1) + rest);
        },
        None => {},
    }
}

/// The sections other than proofs show the text they were given.
proof fn lemma_sections_keep_chars(s: Seq<Seq<char>>, lib: LibraryData, new_syntax: Option<SyntaxView>)
    ensures
        chars_of(spec_syntax_section(s, SyntaxType::Formula).0) == s,
        chars_of(spec_syntax_section(s, SyntaxType::Object).0) == s,
        chars_of(spec_definition_section(s, lib.syntax_views(), new_syntax)) == s,
        chars_of(spec_hypothesis_section(s, lib.syntax_views()).0) == s,
        forall|ctx: LineContext| #[trigger] chars_of(spec_assertion_section(s, lib.syntax_views(), ctx)) == s,
{
    let syns = lib.syntax_views();
    if s.len() > 0 {
        let rest = s.subrange(2, s.len() as int);
        if s.len() > 1 {
            lemma_scan_chars(s[1]);
            crate::formula::lemma_formula_keeps_chars(s[1], syns, new_syntax, LineContext::AssumedAssertion);
            lemma_chars_of_mono(LineContext::UnexpectedLine, rest, fg(Color::Red));
            assert(s =~= seq![s[0], s[1]] + rest);
            let (d, _) = spec_parse_new_syntax(s[1], SyntaxType::Formula);
            let (e, _) = spec_parse_new_syntax(s[1], SyntaxType::Object);
            let h = crate::sections::header_line(s[0], s[0] == "# Syntax"@);
            lemma_chars_of_concat(seq![h, d], unexpected_lines(rest));
            lemma_chars_of_concat(seq![h, e], unexpected_lines(rest));
            assert(chars_of(seq![h, d]) =~= seq![s[0], s[1]]);
            assert(chars_of(seq![h, e]) =~= seq![s[0], s[1]]);
            let h2 = crate::sections::header_line(s[0], s[0] == "# Definition"@);
            let f = spec_parse_formula(s[1], syns, new_syntax, LineContext::AssumedAssertion);
            lemma_chars_of_concat(seq![h2, f], unexpected_lines(rest));
            assert(chars_of(seq![h2, f]) =~= seq![s[0], s[1]]);
        } else {
            assert(chars_of(spec_syntax_section(s, SyntaxType::Formula).0) =~= s);
            assert(chars_of(spec_syntax_section(s, SyntaxType::Object).0) =~= s);
            assert(chars_of(spec_definition_section(s, syns, new_syntax)) =~= s);
        }
        let body = s.subrange(1, s.len() as int);
        assert forall|i: int| 0 <= i < body.len() implies #[trigger] crate::sections::hypothesis_line(body[i], syns).chars
            == body[i] by {
            lemma_hypothesis_line_chars(body[i], syns);
        }
        assert(chars_of(spec_hypothesis_section(s, syns).0) =~= s);
        assert forall|ctx: LineContext| #[trigger] chars_of(spec_assertion_section(s, syns, ctx)) == s by {
            assert forall|i: int| 0 <= i < body.len() implies #[trigger] spec_parse_formula(body[i], syns, None, ctx).chars
                == body[i] by {
                crate::formula::lemma_formula_keeps_chars(body[i], syns, None, ctx);
            }
            assert(chars_of(spec_assertion_section(s, syns, ctx)) =~= s);
        }
    } else {
        assert(chars_of(Seq::<LineView>::empty()) =~= s);
    }
}

/// The lines of the typed sections show the text of those sections.
proof fn lemma_body_chars(kind: FileType, secs: Seq<Seq<Seq<char>>>, lib: LibraryData, refs: References)
    requires
        secs.len() >= 1,
        !(kind == FileType::Theorem && secs.len() >= 4),
    ensures
        ({
            let (body, used) = typed_sections(kind, secs, lib, refs);
            chars_of(body) == flatten(secs.subrange(1, min_int(used, secs.len() as int)))
        }),
{
    let n = secs.len() as int;
    let syns = lib.syntax_views();
    let (body, used) = typed_sections(kind, secs, lib, refs);
    let u = min_int(used, n);
    if n > 1 {
        lemma_sections_keep_chars(secs[1], lib, None);
    }
    if n > 2 {
        lemma_sections_keep_chars(secs[2], lib, spec_syntax_section(secs[1], SyntaxType::Formula).1);
        lemma_sections_keep_chars(secs[2], lib, spec_syntax_section(secs[1], SyntaxType::Object).1);
    }
    if kind == FileType::Unknown {
        lemma_chars_of_mono(LineContext::Raw, flatten(secs.subrange(1, n)), no_color());
    } else if u == 1 {
        assert(secs.subrange(1, 1) =~= Seq::<Seq<Seq<char>>>::empty());
        assert(chars_of(body) =~= Seq::<Seq<char>>::empty());
    } else if u == 2 {
        assert(secs.subrange(1, 2) =~= seq![secs[1]]);
        lemma_flatten_single(secs[1]);
    } else if u == 3 {
        assert(secs.subrange(1, 3).drop_last() =~= secs.subrange(1, 2));
        assert(secs.subrange(1, 2) =~= seq![secs[1]]);
        lemma_flatten_single(secs[1]);
        if kind == FileType::Axiom {
            lemma_chars_of_concat(
                spec_assertion_section(secs[1], syns, LineContext::AxiomHypothesis),
                spec_assertion_section(secs[2], syns, LineContext::AssumedAssertion),
            );
        } else if kind == FileType::Theorem {
            lemma_chars_of_concat(
                spec_hypothesis_section(secs[1], syns).0,
                spec_assertion_section(secs[2], syns, LineContext::UnprovenAssertion),
            );
        } else {
            let ty = if kind == FileType::SyntaxDefinitionFormula {
                SyntaxType::Formula
            } else {
                SyntaxType::Object
            };
            let (l1, syn) = spec_syntax_section(secs[1], ty);
            lemma_chars_of_concat(l1, spec_definition_section(secs[2], syns, syn));
        }
    }
}

/// A file has a proof section: it is a theorem with four sections or more.
pub open spec fn has_proof_section(lines: Seq<Seq<char>>) -> bool {
    lines.len() > 0 && spec_parse_title(lines[0]).1 == FileType::Theorem && split_sections(
        lines.subrange(1, lines.len() as int),
    ).len() >= 4
}

/// A file without a proof section is shown with exactly the text it was given.
#[verifier::rlimit(40)]
pub proof fn lemma_parse_file_keeps_text(lines: Seq<Seq<char>>, lib: LibraryData, refs: References)
    requires
        !has_proof_section(lines),
    ensures
        chars_of(spec_parse_file(lines, lib, refs)) == lines,
{
    if lines.len() == 0 {
        assert(chars_of(Seq::<LineView>::empty()) =~= lines);
    } else {
        let (title, kind) = spec_parse_title(lines[0]);
        let rest = lines.subrange(1, lines.len() as int);
        let secs = split_sections(rest);
        lemma_flatten_split_sections(rest);
        let n = secs.len() as int;
        let syns = lib.syntax_views();
        let (body, used) = typed_sections(kind, secs, lib, refs);
        let u = min_int(used, n);
        let extra = if used < n {
            flatten(secs.subrange(used, n))
        } else {
            Seq::empty()
        };
        assert(title.chars == lines[0]);
        lemma_chars_of_mono(LineContext::Raw, secs[0], no_color());
        lemma_chars_of_mono(LineContext::UnexpectedLine, extra, fg(Color::Red));
        lemma_flatten_split(secs, u);
        assert(secs.subrange(0, 0) =~= Seq::<Seq<Seq<char>>>::empty());
        assert(secs.subrange(0, 1) =~= seq![secs[0]]);
        lemma_flatten_single(secs[0]);
        let out = seq![title] + mono_lines(LineContext::Raw, secs[0], no_color()) + body + unexpected_lines(extra);
        lemma_chars_of_concat(seq![title] + mono_lines(LineContext::Raw, secs[0], no_color()) + body, unexpected_lines(extra));
        lemma_chars_of_concat(seq![title] + mono_lines(LineContext::Raw, secs[0], no_color()), body);
        lemma_chars_of_concat(seq![title], mono_lines(LineContext::Raw, secs[0], no_color()));
        assert(chars_of(seq![title]) =~= seq![lines[0]]);
        lemma_body_chars(kind, secs, lib, refs);
        assert(flatten(secs.subrange(0, u)) =~= secs[0] + flatten(secs.subrange(1, u))) by {
            if u >= 1 {
                lemma_flatten_split(secs.subrange(0, u), 1);
                assert(secs.subrange(0, u).subrange(0, 1) =~= secs.subrange(0, 1));
                assert(secs.subrange(0, u).subrange(1, u) =~= secs.subrange(1, u));
            }
        }
        assert(extra == flatten(secs.subrange(u, n))) by {
            if used >= n {
                assert(secs.subrange(n, n) =~= Seq::<Seq<Seq<char>>>::empty());
            }
        }
        assert(lines =~= seq![lines[0]] + rest);
        assert(chars_of(out) =~= lines);
    }
}

/// For a file without a proof section, parsing the text that a parse shows
/// gives the same lines again.
pub proof fn lemma_reparse_is_stable(lines: Seq<Seq<char>>, lib: LibraryData, refs: References)
    requires
        !has_proof_section(lines),
    ensures
        spec_parse_file(chars_of(spec_parse_file(lines, lib, refs)), lib, refs) == spec_parse_file(lines, lib, refs),
{
    lemma_parse_file_keeps_text(lines, lib, refs);
}

} // verus!

verus! {

use crate::parser::starts_section;

/// Sections as `split_sections` makes them: a first part with no header,
/// then parts that each start with their header and hold no other.
pub open spec fn sections_wf(secs: Seq<Seq<Seq<char>>>) -> bool {
    &&& secs.len() >= 1
    &&& forall|j: int| 0 <= j < secs[0].len() ==> !starts_section(#[trigger] secs[0][j])
    &&& forall|k: int|
        1 <= k < secs.len() ==> (#[trigger] secs[k]).len() >= 1 && starts_section(secs[k][0]) && forall|j: int|
            1 <= j < secs[k].len() ==> !starts_section(#[trigger] secs[k][j])
}

proof fn lemma_split_wf(ls: Seq<Seq<char>>)
    ensures
        sections_wf(split_sections(ls)),
    decreases ls.len(),
{
    if ls.len() > 0 {
        lemma_split_wf(ls.drop_last());
        let s = split_sections(ls.drop_last());
        let l = ls.last();
        if starts_section(l) {
            let t = s.push(seq![l]);
            assert forall|k: int| 1 <= k < t.len() implies (#[trigger] t[k]).len() >= 1 && starts_section(t[k][0])
                && forall|j: int| 1 <= j < t[k].len() ==> !starts_section(#[trigger] t[k][j]) by {
                if k < s.len() {
                    assert(t[k] == s[k]);
                }
            }
        } else {
            let t = s.update(s.len() - 1, s.last().push(l));
            assert forall|k: int| 1 <= k < t.len() implies (#[trigger] t[k]).len() >= 1 && starts_section(t[k][0])
                && forall|j: int| 1 <= j < t[k].len() ==> !starts_section(#[trigger] t[k][j]) by {
                if k < s.len() - 1 {
                    assert(t[k] == s[k]);
                } else {
                    assert(t[k] == s[k].push(l));
                    assert forall|j: int| 1 <= j < t[k].len() implies !starts_section(#[trigger] t[k][j]) by {
                        if j < s[k].len() {
                            assert(t[k][j] == s[k][j]);
                        }
                    }
                }
            }
            if s.len() == 1 {
                assert forall|j: int| 0 <= j < t[0].len() implies !starts_section(#[trigger] t[0][j]) by {
                    if j < s[0].len() {
                        assert(t[0][j] == s[0][j]);
                    }
                }
            } else {
                assert(t[0] == s[0]);
            }
        }
    }
}

/// Well-formed sections are split back out of their lines.
proof fn lemma_split_flatten(secs: Seq<Seq<Seq<char>>>)
    requires
        sections_wf(secs),
    ensures
        split_sections(flatten(secs)) == secs,
    decreases flatten(secs).len(),
{
    let x = flatten(secs);
    let n = secs.len() as int;
    let last = secs[n - 1];
    assert(flatten(secs) == flatten(secs.drop_last()) + secs.last());
    if x.len() == 0 {
        if n > 1 {
            assert(secs.drop_last().len() >= 0);
            lemma_flatten_split(secs, n - 1);
            assert(secs.subrange(n - 1, n) =~= seq![last]);
            lemma_flatten_single(last);
            assert(flatten(secs.subrange(n - 1, n)).len() >= 1);
        }
        assert(secs =~= seq![Seq::<Seq<char>>::empty()]) by {
            assert(n == 1);
            assert(secs[0] =~= x);
        }
    } else if last.len() == 0 {
        // only the first part may be empty, and then it holds every line
        assert(n == 1);
        assert(flatten(secs.drop_last()) == Seq::<Seq<char>>::empty());
        assert(false);
    } else if last.len() == 1 && n > 1 {
        let prev = secs.drop_last();
        assert(x.drop_last() =~= flatten(prev));
        assert(x.last() == last[0]);
        assert(sections_wf(prev)) by {
            assert forall|k: int| 1 <= k < prev.len() implies (#[trigger] prev[k]).len() >= 1 && starts_section(
                prev[k][0],
            ) && forall|j: int| 1 <= j < prev[k].len() ==> !starts_section(#[trigger] prev[k][j]) by {
                assert(prev[k] == secs[k]);
            }
        }
        lemma_split_flatten(prev);
        assert(secs =~= prev.push(seq![last[0]])) by {
            assert(last =~= seq![last[0]]);
        }
    } else {
        let shorter = secs.update(n - 1, last.drop_last());
        assert(shorter.drop_last() =~= secs.drop_last());
        assert(x.drop_last() =~= flatten(shorter)) by {
            assert(flatten(shorter) == flatten(shorter.drop_last()) + shorter.last());
        }
        assert(x.last() == last.last());
        assert(!starts_section(last.last())) by {
            if n == 1 {
                assert(last.last() == secs[0][last.len() - 1]);
            } else {
                assert(last.last() == secs[n - 1][last.len() - 1]);
            }
        }
        assert(sections_wf(shorter)) by {
            assert forall|k: int| 1 <= k < shorter.len() implies (#[trigger] shorter[k]).len() >= 1 && starts_section(
                shorter[k][0],
            ) && forall|j: int| 1 <= j < shorter[k].len() ==> !starts_section(#[trigger] shorter[k][j]) by {
                if k < n - 1 {
                    assert(shorter[k] == secs[k]);
                } else {
                    assert(shorter[k] == last.drop_last());
                    assert forall|j: int| 1 <= j < shorter[k].len() implies !starts_section(#[trigger] shorter[k][j]) by {
                        assert(shorter[k][j] == secs[k][j]);
                    }
                }
            }
            if n == 1 {
                assert forall|j: int| 0 <= j < shorter[0].len() implies !starts_section(#[trigger] shorter[0][j]) by {
                    assert(shorter[0][j] == secs[0][j]);
                }
            }
        }
        lemma_split_flatten(shorter);
        let s = split_sections(flatten(shorter));
        assert(s.update(s.len() - 1, s.last().push(x.last())) =~= secs) by {
            assert(last.drop_last().push(last.last()) =~= last);
        }
    }
}

} // verus!

verus! {

use crate::proof_section::{proof_columns, lemma_proof_section_stable};

/// No proof line has a number column that starts with `#`: once padded,
/// such a line would start a section of its own.
pub open spec fn proof_numbers_plain(lines: Seq<Seq<char>>) -> bool {
    has_proof_section(lines) ==> {
        let secs = split_sections(lines.subrange(1, lines.len() as int));
        forall|j: int| 1 <= j < secs[3].len() ==> !starts_section(proof_columns(#[trigger] secs[3][j]).0)
    }
}

proof fn lemma_rendered_rows_plain(s: Seq<Seq<char>>, lib: LibraryData, refs: References, names: Seq<Seq<char>>)
    requires
        s.len() >= 1,
        forall|j: int| 1 <= j < s.len() ==> !starts_section(proof_columns(#[trigger] s[j]).0),
    ensures
        ({
            let t = chars_of(spec_proof_section(s, lib, refs, names));
            &&& t.len() == s.len()
            &&& t[0] == s[0]
            &&& forall|j: int| 1 <= j < t.len() ==> !starts_section(#[trigger] t[j])
        }),
{
    let out = spec_proof_section(s, lib, refs, names);
    let t = chars_of(out);
    let body = s.subrange(1, s.len() as int);
    assert forall|j: int| 1 <= j < t.len() implies !starts_section(#[trigger] t[j]) by {
        let w0 = crate::proof_section::column_width(body, 0);
        let w1 = crate::proof_section::column_width(body, 1);
        let w2 = crate::proof_section::column_width(body, 2);
        let row = crate::proof_section::proof_row(body[j - 1], j - 1, names, lib, refs);
        assert(body[j - 1] == s[j]);
        assert(t[j] == crate::proof_section::render_row(row, w0, w1, w2).chars);
        let ln = row.line_no;
        if ln.len() > 0 {
            assert(t[j][0] == ln[0]);
        } else {
            assert(t[j][0] == ' ') by {
                let p = crate::proof_section::padded(ln, w0);
                if p.len() > 0 {
                    assert(t[j][0] == p[0]);
                } else {
                    assert(t[j][0] == crate::proof_section::separator()[0]);
                }
            }
        }
    }
}

proof fn lemma_flatten_first_four(secs: Seq<Seq<Seq<char>>>)
    requires
        secs.len() >= 4,
    ensures
        flatten(secs) == secs[0] + secs[1] + secs[2] + secs[3] + flatten(secs.subrange(4, secs.len() as int)),
{
    lemma_flatten_split(secs, 4);
    assert(secs.subrange(0, 4).drop_last() =~= secs.subrange(0, 3));
    assert(secs.subrange(0, 3).drop_last() =~= secs.subrange(0, 2));
    assert(secs.subrange(0, 2).drop_last() =~= secs.subrange(0, 1));
    assert(secs.subrange(0, 1) =~= seq![secs[0]]);
    lemma_flatten_single(secs[0]);
    assert(secs.subrange(0, 2).last() == secs[1]);
    assert(secs.subrange(0, 3).last() == secs[2]);
    assert(secs.subrange(0, 4).last() == secs[3]);
    assert(flatten(secs.subrange(0, 2)) == secs[0] + secs[1]);
    assert(flatten(secs.subrange(0, 3)) == secs[0] + secs[1] + secs[2]);
    assert(flatten(secs.subrange(0, 4)) == secs[0] + secs[1] + secs[2] + secs[3]);
}

/// The text that a parse of a file with a proof section shows: its
/// sections, with the proof section rendered.
proof fn lemma_rendered_theorem(lines: Seq<Seq<char>>, lib: LibraryData, refs: References)
    requires
        has_proof_section(lines),
    ensures
        ({
            let rest = lines.subrange(1, lines.len() as int);
            let secs = split_sections(rest);
            let syns = lib.syntax_views();
            let names = spec_hypothesis_section(secs[1], syns).1;
            let t3 = chars_of(spec_proof_section(secs[3], lib, refs, names));
            let r = chars_of(spec_parse_file(lines, lib, refs));
            &&& r[0] == lines[0]
            &&& r.subrange(1, r.len() as int) == flatten(secs.update(3, t3))
        }),
{
    let out = spec_parse_file(lines, lib, refs);
    let r = chars_of(out);
    let (title, kind) = spec_parse_title(lines[0]);
    let rest = lines.subrange(1, lines.len() as int);
    let secs = split_sections(rest);
    let n = secs.len() as int;
    let syns = lib.syntax_views();
    let (s1, names) = spec_hypothesis_section(secs[1], syns);
    let s2 = spec_assertion_section(secs[2], syns, LineContext::UnprovenAssertion);
    let s3 = spec_proof_section(secs[3], lib, refs, names);
    let extra = if 4 < n {
        flatten(secs.subrange(4, n))
    } else {
        Seq::empty()
    };
    let raw = mono_lines(LineContext::Raw, secs[0], no_color());
    assert(out == seq![title] + raw + (s1 + s2 + s3) + unexpected_lines(extra));
    lemma_sections_keep_chars(secs[1], lib, None);
    lemma_sections_keep_chars(secs[2], lib, None);
    lemma_chars_of_mono(LineContext::Raw, secs[0], no_color());
    lemma_chars_of_mono(LineContext::UnexpectedLine, extra, fg(Color::Red));
    lemma_chars_of_concat(seq![title] + raw + (s1 + s2 + s3), unexpected_lines(extra));
    lemma_chars_of_concat(seq![title] + raw, s1 + s2 + s3);
    lemma_chars_of_concat(seq![title], raw);
    lemma_chars_of_concat(s1 + s2, s3);
    lemma_chars_of_concat(s1, s2);
    assert(chars_of(seq![title]) =~= seq![lines[0]]);
    let t3 = chars_of(s3);
    let secs2 = secs.update(3, t3);
    lemma_flatten_first_four(secs2);
    assert(secs2.subrange(4, n) =~= secs.subrange(4, n));
    if n == 4 {
        assert(secs.subrange(4, 4) =~= Seq::<Seq<Seq<char>>>::empty());
    }
    assert(r =~= seq![lines[0]] + flatten(secs2));
}

/// Parsing the text that a parse shows gives the same lines again, for any
/// file whose proof lines do not number themselves with a leading `#`.
pub proof fn lemma_round_trip(lines: Seq<Seq<char>>, lib: LibraryData, refs: References)
    requires
        proof_numbers_plain(lines),
    ensures
        spec_parse_file(chars_of(spec_parse_file(lines, lib, refs)), lib, refs) == spec_parse_file(lines, lib, refs),
{
    if !has_proof_section(lines) {
        lemma_reparse_is_stable(lines, lib, refs);
    } else {
        let out = spec_parse_file(lines, lib, refs);
        let r = chars_of(out);
        let rest = lines.subrange(1, lines.len() as int);
        let secs = split_sections(rest);
        let n = secs.len() as int;
        let syns = lib.syntax_views();
        lemma_split_wf(rest);
        let names = spec_hypothesis_section(secs[1], syns).1;
        let s3 = spec_proof_section(secs[3], lib, refs, names);
        let t3 = chars_of(s3);
        let secs2 = secs.update(3, t3);
        lemma_rendered_theorem(lines, lib, refs);
        lemma_rendered_rows_plain(secs[3], lib, refs, names);
        assert(sections_wf(secs2)) by {
            assert forall|k: int| 1 <= k < secs2.len() implies (#[trigger] secs2[k]).len() >= 1 && starts_section(
                secs2[k][0],
            ) && forall|j: int| 1 <= j < secs2[k].len() ==> !starts_section(#[trigger] secs2[k][j]) by {
                if k != 3 {
                    assert(secs2[k] == secs[k]);
                }
            }
            assert(secs2[0] == secs[0]);
        }
        lemma_split_flatten(secs2);
        lemma_proof_section_stable(secs[3], lib, refs, names);
        assert(t3 == s3.map_values(|l: LineView| l.chars));
        assert(secs2.subrange(4, n) =~= secs.subrange(4, n));
        assert(spec_parse_title(r[0]) == spec_parse_title(lines[0]));
        assert(split_sections(r.subrange(1, r.len() as int)) == secs2);
    }
}

} // verus!
