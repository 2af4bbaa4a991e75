use vstd::prelude::*;
use crate::types::{
    Color, ColorInfo, LineContext, FileLine, FileType, LineView, no_color, fg_bg, with_underline, mono_line,
    mono_file_line, lines_view, all_wf, text_view, mono_lines, push_mono_lines,
};
use crate::library::{SyntaxType, LibraryData, References};
use crate::sections::{
    parse_syntax_section, spec_syntax_section, parse_definition_section, spec_definition_section,
    parse_hypotesis_section, spec_hypothesis_section, parse_assertion_section, spec_assertion_section,
    unexpected_lines,
};
use crate::proof_section::{parse_proof_section, spec_proof_section};
use crate::text::{chars_eq_str, copy_chars, slice_chars};

verus! {

/// The last index of `c` in `s` before `j`.
pub open spec fn rfind_before(s: Seq<char>, c: char, j: int) -> Option<int>
    decreases j,
{
    if j <= 0 || j > s.len() {
        None
    } else if s[j - 1] == c {
        Some(j - 1)
    } else {
        rfind_before(s, c, j - 1)
    }
}

pub open spec fn is_ascii_alnum(c: char) -> bool {
    ('0' <= c && c <= '9') || ('a' <= c && c <= 'z') || ('A' <= c && c <= 'Z')
}

/// The file type that a title names, if it is one of the four kinds.
pub open spec fn title_kind(title: Seq<char>) -> FileType {
    if title == "## Syntax Definition (formula)"@ {
        FileType::SyntaxDefinitionFormula
    } else if title == "## Syntax Definition (object)"@ {
        FileType::SyntaxDefinitionObject
    } else if title == "## Axiom"@ {
        FileType::Axiom
    } else if title == "## Theorem"@ {
        FileType::Theorem
    } else {
        FileType::Unknown
    }
}

/// The first line of a file, `## Kind Name`, split at its last space: the
/// kind on a blue background when it is known (red otherwise), the name on
/// cyan when it is ASCII alphanumeric (red otherwise), all underlined. A line
/// that does not start with `##`, or has no space, is raw.
pub open spec fn spec_parse_title(line: Seq<char>) -> (LineView, FileType) {
    let raw = (mono_line(LineContext::Raw, line, no_color()), FileType::Unknown);
    if !(line.len() >= 2 && line[0] == '#' && line[1] == '#') {
        raw
    } else {
        match rfind_before(line, ' ', line.len() as int) {
            None => raw,
            Some(i) => {
                let title = line.subrange(0, i);
                let name = line.subrange(i + 1, line.len() as int);
                let kind = title_kind(title);
                let bg = if kind == FileType::Unknown {
                    Color::Red
                } else {
                    Color::Blue
                };
                let name_ok = forall|k: int| 0 <= k < name.len() ==> is_ascii_alnum(#[trigger] name[k]);
                let name_color = with_underline(
                    fg_bg(
                        Color::Black,
                        if name_ok {
                            Color::Cyan
                        } else {
                            Color::Red
                        },
                    ),
                );
                (
                    LineView {
                        context: LineContext::Title,
                        chars: line,
                        colors: Seq::new((i + 1) as nat, |k: int| with_underline(fg_bg(Color::Black, bg)))
                            + Seq::new(name.len(), |k: int| name_color),
                    },
                    kind,
                )
            },
        }
    }
}

pub fn parse_title(line: Vec<char>) -> (r: (FileLine, FileType))
    ensures
        (r.0@, r.1) == spec_parse_title(line@),
        r.0@.wf(),
{
    if !(line.len() >= 2 && line[0] == '#' && line[1] == '#') {
        return (mono_file_line(LineContext::Raw, line, ColorInfo::no_color()), FileType::Unknown);
    }
    let mut j: usize = line.len();
    while j > 0 && line[j - 1] != ' '
        invariant
            j <= line@.len(),
            rfind_before(line@, ' ', line@.len() as int) == rfind_before(line@, ' ', j as int),
        decreases j,
    {
        j -= 1;
    }
    if j == 0 {
        return (mono_file_line(LineContext::Raw, line, ColorInfo::no_color()), FileType::Unknown);
    }
    let i = j - 1;
    let title = slice_chars(&line, 0, i);
    let n = line.len();
    let name = slice_chars(&line, i + 1, n);
    let kind = if chars_eq_str(&title, "## Syntax Definition (formula)") {
        FileType::SyntaxDefinitionFormula
    } else if chars_eq_str(&title, "## Syntax Definition (object)") {
        FileType::SyntaxDefinitionObject
    } else if chars_eq_str(&title, "## Axiom") {
        FileType::Axiom
    } else if chars_eq_str(&title, "## Theorem") {
        FileType::Theorem
    } else {
        FileType::Unknown
    };
    let bg = match kind {
        FileType::Unknown => Color::Red,
        _ => Color::Blue,
    };
    let mut name_ok = true;
    let mut k: usize = 0;
    while k < name.len()
        invariant
            k <= name@.len(),
            name_ok == (forall|m: int| 0 <= m < k ==> is_ascii_alnum(#[trigger] name@[m])),
        decreases name.len() - k,
    {
        let c = name[k];
        if !(('0' <= c && c <= '9') || ('a' <= c && c <= 'z') || ('A' <= c && c <= 'Z')) {
            name_ok = false;
        }
        k += 1;
    }
    let name_color = ColorInfo::fg_bg_color(Color::Black, if name_ok { Color::Cyan } else { Color::Red }).underlined();
    let mut colors: Vec<ColorInfo> = Vec::new();
    crate::formula::push_repeated(&mut colors, ColorInfo::fg_bg_color(Color::Black, bg).underlined(), i + 1);
    crate::formula::push_repeated(&mut colors, name_color, name.len());
    (FileLine { context: LineContext::Title, chars: line, colors }, kind)
}

} // verus!

verus! {

pub open spec fn starts_section(l: Seq<char>) -> bool {
    l.len() > 0 && l[0] == '#'
}

/// The lines after the title, split before each line that starts with `#`.
/// The first part holds the lines before the first such line, and may be empty.
pub open spec fn split_sections(ls: Seq<Seq<char>>) -> Seq<Seq<Seq<char>>>
    decreases ls.len(),
{
    if ls.len() == 0 {
        seq![Seq::empty()]
    } else {
        let s = split_sections(ls.drop_last());
        if starts_section(ls.last()) {
            s.push(seq![ls.last()])
        } else {
            s.update(s.len() - 1, s.last().push(ls.last()))
        }
    }
}

pub open spec fn flatten(secs: Seq<Seq<Seq<char>>>) -> Seq<Seq<char>>
    decreases secs.len(),
{
    if secs.len() == 0 {
        Seq::empty()
    } else {
        flatten(secs.drop_last()) + secs.last()
    }
}

/// Sections from `k` on, if there are any.
pub open spec fn section_opt(secs: Seq<Seq<Seq<char>>>, k: int) -> Option<Seq<Seq<char>>> {
    if 0 <= k < secs.len() {
        Some(secs[k])
    } else {
        None
    }
}

/// The lines of the sections that a file type expects, and how many
/// sections it expects.
pub open spec fn typed_sections(
    kind: FileType,
    secs: Seq<Seq<Seq<char>>>,
    lib: LibraryData,
    refs: References,
) -> (Seq<LineView>, int) {
    let syns = lib.syntax_views();
    match kind {
        FileType::SyntaxDefinitionFormula | FileType::SyntaxDefinitionObject => {
            let ty = if kind == FileType::SyntaxDefinitionFormula {
                SyntaxType::Formula
            } else {
                SyntaxType::Object
            };
            match section_opt(secs, 1) {
                None => (Seq::empty(), 2),
                Some(s1) => {
                    let (l1, syn) = spec_syntax_section(s1, ty);
                    match section_opt(secs, 2) {
                        None => (l1, 3),
                        Some(s2) => (l1 + spec_definition_section(s2, syns, syn), 3),
                    }
                },
            }
        },
        FileType::Axiom => {
            let l1 = match section_opt(secs, 1) {
                None => Seq::empty(),
                Some(s1) => spec_assertion_section(s1, syns, LineContext::AxiomHypothesis),
            };
            let l2 = match section_opt(secs, 2) {
                None => Seq::empty(),
                Some(s2) => spec_assertion_section(s2, syns, LineContext::AssumedAssertion),
            };
            (l1 + l2, 3)
        },
        FileType::Theorem => match section_opt(secs, 1) {
            None => (Seq::empty(), 4),
            Some(s1) => {
                let (l1, names) = spec_hypothesis_section(s1, syns);
                let l2 = match section_opt(secs, 2) {
                    None => Seq::empty(),
                    Some(s2) => spec_assertion_section(s2, syns, LineContext::UnprovenAssertion),
                };
                let l3 = match section_opt(secs, 3) {
                    None => Seq::empty(),
                    Some(s3) => spec_proof_section(s3, lib, refs, names),
                };
                (l1 + l2 + l3, 4)
            },
        },
        FileType::Unknown => (
            mono_lines(LineContext::Raw, flatten(secs.subrange(1, secs.len() as int)), no_color()),
            secs.len() as int,
        ),
    }
}

/// A whole file: the title, raw lines up to the first section, the sections
/// that the file type expects, and any further lines as unexpected.
pub open spec fn spec_parse_file(lines: Seq<Seq<char>>, lib: LibraryData, refs: References) -> Seq<LineView> {
    if lines.len() == 0 {
        Seq::empty()
    } else {
        let (title, kind) = spec_parse_title(lines[0]);
        let secs = split_sections(lines.subrange(1, lines.len() as int));
        let (body, used) = typed_sections(kind, secs, lib, refs);
        let extra = if used < secs.len() {
            flatten(secs.subrange(used, secs.len() as int))
        } else {
            Seq::empty()
        };
        seq![title] + mono_lines(LineContext::Raw, secs[0], no_color()) + body + unexpected_lines(extra)
    }
}

} // verus!

verus! {

pub open spec fn sections_view(v: Seq<Vec<Vec<char>>>) -> Seq<Seq<Seq<char>>> {
    v.map_values(|s: Vec<Vec<char>>| text_view(s@))
}

fn copy_section(s: &Vec<Vec<char>>) -> (r: Vec<Vec<char>>)
    ensures
        text_view(r@) == text_view(s@),
{
    let mut r: Vec<Vec<char>> = Vec::new();
    let mut i: usize = 0;
    while i < s.len()
        invariant
            i <= s@.len(),
            text_view(r@) =~= text_view(s@).subrange(0, i as int),
        decreases s.len() - i,
    {
        let l = copy_chars(&s[i]);
        let ghost lv = l@;
        r.push(l);
        assert(text_view(r@) =~= text_view(s@).subrange(0, i as int).push(lv));
        i += 1;
    }
    assert(text_view(s@).subrange(0, s@.len() as int) =~= text_view(s@));
    r
}

/// Splits the lines after the title into sections.
fn split_into_sections(lines: &Vec<Vec<char>>) -> (r: Vec<Vec<Vec<char>>>)
    requires
        lines@.len() >= 1,
    ensures
        sections_view(r@) == split_sections(text_view(lines@).subrange(1, lines@.len() as int)),
{
    let ghost rest = text_view(lines@).subrange(1, lines@.len() as int);
    let mut secs: Vec<Vec<Vec<char>>> = Vec::new();
    let mut temp: Vec<Vec<char>> = Vec::new();
    assert(rest.subrange(0, 0) =~= Seq::<Seq<char>>::empty());
    assert(text_view(temp@) =~= Seq::<Seq<char>>::empty());
    assert(sections_view(secs@) =~= Seq::<Seq<Seq<char>>>::empty());
    assert(sections_view(secs@).push(text_view(temp@)) =~= seq![Seq::<Seq<char>>::empty()]);
    let mut j: usize = 1;
    while j < lines.len()
        invariant
            1 <= j <= lines@.len(),
            rest == text_view(lines@).subrange(1, lines@.len() as int),
            sections_view(secs@).push(text_view(temp@)) == split_sections(rest.subrange(0, j - 1)),
        decreases lines.len() - j,
    {
        let line = copy_chars(&lines[j]);
        let ghost lv = line@;
        let ghost pre = rest.subrange(0, j as int);
        assert(pre.drop_last() =~= rest.subrange(0, j - 1));
        assert(pre.last() == lv);
        let ghost s = split_sections(rest.subrange(0, j - 1));
        if line.len() > 0 && line[0] == '#' {
            let done = temp;
            let ghost dv = text_view(done@);
            secs.push(done);
            assert(sections_view(secs@) =~= sections_view(secs@).subrange(0, secs@.len() - 1).push(dv));
            temp = Vec::new();
            temp.push(line);
            assert(text_view(temp@) =~= seq![lv]);
            assert(sections_view(secs@) =~= s);
        } else {
            let ghost tv = text_view(temp@);
            temp.push(line);
            assert(text_view(temp@) =~= tv.push(lv));
            assert(sections_view(secs@).push(text_view(temp@)) =~= s.update(s.len() - 1, s.last().push(lv)));
        }
        j += 1;
    }
    assert(rest.subrange(0, rest.len() as int) =~= rest);
    let ghost tv = text_view(temp@);
    let ghost sv = sections_view(secs@);
    secs.push(temp);
    assert(sections_view(secs@) =~= sv.push(tv));
    secs
}

proof fn lemma_split_nonempty(ls: Seq<Seq<char>>)
    ensures
        split_sections(ls).len() >= 1,
    decreases ls.len(),
{
    if ls.len() > 0 {
        lemma_split_nonempty(ls.drop_last());
    }
}

/// Appends the lines of sections `from..` of `secs`, each in one style.
fn push_sections(result: &mut Vec<FileLine>, secs: &Vec<Vec<Vec<char>>>, from: usize, ctx: LineContext, c: ColorInfo)
    requires
        all_wf(lines_view(old(result)@)),
        from <= secs@.len(),
    ensures
        lines_view(final(result)@) == lines_view(old(result)@) + mono_lines(
            ctx,
            flatten(sections_view(secs@).subrange(from as int, secs@.len() as int)),
            c,
        ),
        all_wf(lines_view(final(result)@)),
{
    let ghost sv = sections_view(secs@);
    let mut k: usize = from;
    assert(sv.subrange(from as int, from as int) =~= Seq::<Seq<Seq<char>>>::empty());
    assert(mono_lines(ctx, flatten(sv.subrange(from as int, from as int)), c) =~= Seq::<LineView>::empty());
    assert(lines_view(result@) =~= lines_view(old(result)@) + mono_lines(
        ctx,
        flatten(sv.subrange(from as int, k as int)),
        c,
    ));
    while k < secs.len()
        invariant
            from <= k <= secs@.len(),
            sv == sections_view(secs@),
            lines_view(result@) =~= lines_view(old(result)@) + mono_lines(
                ctx,
                flatten(sv.subrange(from as int, k as int)),
                c,
            ),
            all_wf(lines_view(result@)),
        decreases secs.len() - k,
    {
        let ghost before = lines_view(result@);
        push_mono_lines(result, &secs[k], 0, ctx, c);
        let ghost sub = sv.subrange(from as int, k + 1);
        assert(sub.drop_last() =~= sv.subrange(from as int, k as int));
        assert(text_view(secs@[k as int]@).subrange(0, secs@[k as int]@.len() as int) =~= sv[k as int]);
        assert(mono_lines(ctx, flatten(sub), c) =~= mono_lines(ctx, flatten(sv.subrange(from as int, k as int)), c)
            + mono_lines(ctx, sv[k as int], c));
        k += 1;
    }
}

fn append_lines(result: &mut Vec<FileLine>, more: Vec<FileLine>)
    requires
        all_wf(lines_view(old(result)@)),
        all_wf(lines_view(more@)),
    ensures
        lines_view(final(result)@) == lines_view(old(result)@) + lines_view(more@),
        all_wf(lines_view(final(result)@)),
{
    let ghost mv = lines_view(more@);
    let mut more = more;
    result.append(&mut more);
    assert(lines_view(result@) =~= lines_view(old(result)@) + mv);
}

fn syntax_definition_body(
    ty: SyntaxType,
    secs: &Vec<Vec<Vec<char>>>,
    lib_data: &LibraryData,
    references: &References,
) -> (r: Vec<FileLine>)
    ensures
        lines_view(r@) == typed_sections(
            if ty == SyntaxType::Formula {
                FileType::SyntaxDefinitionFormula
            } else {
                FileType::SyntaxDefinitionObject
            },
            sections_view(secs@),
            *lib_data,
            *references,
        ).0,
        all_wf(lines_view(r@)),
{
    let mut result: Vec<FileLine> = Vec::new();
    assert(lines_view(result@) =~= Seq::<LineView>::empty());
    let n = secs.len();
    if n >= 2 {
        let (l1, syn) = parse_syntax_section(copy_section(&secs[1]), ty);
        append_lines(&mut result, l1);
        if n >= 3 {
            let l2 = parse_definition_section(copy_section(&secs[2]), lib_data, syn);
            append_lines(&mut result, l2);
        }
    }
    proof {
        assert(lines_view(result@) =~= typed_sections(
            if ty == SyntaxType::Formula {
                FileType::SyntaxDefinitionFormula
            } else {
                FileType::SyntaxDefinitionObject
            },
            sections_view(secs@),
            *lib_data,
            *references,
        ).0);
    }
    result
}

fn axiom_body(secs: &Vec<Vec<Vec<char>>>, lib_data: &LibraryData, references: &References) -> (r: Vec<FileLine>)
    ensures
        lines_view(r@) == typed_sections(FileType::Axiom, sections_view(secs@), *lib_data, *references).0,
        all_wf(lines_view(r@)),
{
    let mut result: Vec<FileLine> = Vec::new();
    assert(lines_view(result@) =~= Seq::<LineView>::empty());
    let n = secs.len();
    if n >= 2 {
        let l1 = parse_assertion_section(copy_section(&secs[1]), lib_data, LineContext::AxiomHypothesis);
        append_lines(&mut result, l1);
    }
    if n >= 3 {
        let l2 = parse_assertion_section(copy_section(&secs[2]), lib_data, LineContext::AssumedAssertion);
        append_lines(&mut result, l2);
    }
    assert(lines_view(result@) =~= typed_sections(FileType::Axiom, sections_view(secs@), *lib_data, *references).0);
    result
}

fn theorem_body(secs: &Vec<Vec<Vec<char>>>, lib_data: &LibraryData, references: &References) -> (r: Vec<FileLine>)
    ensures
        lines_view(r@) == typed_sections(FileType::Theorem, sections_view(secs@), *lib_data, *references).0,
        all_wf(lines_view(r@)),
{
    let mut result: Vec<FileLine> = Vec::new();
    assert(lines_view(result@) =~= Seq::<LineView>::empty());
    let n = secs.len();
    if n >= 2 {
        let (l1, names) = parse_hypotesis_section(copy_section(&secs[1]), lib_data);
        append_lines(&mut result, l1);
        if n >= 3 {
            let l2 = parse_assertion_section(copy_section(&secs[2]), lib_data, LineContext::UnprovenAssertion);
            append_lines(&mut result, l2);
        }
        if n >= 4 {
            let l3 = parse_proof_section(copy_section(&secs[3]), lib_data, references, names);
            append_lines(&mut result, l3);
        }
    }
    assert(lines_view(result@) =~= typed_sections(FileType::Theorem, sections_view(secs@), *lib_data, *references).0);
    result
}

/// Parses a whole file: the title decides the file type, and the type
/// decides how each section is read.
pub fn parse_file(lines: Vec<Vec<char>>, lib_data: &LibraryData, references: &References) -> (r: Vec<FileLine>)
    ensures
        lines_view(r@) == spec_parse_file(text_view(lines@), *lib_data, *references),
        all_wf(lines_view(r@)),
{
    let mut result: Vec<FileLine> = Vec::new();
    if lines.len() == 0 {
        assert(lines_view(result@) =~= Seq::<LineView>::empty());
        return result;
    }
    let ghost lv = text_view(lines@);
    let (title, kind) = parse_title(copy_chars(&lines[0]));
    crate::sections::push_line(&mut result, title);
    let secs = split_into_sections(&lines);
    let ghost sv = sections_view(secs@);
    proof {
        lemma_split_nonempty(lv.subrange(1, lv.len() as int));
    }
    push_mono_lines(&mut result, &secs[0], 0, LineContext::Raw, ColorInfo::no_color());
    assert(text_view(secs@[0]@).subrange(0, secs@[0]@.len() as int) =~= sv[0]);
    let n = secs.len();
    let used: usize = match kind {
        FileType::SyntaxDefinitionFormula => {
            append_lines(&mut result, syntax_definition_body(SyntaxType::Formula, &secs, lib_data, references));
            if n < 2 { 2 } else { 3 }
        },
        FileType::SyntaxDefinitionObject => {
            append_lines(&mut result, syntax_definition_body(SyntaxType::Object, &secs, lib_data, references));
            if n < 2 { 2 } else { 3 }
        },
        FileType::Axiom => {
            append_lines(&mut result, axiom_body(&secs, lib_data, references));
            3
        },
        FileType::Theorem => {
            append_lines(&mut result, theorem_body(&secs, lib_data, references));
            4
        },
        FileType::Unknown => {
            push_sections(&mut result, &secs, 1, LineContext::Raw, ColorInfo::no_color());
            n
        },
    };
    assert(used as int == typed_sections(kind, sv, *lib_data, *references).1);
    if used < n {
        push_sections(&mut result, &secs, used, LineContext::UnexpectedLine, ColorInfo::fg_color(Color::Red));
    } else {
        assert(unexpected_lines(Seq::empty()) =~= Seq::<LineView>::empty());
    }
    result
}

} // verus!
