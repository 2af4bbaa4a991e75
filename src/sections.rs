use vstd::prelude::*;
use crate::types::{
    Color, ColorInfo, LineContext, FileLine, LineView, no_color, fg, with_bold, with_underline,
    mono_line, mono_file_line, lines_view, all_wf, text_view, mono_lines, push_mono_lines,
};
use crate::library::{SyntaxType, Syntax, SyntaxView, LibraryData};
use crate::formula::{parse_new_syntax, spec_parse_new_syntax, parse_formula, spec_parse_formula, opt_syntax_view};
use crate::text::{chars_eq_str, copy_chars, slice_chars, find_char, find_first, lemma_find_from_bounds};

verus! {

/// The style of a section header: white, bold and underlined when it is one
/// of the expected names, red otherwise.
pub open spec fn header_color(valid: bool) -> ColorInfo {
    if valid {
        with_underline(with_bold(fg(Color::White)))
    } else {
        fg(Color::Red)
    }
}

pub open spec fn header_line(line: Seq<char>, valid: bool) -> LineView {
    mono_line(LineContext::Section, line, header_color(valid))
}

pub open spec fn unexpected_lines(ls: Seq<Seq<char>>) -> Seq<LineView> {
    mono_lines(LineContext::UnexpectedLine, ls, fg(Color::Red))
}

pub(crate) fn header_file_line(line: &Vec<char>, valid: bool) -> (r: FileLine)
    ensures
        r@ == header_line(line@, valid),
        r@.wf(),
{
    let color = if valid {
        ColorInfo::fg_color(Color::White).bold_underlined()
    } else {
        ColorInfo::fg_color(Color::Red)
    };
    mono_file_line(LineContext::Section, copy_chars(line), color)
}

pub(crate) fn push_line(result: &mut Vec<FileLine>, l: FileLine)
    requires
        all_wf(lines_view(old(result)@)),
        l@.wf(),
    ensures
        lines_view(final(result)@) == lines_view(old(result)@).push(l@),
        all_wf(lines_view(final(result)@)),
{
    let ghost v = l@;
    result.push(l);
    assert(lines_view(result@) =~= lines_view(old(result)@).push(v));
}

/// A syntax section: its header `# Syntax`, the definition line, and
/// unexpected lines after it.
pub open spec fn spec_syntax_section(section: Seq<Seq<char>>, ty: SyntaxType) -> (Seq<LineView>, Option<SyntaxView>) {
    if section.len() == 0 {
        (Seq::empty(), None)
    } else {
        let header = header_line(section[0], section[0] == "# Syntax"@);
        if section.len() == 1 {
            (seq![header], None)
        } else {
            let (def, syn) = spec_parse_new_syntax(section[1], ty);
            (seq![header, def] + unexpected_lines(section.subrange(2, section.len() as int)), syn)
        }
    }
}

pub fn parse_syntax_section(section: Vec<Vec<char>>, syntax_type: SyntaxType) -> (r: (Vec<FileLine>, Option<Syntax>))
    ensures
        (lines_view(r.0@), opt_syntax_view(r.1)) == spec_syntax_section(text_view(section@), syntax_type),
        all_wf(lines_view(r.0@)),
{
    let ghost sv = text_view(section@);
    let mut result: Vec<FileLine> = Vec::new();
    if section.len() == 0 {
        assert(lines_view(result@) =~= Seq::<LineView>::empty());
        return (result, None);
    }
    let valid = chars_eq_str(&section[0], "# Syntax");
    push_line(&mut result, header_file_line(&section[0], valid));
    if section.len() == 1 {
        return (result, None);
    }
    let (def, syn) = parse_new_syntax(copy_chars(&section[1]), syntax_type);
    push_line(&mut result, def);
    push_mono_lines(&mut result, &section, 2, LineContext::UnexpectedLine, ColorInfo::fg_color(Color::Red));
    (result, syn)
}

/// A definition section: its header `# Definition`, the definition line read
/// as a formula with the syntax being defined first, and unexpected lines.
pub open spec fn spec_definition_section(
    section: Seq<Seq<char>>,
    lib: Seq<SyntaxView>,
    new_syntax: Option<SyntaxView>,
) -> Seq<LineView> {
    if section.len() == 0 {
        Seq::empty()
    } else {
        let header = header_line(section[0], section[0] == "# Definition"@);
        if section.len() == 1 {
            seq![header]
        } else {
            seq![header, spec_parse_formula(section[1], lib, new_syntax, LineContext::AssumedAssertion)]
                + unexpected_lines(section.subrange(2, section.len() as int))
        }
    }
}

pub fn parse_definition_section(section: Vec<Vec<char>>, lib_data: &LibraryData, new_syntax: Option<Syntax>) -> (r:
    Vec<FileLine>)
    ensures
        lines_view(r@) == spec_definition_section(
            text_view(section@),
            lib_data.syntax_views(),
            opt_syntax_view(new_syntax),
        ),
        all_wf(lines_view(r@)),
{
    let mut result: Vec<FileLine> = Vec::new();
    if section.len() == 0 {
        assert(lines_view(result@) =~= Seq::<LineView>::empty());
        return result;
    }
    let valid = chars_eq_str(&section[0], "# Definition");
    push_line(&mut result, header_file_line(&section[0], valid));
    if section.len() == 1 {
        return result;
    }
    let def = parse_formula(copy_chars(&section[1]), lib_data, new_syntax, LineContext::AssumedAssertion);
    push_line(&mut result, def);
    push_mono_lines(&mut result, &section, 2, LineContext::UnexpectedLine, ColorInfo::fg_color(Color::Red));
    result
}

/// A hypothesis line `name:formula`: the name unstyled, the formula parsed.
/// A line without `:` is unexpected.
pub open spec fn hypothesis_line(line: Seq<char>, lib: Seq<SyntaxView>) -> LineView {
    match find_first(line, ':') {
        Some(p) => {
            let f = spec_parse_formula(line.subrange(p + 1, line.len() as int), lib, None, LineContext::Hypothesis);
            LineView {
                context: LineContext::Hypothesis,
                chars: line.subrange(0, p + 1) + f.chars,
                colors: Seq::new((p + 1) as nat, |i: int| no_color()) + f.colors,
            }
        },
        None => mono_line(LineContext::UnexpectedLine, line, fg(Color::Red)),
    }
}

/// The names that the hypothesis lines give, in order.
pub open spec fn hypothesis_names(ls: Seq<Seq<char>>) -> Seq<Seq<char>>
    decreases ls.len(),
{
    if ls.len() == 0 {
        Seq::empty()
    } else {
        let rest = hypothesis_names(ls.drop_last());
        match find_first(ls.last(), ':') {
            Some(p) => rest.push(ls.last().subrange(0, p)),
            None => rest,
        }
    }
}

pub open spec fn spec_hypothesis_section(section: Seq<Seq<char>>, lib: Seq<SyntaxView>) -> (Seq<LineView>, Seq<Seq<char>>) {
    if section.len() == 0 {
        (Seq::empty(), Seq::empty())
    } else {
        let valid = section[0] == "# Hypothesis"@ || section[0] == "# Hypotheses"@;
        let body = section.subrange(1, section.len() as int);
        (
            seq![header_line(section[0], valid)] + Seq::new(body.len(), |i: int| hypothesis_line(body[i], lib)),
            hypothesis_names(body),
        )
    }
}

fn parse_hypothesis_line(line: &Vec<char>, lib_data: &LibraryData, names: &mut Vec<Vec<char>>) -> (r: FileLine)
    ensures
        r@ == hypothesis_line(line@, lib_data.syntax_views()),
        r@.wf(),
        text_view(final(names)@) == match find_first(line@, ':') {
            Some(p) => text_view(old(names)@).push(line@.subrange(0, p)),
            None => text_view(old(names)@),
        },
{
    match find_char(line, ':') {
        Some(p) => {
            proof {
                lemma_find_from_bounds(line@, ':', 0);
            }
            let n = line.len();
            assert(p < n);
            let name = slice_chars(line, 0, p);
            let ghost nv = name@;
            names.push(name);
            assert(text_view(names@) =~= text_view(old(names)@).push(nv));
            let f = parse_formula(slice_chars(line, p + 1, line.len()), lib_data, None, LineContext::Hypothesis);
            let mut chars = slice_chars(line, 0, p + 1);
            let mut colors: Vec<ColorInfo> = Vec::new();
            let width = p + 1;
            let mut i: usize = 0;
            while i < width
                invariant
                    i <= width,
                    colors@ =~= Seq::new(i as nat, |j: int| no_color()),
                decreases width - i,
            {
                colors.push(ColorInfo::no_color());
                i += 1;
            }
            let FileLine { context: _, chars: fc, colors: fcol } = f;
            crate::formula::extend_copy(&mut chars, &fc);
            crate::formula::extend_copy(&mut colors, &fcol);
            FileLine { context: LineContext::Hypothesis, chars, colors }
        },
        None => mono_file_line(LineContext::UnexpectedLine, copy_chars(line), ColorInfo::fg_color(Color::Red)),
    }
}

/// A hypothesis section: the header `# Hypothesis` or `# Hypotheses`, then
/// one `name:formula` line per hypothesis. Also gives the names.
pub fn parse_hypotesis_section(section: Vec<Vec<char>>, lib_data: &LibraryData) -> (r: (Vec<FileLine>, Vec<Vec<char>>))
    ensures
        (lines_view(r.0@), text_view(r.1@)) == spec_hypothesis_section(text_view(section@), lib_data.syntax_views()),
        all_wf(lines_view(r.0@)),
{
    let ghost sv = text_view(section@);
    let ghost lib = lib_data.syntax_views();
    let mut result: Vec<FileLine> = Vec::new();
    let mut names: Vec<Vec<char>> = Vec::new();
    if section.len() == 0 {
        assert(lines_view(result@) =~= Seq::<LineView>::empty());
        assert(text_view(names@) =~= Seq::<Seq<char>>::empty());
        return (result, names);
    }
    let valid = chars_eq_str(&section[0], "# Hypothesis") || chars_eq_str(&section[0], "# Hypotheses");
    push_line(&mut result, header_file_line(&section[0], valid));
    let ghost body = sv.subrange(1, sv.len() as int);
    assert(text_view(names@) =~= hypothesis_names(body.subrange(0, 0)));
    let mut i: usize = 1;
    while i < section.len()
        invariant
            1 <= i <= section@.len(),
            sv == text_view(section@),
            lib == lib_data.syntax_views(),
            body == sv.subrange(1, sv.len() as int),
            lines_view(result@) =~= seq![header_line(sv[0], valid)] + Seq::new(
                (i - 1) as nat,
                |j: int| hypothesis_line(body[j], lib),
            ),
            text_view(names@) == hypothesis_names(body.subrange(0, i - 1)),
            all_wf(lines_view(result@)),
        decreases section.len() - i,
    {
        let l = parse_hypothesis_line(&section[i], lib_data, &mut names);
        push_line(&mut result, l);
        assert(body.subrange(0, i as int).drop_last() =~= body.subrange(0, i - 1));
        i += 1;
    }
    assert(body.subrange(0, body.len() as int) =~= body);
    (result, names)
}

/// Whether the header of an assertion section is expected: an axiom's first
/// section is headed `# Hypothesis` or `# Hypotheses`, any other
/// `# Assertion` or `# Assertions`.
pub open spec fn assertion_header_valid(line: Seq<char>, ctx: LineContext) -> bool {
    if ctx == LineContext::AxiomHypothesis {
        line == "# Hypothesis"@ || line == "# Hypotheses"@
    } else {
        line == "# Assertion"@ || line == "# Assertions"@
    }
}

/// An assertion section: the header, then one formula per line.
pub open spec fn spec_assertion_section(section: Seq<Seq<char>>, lib: Seq<SyntaxView>, ctx: LineContext) -> Seq<LineView> {
    if section.len() == 0 {
        Seq::empty()
    } else {
        let body = section.subrange(1, section.len() as int);
        seq![header_line(section[0], assertion_header_valid(section[0], ctx))] + Seq::new(
            body.len(),
            |i: int| spec_parse_formula(body[i], lib, None, ctx),
        )
    }
}

pub fn parse_assertion_section(section: Vec<Vec<char>>, lib_data: &LibraryData, context: LineContext) -> (r: Vec<
    FileLine,
>)
    ensures
        lines_view(r@) == spec_assertion_section(text_view(section@), lib_data.syntax_views(), context),
        all_wf(lines_view(r@)),
{
    let ghost sv = text_view(section@);
    let ghost lib = lib_data.syntax_views();
    let mut result: Vec<FileLine> = Vec::new();
    if section.len() == 0 {
        assert(lines_view(result@) =~= Seq::<LineView>::empty());
        return result;
    }
    let first = &section[0];
    let valid = match context {
        LineContext::AxiomHypothesis => chars_eq_str(first, "# Hypothesis") || chars_eq_str(first, "# Hypotheses"),
        _ => chars_eq_str(first, "# Assertion") || chars_eq_str(first, "# Assertions"),
    };
    push_line(&mut result, header_file_line(first, valid));
    let ghost body = sv.subrange(1, sv.len() as int);
    let mut i: usize = 1;
    while i < section.len()
        invariant
            1 <= i <= section@.len(),
            sv == text_view(section@),
            lib == lib_data.syntax_views(),
            body == sv.subrange(1, sv.len() as int),
            lines_view(result@) =~= seq![header_line(sv[0], valid)] + Seq::new(
                (i - 1) as nat,
                |j: int| spec_parse_formula(body[j], lib, None, context),
            ),
            all_wf(lines_view(result@)),
        decreases section.len() - i,
    {
        let l = parse_formula(copy_chars(&section[i]), lib_data, None, context);
        push_line(&mut result, l);
        i += 1;
    }
    result
}

} // verus!
