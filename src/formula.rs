use vstd::prelude::*;
use crate::types::{
    Color, ColorInfo, LineContext, FileLine, LineView, no_color, fg, with_bold, mono_line,
    mono_file_line,
};
use crate::library::{Placeholder, SyntaxType, Syntax, SyntaxView, LibraryData};

verus! {

/// A mathematical italic small letter, U+1D44E to U+1D467.
pub open spec fn is_latin_var(c: char) -> bool {
    0x1D44E <= (c as u32) && (c as u32) <= 0x1D467
}

/// A mathematical italic small Greek letter, U+1D6FC to U+1D714.
pub open spec fn is_greek_var(c: char) -> bool {
    0x1D6FC <= (c as u32) && (c as u32) <= 0x1D714
}

/// The repetition marker, U+2026.
pub open spec fn is_ellipsis(c: char) -> bool {
    c == '\u{2026}'
}

pub open spec fn wff_var_color() -> ColorInfo {
    with_bold(fg(Color::Blue))
}

pub open spec fn wff_singleton_color() -> ColorInfo {
    fg(Color::Green)
}

pub open spec fn wff_syntax_color() -> ColorInfo {
    fg(Color::Cyan)
}

pub open spec fn obj_var_color() -> ColorInfo {
    with_bold(fg(Color::Red))
}

pub open spec fn obj_singleton_color() -> ColorInfo {
    fg(Color::Yellow)
}

pub open spec fn obj_syntax_color() -> ColorInfo {
    fg(Color::Magenta)
}

pub open spec fn new_syntax_color() -> ColorInfo {
    fg(Color::White)
}

fn is_latin_var_exec(c: char) -> (r: bool)
    ensures
        r == is_latin_var(c),
{
    0x1D44E <= (c as u32) && (c as u32) <= 0x1D467
}

fn is_greek_var_exec(c: char) -> (r: bool)
    ensures
        r == is_greek_var(c),
{
    0x1D6FC <= (c as u32) && (c as u32) <= 0x1D714
}

/// The index of the first occurrence of `c` in `vars`, if any.
pub open spec fn var_index(vars: Seq<char>, c: char) -> Option<nat>
    decreases vars.len(),
{
    if vars.len() == 0 {
        None
    } else if vars.last() == c {
        match var_index(vars.drop_last(), c) {
            Some(i) => Some(i),
            None => Some((vars.len() - 1) as nat),
        }
    } else {
        var_index(vars.drop_last(), c)
    }
}

/// What reading a syntax definition has built so far.
pub struct NewSyntaxScan {
    pub chars: Seq<char>,
    pub colors: Seq<ColorInfo>,
    pub formula: Seq<Placeholder>,
    /// The formula metavariables in order of first occurrence.
    pub wff_vars: Seq<char>,
    /// The object metavariables in order of first occurrence.
    pub obj_vars: Seq<char>,
}

/// One more character of a syntax definition. A metavariable seen before
/// keeps its id; a new one gets the next free id of its kind.
pub open spec fn scan_step(st: NewSyntaxScan, c: char) -> NewSyntaxScan {
    if c == ' ' {
        NewSyntaxScan { chars: st.chars.push(c), colors: st.colors.push(no_color()), ..st }
    } else if is_ellipsis(c) {
        NewSyntaxScan {
            chars: st.chars.push(c),
            colors: st.colors.push(fg(Color::Black)),
            formula: st.formula.push(Placeholder::Repetition),
            ..st
        }
    } else if is_latin_var(c) {
        let (id, vars) = match var_index(st.wff_vars, c) {
            Some(i) => (i, st.wff_vars),
            None => (st.wff_vars.len(), st.wff_vars.push(c)),
        };
        NewSyntaxScan {
            chars: st.chars.push(c),
            colors: st.colors.push(obj_var_color()),
            formula: st.formula.push(Placeholder::WellFormedFormula(id as usize)),
            wff_vars: vars,
            ..st
        }
    } else if is_greek_var(c) {
        let (id, vars) = match var_index(st.obj_vars, c) {
            Some(i) => (i, st.obj_vars),
            None => (st.obj_vars.len(), st.obj_vars.push(c)),
        };
        NewSyntaxScan {
            chars: st.chars.push(c),
            colors: st.colors.push(wff_var_color()),
            formula: st.formula.push(Placeholder::Object(id as usize)),
            obj_vars: vars,
            ..st
        }
    } else {
        NewSyntaxScan {
            chars: st.chars.push(c),
            colors: st.colors.push(new_syntax_color()),
            formula: st.formula.push(Placeholder::LiteralChar(c)),
            ..st
        }
    }
}

/// The scan of a whole syntax definition line.
pub open spec fn scan_new_syntax(line: Seq<char>) -> NewSyntaxScan
    decreases line.len(),
{
    if line.len() == 0 {
        NewSyntaxScan {
            chars: Seq::empty(),
            colors: Seq::empty(),
            formula: Seq::empty(),
            wff_vars: Seq::empty(),
            obj_vars: Seq::empty(),
        }
    } else {
        scan_step(scan_new_syntax(line.drop_last()), line.last())
    }
}

/// The styled line and the syntax that a syntax definition line defines.
pub open spec fn spec_parse_new_syntax(line: Seq<char>, ty: SyntaxType) -> (LineView, Option<SyntaxView>) {
    let st = scan_new_syntax(line);
    if line.len() == 0 {
        (LineView { context: LineContext::SyntaxDefinition, chars: line, colors: Seq::empty() }, None)
    } else {
        (
            LineView { context: LineContext::SyntaxDefinition, chars: st.chars, colors: st.colors },
            Some(
                SyntaxView {
                    syntax_type: ty,
                    formula: st.formula,
                    wff_count: st.wff_vars.len(),
                    object_count: st.obj_vars.len(),
                },
            ),
        )
    }
}

/// The position of `c` among `vars`.
fn find_var(vars: &Vec<char>, c: char) -> (r: Option<usize>)
    ensures
        match r {
            Some(i) => var_index(vars@, c) == Some(i as nat),
            None => var_index(vars@, c) is None,
        },
{
    let mut i: usize = 0;
    while i < vars.len()
        invariant
            i <= vars.len(),
            var_index(vars@.subrange(0, i as int), c) is None,
        decreases vars.len() - i,
    {
        if vars[i] == c {
            let ghost s = vars@.subrange(0, i as int + 1);
            assert(s.drop_last() =~= vars@.subrange(0, i as int));
            proof {
                lemma_var_index_prefix(vars@, i as int + 1, c);
            }
            return Some(i);
        }
        let ghost s = vars@.subrange(0, i as int + 1);
        assert(s.drop_last() =~= vars@.subrange(0, i as int));
        i += 1;
    }
    assert(vars@ =~= vars@.subrange(0, vars@.len() as int));
    None
}

/// A first occurrence stays the first occurrence when more follows.
proof fn lemma_var_index_prefix(vars: Seq<char>, n: int, c: char)
    requires
        0 <= n <= vars.len(),
        var_index(vars.subrange(0, n), c) is Some,
    ensures
        var_index(vars, c) == var_index(vars.subrange(0, n), c),
    decreases vars.len(),
{
    if vars.len() > n {
        assert(vars.drop_last().subrange(0, n) =~= vars.subrange(0, n));
        lemma_var_index_prefix(vars.drop_last(), n, c);
    } else {
        assert(vars =~= vars.subrange(0, n));
    }
}

/// Reads a syntax definition line: spaces are kept for display only, `…` is a
/// repetition, italic Latin letters are formula metavariables, italic Greek
/// letters are object metavariables, anything else is a literal. An empty
/// line defines nothing.
pub fn parse_new_syntax(line: Vec<char>, syntax_type: SyntaxType) -> (r: (FileLine, Option<Syntax>))
    ensures
        (r.0@, match r.1 { Some(s) => Some(s@), None => None }) == spec_parse_new_syntax(line@, syntax_type),
        r.0@.wf(),
        r.1 matches Some(s) ==> {
            &&& forall|id: usize| #[trigger] crate::laws::uses_wff(s@.formula, id) <==> id < s@.wff_count
            &&& forall|id: usize| #[trigger] crate::laws::uses_obj(s@.formula, id) <==> id < s@.object_count
            &&& s@.wf()
        },
{
    let length = line.len();
    proof {
        if length > 0 {
            crate::laws::lemma_new_syntax_ids_dense(line@, syntax_type);
        }
    }
    if line.len() == 0 {
        assert(line@ =~= Seq::<char>::empty());
        return (FileLine { context: LineContext::SyntaxDefinition, chars: Vec::new(), colors: Vec::new() }, None);
    }
    let mut chars: Vec<char> = Vec::new();
    let mut colors: Vec<ColorInfo> = Vec::new();
    let mut formula: Vec<Placeholder> = Vec::new();
    let mut wff_vars: Vec<char> = Vec::new();
    let mut obj_vars: Vec<char> = Vec::new();
    let mut k: usize = 0;
    while k < line.len()
        invariant
            k <= line@.len(),
            ({
                let st = scan_new_syntax(line@.subrange(0, k as int));
                &&& chars@ == st.chars
                &&& colors@ == st.colors
                &&& formula@ == st.formula
                &&& wff_vars@ == st.wff_vars
                &&& obj_vars@ == st.obj_vars
            }),
            chars@.len() == k,
            colors@.len() == k,
        decreases line.len() - k,
    {
        let c = line[k];
        let ghost prefix = line@.subrange(0, k as int + 1);
        assert(prefix.drop_last() =~= line@.subrange(0, k as int));
        assert(prefix.last() == c);
        chars.push(c);
        if c == ' ' {
            colors.push(ColorInfo::no_color());
        } else if c == '\u{2026}' {
            colors.push(ColorInfo::fg_color(Color::Black));
            formula.push(Placeholder::Repetition);
        } else if is_latin_var_exec(c) {
            colors.push(ColorInfo::fg_color(Color::Red).bold());
            match find_var(&wff_vars, c) {
                Some(id) => formula.push(Placeholder::WellFormedFormula(id)),
                None => {
                    formula.push(Placeholder::WellFormedFormula(wff_vars.len()));
                    wff_vars.push(c);
                },
            }
        } else if is_greek_var_exec(c) {
            colors.push(ColorInfo::fg_color(Color::Blue).bold());
            match find_var(&obj_vars, c) {
                Some(id) => formula.push(Placeholder::Object(id)),
                None => {
                    formula.push(Placeholder::Object(obj_vars.len()));
                    obj_vars.push(c);
                },
            }
        } else {
            colors.push(ColorInfo::fg_color(Color::White));
            formula.push(Placeholder::LiteralChar(c));
        }
        k += 1;
    }
    assert(line@ =~= line@.subrange(0, line@.len() as int));
    let wff_count = wff_vars.len();
    let object_count = obj_vars.len();
    let syntax = Syntax {
        syntax_type,
        formula,
        distinct_wff_count: wff_count,
        distinct_object_count: object_count,
    };
    (FileLine { context: LineContext::SyntaxDefinition, chars, colors }, Some(syntax))
}

} // verus!

verus! {

/// One entry of a line that is being reduced.
pub enum Piece {
    /// A character that no syntax has consumed yet.
    Raw(char),
    Space,
    /// A well-formed formula, with its glyphs and their styles.
    Formula(Seq<char>, Seq<ColorInfo>),
    /// An object, with its glyphs and their styles.
    Object(Seq<char>, Seq<ColorInfo>),
}

/// Glyphs and styles of a piece have the same length.
pub open spec fn piece_wf(p: Piece) -> bool {
    match p {
        Piece::Formula(cs, cols) => cs.len() == cols.len(),
        Piece::Object(cs, cols) => cs.len() == cols.len(),
        _ => true,
    }
}

pub open spec fn pieces_wf(ps: Seq<Piece>) -> bool {
    forall|i: int| 0 <= i < ps.len() ==> piece_wf(#[trigger] ps[i])
}

/// How a single character enters the reduction. Italic Latin letters are
/// object variables and italic Greek letters formula variables here.
pub open spec fn piece_of(c: char) -> Piece {
    if c == ' ' {
        Piece::Space
    } else if is_latin_var(c) {
        Piece::Object(seq![c], seq![obj_var_color()])
    } else if is_greek_var(c) {
        Piece::Formula(seq![c], seq![wff_var_color()])
    } else {
        Piece::Raw(c)
    }
}

pub open spec fn tokenize(s: Seq<char>) -> Seq<Piece> {
    Seq::new(s.len(), |i: int| piece_of(s[i]))
}

/// The state of an attempt to match a syntax: glyphs and styles consumed so
/// far and the text bound to each placeholder id.
pub struct MatchAcc {
    pub chars: Seq<char>,
    pub colors: Seq<ColorInfo>,
    pub wffs: Seq<Option<Seq<char>>>,
    pub objs: Seq<Option<Seq<char>>>,
}

pub open spec fn match_start(syn: SyntaxView) -> MatchAcc {
    MatchAcc {
        chars: Seq::empty(),
        colors: Seq::empty(),
        wffs: Seq::new(syn.wff_count, |i: int| None),
        objs: Seq::new(syn.object_count, |i: int| None),
    }
}

/// Matches `formula[k..]` against `pieces` from position `i`. Spaces between
/// atoms are consumed as plain spaces; literals and placeholders take the
/// syntax's style. A placeholder id met again must bind the same glyphs. On success: the position after the match, and the glyphs
/// and styles of the whole match.
#[verifier::opaque]
pub open spec fn match_from(
    pieces: Seq<Piece>,
    formula: Seq<Placeholder>,
    color: ColorInfo,
    k: int,
    i: int,
    acc: MatchAcc,
) -> Option<(int, Seq<char>, Seq<ColorInfo>)>
    decreases formula.len() - k + pieces.len() - i,
{
    if k < 0 || i < 0 {
        None
    } else if k >= formula.len() {
        Some((i, acc.chars, acc.colors))
    } else if i >= pieces.len() {
        None
    } else {
        match pieces[i] {
            Piece::Space => match_from(
                pieces,
                formula,
                color,
                k,
                i + 1,
                MatchAcc { chars: acc.chars.push(' '), colors: acc.colors.push(no_color()), ..acc },
            ),
            Piece::Raw(c1) => match formula[k] {
                Placeholder::LiteralChar(c2) => if c1 == c2 {
                    match_from(
                        pieces,
                        formula,
                        color,
                        k + 1,
                        i + 1,
                        MatchAcc { chars: acc.chars.push(c1), colors: acc.colors.push(color), ..acc },
                    )
                } else {
                    None
                },
                _ => None,
            },
            Piece::Formula(cs, cols) => match formula[k] {
                Placeholder::WellFormedFormula(id) => if id >= acc.wffs.len() {
                    None
                } else {
                    let next = MatchAcc {
                        chars: acc.chars + cs,
                        colors: acc.colors + Seq::new(cs.len(), |j: int| color),
                        ..acc
                    };
                    match acc.wffs[id as int] {
                        Some(bound) => if bound == cs {
                            match_from(pieces, formula, color, k + 1, i + 1, next)
                        } else {
                            None
                        },
                        None => match_from(
                            pieces,
                            formula,
                            color,
                            k + 1,
                            i + 1,
                            MatchAcc { wffs: acc.wffs.update(id as int, Some(cs)), ..next },
                        ),
                    }
                },
                _ => None,
            },
            Piece::Object(cs, cols) => match formula[k] {
                Placeholder::Object(id) => if id >= acc.objs.len() {
                    None
                } else {
                    let next = MatchAcc {
                        chars: acc.chars + cs,
                        colors: acc.colors + Seq::new(cs.len(), |j: int| color),
                        ..acc
                    };
                    match acc.objs[id as int] {
                        Some(bound) => if bound == cs {
                            match_from(pieces, formula, color, k + 1, i + 1, next)
                        } else {
                            None
                        },
                        None => match_from(
                            pieces,
                            formula,
                            color,
                            k + 1,
                            i + 1,
                            MatchAcc { objs: acc.objs.update(id as int, Some(cs)), ..next },
                        ),
                    }
                },
                _ => None,
            },
        }
    }
}

/// Whether a syntax can take part in a reduction. An empty syntax, or one
/// made of a single placeholder, rewrites a line without shortening it: it
/// can apply without end, alone or with one of the other kind, so it never
/// applies.
pub open spec fn rewrites(syn: SyntaxView) -> bool {
    syn.formula.len() >= 2 || (syn.formula.len() == 1 && syn.formula[0] is LiteralChar)
}

/// The style of the glyphs that a syntax consumes: the syntax being defined
/// is white, the others are colored by kind and by whether they have
/// placeholders.
pub open spec fn syntax_color(syn: SyntaxView, is_new: bool) -> ColorInfo {
    if is_new {
        new_syntax_color()
    } else if syn.syntax_type == SyntaxType::Formula {
        if syn.wff_count == 0 && syn.object_count == 0 {
            wff_singleton_color()
        } else {
            wff_syntax_color()
        }
    } else {
        if syn.wff_count == 0 && syn.object_count == 0 {
            obj_singleton_color()
        } else {
            obj_syntax_color()
        }
    }
}

pub open spec fn compiled(ty: SyntaxType, cs: Seq<char>, cols: Seq<ColorInfo>) -> Piece {
    match ty {
        SyntaxType::Formula => Piece::Formula(cs, cols),
        SyntaxType::Object => Piece::Object(cs, cols),
    }
}

/// The pieces after `syn` has been applied at `index`, if it matches there.
pub open spec fn apply_at(pieces: Seq<Piece>, syn: SyntaxView, color: ColorInfo, index: int) -> Option<Seq<Piece>> {
    if pieces.len() - index < syn.formula.len() || pieces[index] is Space {
        None
    } else {
        match match_from(pieces, syn.formula, color, 0, index, match_start(syn)) {
            Some((end, cs, cols)) => Some(
                pieces.subrange(0, index) + seq![compiled(syn.syntax_type, cs, cols)] + pieces.subrange(end, pieces.len() as int),
            ),
            None => None,
        }
    }
}

/// `syn` applied at its leftmost matching position from `index` on.
pub open spec fn apply_leftmost(pieces: Seq<Piece>, syn: SyntaxView, color: ColorInfo, index: int) -> Option<Seq<Piece>>
    decreases pieces.len() - index,
{
    if index < 0 || index >= pieces.len() {
        None
    } else {
        match apply_at(pieces, syn, color, index) {
            Some(r) => Some(r),
            None => apply_leftmost(pieces, syn, color, index + 1),
        }
    }
}

/// One rewrite: the first syntax from `s` on, in priority order, that
/// applies somewhere. With `has_new`, the first syntax is the one being defined.
pub open spec fn rewrite_step(pieces: Seq<Piece>, syns: Seq<SyntaxView>, has_new: bool, s: int) -> Option<Seq<Piece>>
    decreases syns.len() - s,
{
    if s < 0 || s >= syns.len() {
        None
    } else if !rewrites(syns[s]) {
        rewrite_step(pieces, syns, has_new, s + 1)
    } else {
        match apply_leftmost(pieces, syns[s], syntax_color(syns[s], has_new && s == 0), 0) {
            Some(r) => Some(r),
            None => rewrite_step(pieces, syns, has_new, s + 1),
        }
    }
}

pub open spec fn piece_weight(p: Piece) -> nat {
    match p {
        Piece::Raw(_) => 2,
        _ => 1,
    }
}

/// A measure that each rewrite lowers.
pub open spec fn weight(ps: Seq<Piece>) -> nat
    decreases ps.len(),
{
    if ps.len() == 0 {
        0
    } else {
        weight(ps.drop_last()) + piece_weight(ps.last())
    }
}

/// Rewrites until one piece is left; `None` when no syntax applies before.
pub open spec fn reduce(pieces: Seq<Piece>, syns: Seq<SyntaxView>, has_new: bool) -> Option<Seq<Piece>>
    decreases weight(pieces),
{
    if pieces.len() <= 1 {
        Some(pieces)
    } else {
        match rewrite_step(pieces, syns, has_new, 0) {
            None => None,
            Some(next) => if weight(next) < weight(pieces) {
                reduce(next, syns, has_new)
            } else {
                None
            },
        }
    }
}

/// Index of the first non-space at or after `i`.
pub open spec fn lead_end(s: Seq<char>, i: int) -> int
    decreases s.len() - i,
{
    if 0 <= i < s.len() && s[i] == ' ' {
        lead_end(s, i + 1)
    } else {
        i
    }
}

/// Index just after the last non-space before `j`.
pub open spec fn trail_start(s: Seq<char>, j: int) -> int
    decreases j,
{
    if 0 < j <= s.len() && s[j - 1] == ' ' {
        trail_start(s, j - 1)
    } else {
        j
    }
}

pub open spec fn spaces(n: nat) -> Seq<char> {
    Seq::new(n, |i: int| ' ')
}

pub open spec fn no_colors(n: nat) -> Seq<ColorInfo> {
    Seq::new(n, |i: int| no_color())
}

pub open spec fn has_ellipsis(s: Seq<char>) -> bool {
    exists|i: int| 0 <= i < s.len() && is_ellipsis(#[trigger] s[i])
}

/// The syntaxes in priority order: the one being defined, then the library's.
pub open spec fn all_syntaxes(lib: Seq<SyntaxView>, new_syntax: Option<SyntaxView>) -> Seq<SyntaxView> {
    match new_syntax {
        Some(s) => seq![s] + lib,
        None => lib,
    }
}

/// The styled line of a formula. A line with `…`, or one that does not reduce
/// to a single well-formed formula, is drawn all in red. A line of spaces
/// keeps them unstyled. Otherwise the outer spaces are unstyled and the rest
/// is styled as the reduction left it.
pub open spec fn spec_parse_formula(
    line: Seq<char>,
    lib: Seq<SyntaxView>,
    new_syntax: Option<SyntaxView>,
    ctx: LineContext,
) -> LineView {
    let a = lead_end(line, 0);
    let b = trail_start(line, line.len() as int);
    if has_ellipsis(line) {
        mono_line(ctx, line, fg(Color::Red))
    } else if a == line.len() {
        mono_line(ctx, line, no_color())
    } else {
        match reduce(tokenize(line.subrange(a, b)), all_syntaxes(lib, new_syntax), new_syntax is Some) {
            Some(r) => if r.len() == 1 && r[0] is Formula {
                let lead = a as nat;
                let trail = (line.len() - b) as nat;
                LineView {
                    context: ctx,
                    chars: spaces(lead) + r[0]->Formula_0 + spaces(trail),
                    colors: no_colors(lead) + r[0]->Formula_1 + no_colors(trail),
                }
            } else {
                mono_line(ctx, line, fg(Color::Red))
            },
            None => mono_line(ctx, line, fg(Color::Red)),
        }
    }
}

} // verus!

verus! {

/// Executable form of `Piece`.
enum Token {
    NotCompiled(char),
    Space,
    CompiledFormula { chars: Vec<char>, colors: Vec<ColorInfo> },
    CompiledObject { chars: Vec<char>, colors: Vec<ColorInfo> },
}

impl View for Token {
    type V = Piece;

    closed spec fn view(&self) -> Piece {
        match self {
            Token::NotCompiled(c) => Piece::Raw(*c),
            Token::Space => Piece::Space,
            Token::CompiledFormula { chars, colors } => Piece::Formula(chars@, colors@),
            Token::CompiledObject { chars, colors } => Piece::Object(chars@, colors@),
        }
    }
}

spec fn tokens_view(ts: Seq<Token>) -> Seq<Piece> {
    ts.map_values(|t: Token| t@)
}

spec fn bindings_view(v: Seq<Option<Vec<char>>>) -> Seq<Option<Seq<char>>> {
    v.map_values(|o: Option<Vec<char>>| match o {
        Some(x) => Some(x@),
        None => None,
    })
}

proof fn lemma_weight_concat(a: Seq<Piece>, b: Seq<Piece>)
    ensures
        weight(a + b) == weight(a) + weight(b),
    decreases b.len(),
{
    if b.len() == 0 {
        assert(a + b =~= a);
    } else {
        assert((a + b).drop_last() =~= a + b.drop_last());
        lemma_weight_concat(a, b.drop_last());
    }
}

proof fn lemma_weight_ge_len(s: Seq<Piece>)
    ensures
        weight(s) >= s.len(),
        s.len() >= 1 && s[0] is Raw ==> weight(s) >= s.len() + 1,
    decreases s.len(),
{
    if s.len() > 0 {
        lemma_weight_ge_len(s.drop_last());
        if s.len() == 1 {
            assert(s.drop_last().len() == 0);
        }
    }
}

/// A successful match consumes at least one piece per remaining placeholder,
/// and gives as many styles as glyphs.
proof fn lemma_match_from(
    pieces: Seq<Piece>,
    formula: Seq<Placeholder>,
    color: ColorInfo,
    k: int,
    i: int,
    acc: MatchAcc,
)
    requires
        match_from(pieces, formula, color, k, i, acc) is Some,
        pieces_wf(pieces),
        acc.chars.len() == acc.colors.len(),
        0 <= k <= formula.len(),
        0 <= i <= pieces.len(),
    ensures
        ({
            let (e, cs, cols) = match_from(pieces, formula, color, k, i, acc)->Some_0;
            &&& e >= i + formula.len() - k
            &&& e <= pieces.len()
            &&& cs.len() == cols.len()
        }),
    decreases formula.len() - k + pieces.len() - i,
{
    reveal(match_from);
    if k < formula.len() {
        assert(piece_wf(pieces[i]));
        match pieces[i] {
            Piece::Space => {
                lemma_match_from(
                    pieces,
                    formula,
                    color,
                    k,
                    i + 1,
                    MatchAcc { chars: acc.chars.push(' '), colors: acc.colors.push(no_color()), ..acc },
                );
            },
            Piece::Raw(c1) => {
                lemma_match_from(
                    pieces,
                    formula,
                    color,
                    k + 1,
                    i + 1,
                    MatchAcc { chars: acc.chars.push(c1), colors: acc.colors.push(color), ..acc },
                );
            },
            Piece::Formula(cs, cols) => {
                let id = formula[k]->WellFormedFormula_0;
                let next = MatchAcc {
                        chars: acc.chars + cs,
                        colors: acc.colors + Seq::new(cs.len(), |j: int| color),
                        ..acc
                    };
                match acc.wffs[id as int] {
                    Some(bound) => lemma_match_from(pieces, formula, color, k + 1, i + 1, next),
                    None => lemma_match_from(
                        pieces,
                        formula,
                        color,
                        k + 1,
                        i + 1,
                        MatchAcc { wffs: acc.wffs.update(id as int, Some(cs)), ..next },
                    ),
                }
            },
            Piece::Object(cs, cols) => {
                let id = formula[k]->Object_0;
                let next = MatchAcc {
                        chars: acc.chars + cs,
                        colors: acc.colors + Seq::new(cs.len(), |j: int| color),
                        ..acc
                    };
                match acc.objs[id as int] {
                    Some(bound) => lemma_match_from(pieces, formula, color, k + 1, i + 1, next),
                    None => lemma_match_from(
                        pieces,
                        formula,
                        color,
                        k + 1,
                        i + 1,
                        MatchAcc { objs: acc.objs.update(id as int, Some(cs)), ..next },
                    ),
                }
            },
        }
    }
}

proof fn lemma_match_first_literal(pieces: Seq<Piece>, syn: SyntaxView, color: ColorInfo, index: int)
    requires
        0 <= index < pieces.len(),
        syn.formula.len() >= 1,
        syn.formula[0] is LiteralChar,
        !(pieces[index] is Space),
        match_from(pieces, syn.formula, color, 0, index, match_start(syn)) is Some,
    ensures
        pieces[index] is Raw,
{
    reveal(match_from);
}

/// Applying a syntax that rewrites lowers the weight and keeps pieces well formed.
proof fn lemma_apply_at(pieces: Seq<Piece>, syn: SyntaxView, color: ColorInfo, index: int)
    requires
        0 <= index < pieces.len(),
        apply_at(pieces, syn, color, index) is Some,
        rewrites(syn),
        pieces_wf(pieces),
    ensures
        weight(apply_at(pieces, syn, color, index)->Some_0) < weight(pieces),
        pieces_wf(apply_at(pieces, syn, color, index)->Some_0),
{
    let m = match_from(pieces, syn.formula, color, 0, index, match_start(syn));
    lemma_match_from(pieces, syn.formula, color, 0, index, match_start(syn));
    let (end, cs, cols) = m->Some_0;
    let pre = pieces.subrange(0, index);
    let mid = pieces.subrange(index, end);
    let suf = pieces.subrange(end, pieces.len() as int);
    let x = compiled(syn.syntax_type, cs, cols);
    assert(pieces =~= pre + mid + suf);
    lemma_weight_concat(pre + mid, suf);
    lemma_weight_concat(pre, mid);
    lemma_weight_concat(pre + seq![x], suf);
    lemma_weight_concat(pre, seq![x]);
    assert(weight(seq![x]) == 1) by {
        assert(seq![x].drop_last() =~= Seq::<Piece>::empty());
        assert(seq![x].last() == x);
        assert(!(x is Raw));
        assert(weight(Seq::<Piece>::empty()) == 0);
    }
    lemma_weight_ge_len(mid);
    if syn.formula.len() == 1 {
        lemma_match_first_literal(pieces, syn, color, index);
        assert(mid[0] == pieces[index]);
    }
    let r = pre + seq![x] + suf;
    assert forall|j: int| 0 <= j < r.len() implies piece_wf(#[trigger] r[j]) by {
        if j < index {
            assert(r[j] == pieces[j]);
        } else if j > index {
            assert(r[j] == pieces[j - index - 1 + end]);
        }
    }
}

proof fn lemma_apply_leftmost(pieces: Seq<Piece>, syn: SyntaxView, color: ColorInfo, index: int)
    requires
        apply_leftmost(pieces, syn, color, index) is Some,
        rewrites(syn),
        pieces_wf(pieces),
    ensures
        weight(apply_leftmost(pieces, syn, color, index)->Some_0) < weight(pieces),
        pieces_wf(apply_leftmost(pieces, syn, color, index)->Some_0),
    decreases pieces.len() - index,
{
    if apply_at(pieces, syn, color, index) is Some {
        lemma_apply_at(pieces, syn, color, index);
    } else {
        lemma_apply_leftmost(pieces, syn, color, index + 1);
    }
}

proof fn lemma_rewrite_step(pieces: Seq<Piece>, syns: Seq<SyntaxView>, has_new: bool, s: int)
    requires
        rewrite_step(pieces, syns, has_new, s) is Some,
        pieces_wf(pieces),
    ensures
        weight(rewrite_step(pieces, syns, has_new, s)->Some_0) < weight(pieces),
        pieces_wf(rewrite_step(pieces, syns, has_new, s)->Some_0),
    decreases syns.len() - s,
{
    if !rewrites(syns[s]) {
        lemma_rewrite_step(pieces, syns, has_new, s + 1);
    } else {
        let color = syntax_color(syns[s], has_new && s == 0);
        if apply_leftmost(pieces, syns[s], color, 0) is Some {
            lemma_apply_leftmost(pieces, syns[s], color, 0);
        } else {
            lemma_rewrite_step(pieces, syns, has_new, s + 1);
        }
    }
}

pub(crate) fn extend_copy<T: Copy>(dst: &mut Vec<T>, src: &Vec<T>)
    ensures
        final(dst)@ == old(dst)@ + src@,
{
    let mut i: usize = 0;
    while i < src.len()
        invariant
            i <= src.len(),
            dst@ == old(dst)@ + src@.subrange(0, i as int),
        decreases src.len() - i,
    {
        dst.push(src[i]);
        i += 1;
        assert(dst@ =~= old(dst)@ + src@.subrange(0, i as int));
    }
    assert(src@ =~= src@.subrange(0, src@.len() as int));
}

} // verus!

verus! {

/// Matches `syn` against `list` from `index`: the end position, the glyphs
/// and the styles of the match.
fn match_syntax(list: &Vec<Token>, syn: &Syntax, color: ColorInfo, index: usize) -> (r: Option<
    (usize, Vec<char>, Vec<ColorInfo>),
>)
    requires
        index <= list@.len(),
    ensures
        match r {
            Some((e, cs, cols)) => match_from(tokens_view(list@), syn@.formula, color, 0, index as int, match_start(syn@))
                == Some((e as int, cs@, cols@)),
            None => match_from(tokens_view(list@), syn@.formula, color, 0, index as int, match_start(syn@)) is None,
        },
{
    let ghost pv = tokens_view(list@);
    let ghost f = syn@.formula;
    let mut wffs: Vec<Option<Vec<char>>> = Vec::new();
    let mut n: usize = 0;
    while n < syn.distinct_wff_count
        invariant
            n <= syn.distinct_wff_count,
            wffs@.len() == n,
            forall|j: int| 0 <= j < n ==> #[trigger] wffs@[j] is None,
        decreases syn.distinct_wff_count - n,
    {
        wffs.push(None);
        n += 1;
    }
    assert(bindings_view(wffs@) =~= Seq::new(n as nat, |i: int| None));
    let mut objs: Vec<Option<Vec<char>>> = Vec::new();
    let mut n: usize = 0;
    while n < syn.distinct_object_count
        invariant
            n <= syn.distinct_object_count,
            objs@.len() == n,
            forall|j: int| 0 <= j < n ==> #[trigger] objs@[j] is None,
        decreases syn.distinct_object_count - n,
    {
        objs.push(None);
        n += 1;
    }
    assert(bindings_view(objs@) =~= Seq::new(n as nat, |i: int| None));
    let mut chars: Vec<char> = Vec::new();
    let mut colors: Vec<ColorInfo> = Vec::new();
    let mut k: usize = 0;
    let mut i: usize = index;
    proof {
        let acc = MatchAcc {
            chars: chars@,
            colors: colors@,
            wffs: bindings_view(wffs@),
            objs: bindings_view(objs@),
        };
        assert(acc == match_start(syn@));
    }
    while k < syn.formula.len()
        invariant
            k <= f.len(),
            index <= i <= list@.len(),
            pv == tokens_view(list@),
            f == syn@.formula,
            match_from(pv, f, color, 0, index as int, match_start(syn@)) == match_from(
                pv,
                f,
                color,
                k as int,
                i as int,
                MatchAcc {
                    chars: chars@,
                    colors: colors@,
                    wffs: bindings_view(wffs@),
                    objs: bindings_view(objs@),
                },
            ),
        decreases f.len() - k + list@.len() - i,
    {
        let ghost acc = MatchAcc {
            chars: chars@,
            colors: colors@,
            wffs: bindings_view(wffs@),
            objs: bindings_view(objs@),
        };
        proof {
            reveal(match_from);
        }
        if i >= list.len() {
            return None;
        }
        assert(pv[i as int] == list@[i as int]@);
        match &list[i] {
            Token::Space => {
                chars.push(' ');
                colors.push(ColorInfo::no_color());
                i += 1;
            },
            Token::NotCompiled(c1) => {
                match syn.formula[k] {
                    Placeholder::LiteralChar(c2) => {
                        if *c1 != c2 {
                            return None;
                        }
                    },
                    _ => {
                        return None;
                    },
                }
                chars.push(*c1);
                colors.push(color);
                k += 1;
                i += 1;
            },
            Token::CompiledFormula { chars: chs, colors: _ } => {
                let id = match syn.formula[k] {
                    Placeholder::WellFormedFormula(id) => id,
                    _ => {
                        return None;
                    },
                };
                if id >= wffs.len() {
                    return None;
                }
                assert(acc.wffs[id as int] == match wffs@[id as int] {
                    Some(x) => Some(x@),
                    None => None::<Seq<char>>,
                });
                let bound_before = match &wffs[id] {
                    Some(b) => {
                        if !crate::text::chars_eq(b, chs) {
                            return None;
                        }
                        true
                    },
                    None => false,
                };
                if !bound_before {
                    let copy = crate::text::copy_chars(chs);
                    wffs[id] = Some(copy);
                    assert(bindings_view(wffs@) =~= acc.wffs.update(id as int, Some(chs@)));
                }
                extend_copy(&mut chars, chs);
                push_repeated(&mut colors, color, chs.len());
                k += 1;
                i += 1;
            },
            Token::CompiledObject { chars: chs, colors: _ } => {
                let id = match syn.formula[k] {
                    Placeholder::Object(id) => id,
                    _ => {
                        return None;
                    },
                };
                if id >= objs.len() {
                    return None;
                }
                assert(acc.objs[id as int] == match objs@[id as int] {
                    Some(x) => Some(x@),
                    None => None::<Seq<char>>,
                });
                let bound_before = match &objs[id] {
                    Some(b) => {
                        if !crate::text::chars_eq(b, chs) {
                            return None;
                        }
                        true
                    },
                    None => false,
                };
                if !bound_before {
                    let copy = crate::text::copy_chars(chs);
                    objs[id] = Some(copy);
                    assert(bindings_view(objs@) =~= acc.objs.update(id as int, Some(chs@)));
                }
                extend_copy(&mut chars, chs);
                push_repeated(&mut colors, color, chs.len());
                k += 1;
                i += 1;
            },
        }
    }
    proof {
        reveal(match_from);
    }
    Some((i, chars, colors))
}

} // verus!

verus! {

/// Applies `syn` at `index` when it matches there.
fn apply_syntax_at(list: &mut Vec<Token>, syn: &Syntax, color: ColorInfo, index: usize) -> (r: bool)
    requires
        index < old(list)@.len(),
        pieces_wf(tokens_view(old(list)@)),
    ensures
        r == apply_at(tokens_view(old(list)@), syn@, color, index as int) is Some,
        r ==> tokens_view(final(list)@) == apply_at(tokens_view(old(list)@), syn@, color, index as int)->Some_0,
        !r ==> final(list)@ == old(list)@,
{
    let ghost pv = tokens_view(list@);
    if list.len() - index < syn.formula.len() {
        return false;
    }
    if let Token::Space = &list[index] {
        return false;
    }
    assert(!(pv[index as int] is Space));
    match match_syntax(list, syn, color, index) {
        None => false,
        Some((end, cs, cols)) => {
            proof {
                lemma_match_from(pv, syn@.formula, color, 0, index as int, match_start(syn@));
            }
            let mut m: usize = index;
            while m < end
                invariant
                    index <= m <= end,
                    end <= pv.len(),
                    list@.len() == index + (pv.len() - m),
                    tokens_view(list@) =~= pv.subrange(0, index as int) + pv.subrange(m as int, pv.len() as int),
                decreases end - m,
            {
                let ghost before = list@;
                list.remove(index);
                assert(tokens_view(list@) =~= tokens_view(before).remove(index as int));
                m += 1;
            }
            let ghost before = list@;
            let tok = match syn.syntax_type {
                SyntaxType::Formula => Token::CompiledFormula { chars: cs, colors: cols },
                SyntaxType::Object => Token::CompiledObject { chars: cs, colors: cols },
            };
            list.insert(index, tok);
            assert(tokens_view(list@) =~= tokens_view(before).insert(index as int, tok@));
            assert(tokens_view(list@) =~= pv.subrange(0, index as int) + seq![
                compiled(syn@.syntax_type, cs@, cols@),
            ] + pv.subrange(end as int, pv.len() as int));
            true
        },
    }
}

fn syntax_rewrites(syn: &Syntax) -> (r: bool)
    ensures
        r == rewrites(syn@),
{
    syn.formula.len() >= 2 || (syn.formula.len() == 1 && matches!(syn.formula[0], Placeholder::LiteralChar(_)))
}

fn color_of_syntax(syn: &Syntax, is_new: bool) -> (r: ColorInfo)
    ensures
        r == syntax_color(syn@, is_new),
{
    if is_new {
        ColorInfo::fg_color(Color::White)
    } else {
        let singleton = syn.distinct_wff_count == 0 && syn.distinct_object_count == 0;
        match syn.syntax_type {
            SyntaxType::Formula => if singleton {
                ColorInfo::fg_color(Color::Green)
            } else {
                ColorInfo::fg_color(Color::Cyan)
            },
            SyntaxType::Object => if singleton {
                ColorInfo::fg_color(Color::Yellow)
            } else {
                ColorInfo::fg_color(Color::Magenta)
            },
        }
    }
}

/// Applies `syn` at its leftmost matching position, if any.
fn apply_leftmost_exec(list: &mut Vec<Token>, syn: &Syntax, color: ColorInfo) -> (r: bool)
    requires
        pieces_wf(tokens_view(old(list)@)),
    ensures
        r == apply_leftmost(tokens_view(old(list)@), syn@, color, 0) is Some,
        r ==> tokens_view(final(list)@) == apply_leftmost(tokens_view(old(list)@), syn@, color, 0)->Some_0,
        !r ==> final(list)@ == old(list)@,
{
    let ghost pv = tokens_view(list@);
    let mut index: usize = 0;
    while index < list.len()
        invariant
            index <= list@.len(),
            list@ == old(list)@,
            pv == tokens_view(list@),
            pv.len() == list@.len(),
            pieces_wf(pv),
            apply_leftmost(pv, syn@, color, 0) == apply_leftmost(pv, syn@, color, index as int),
        decreases list@.len() - index,
    {
        if apply_syntax_at(list, syn, color, index) {
            return true;
        }
        index += 1;
    }
    false
}

/// Performs one rewrite, if any syntax applies.
fn rewrite_once(list: &mut Vec<Token>, lib: &LibraryData, new_syntax: &Option<Syntax>) -> (r: bool)
    requires
        pieces_wf(tokens_view(old(list)@)),
    ensures
        ({
            let syns = all_syntaxes(lib.syntax_views(), opt_syntax_view(*new_syntax));
            let step = rewrite_step(tokens_view(old(list)@), syns, new_syntax is Some, 0);
            &&& r == step is Some
            &&& r ==> tokens_view(final(list)@) == step->Some_0
        }),
{
    let ghost pv = tokens_view(list@);
    let ghost syns = all_syntaxes(lib.syntax_views(), opt_syntax_view(*new_syntax));
    let ghost has_new = new_syntax is Some;
    let ghost offset: int = if has_new { 1 } else { 0 };
    if let Some(ns) = new_syntax {
        assert(syns[0] == ns@);
        if syntax_rewrites(ns) {
            let color = color_of_syntax(ns, true);
            if apply_leftmost_exec(list, ns, color) {
                return true;
            }
        }
    }
    assert(rewrite_step(pv, syns, has_new, 0) == rewrite_step(pv, syns, has_new, offset));
    let mut j: usize = 0;
    while j < lib.syntaxes.len()
        invariant
            j <= lib.syntaxes@.len(),
            syns == all_syntaxes(lib.syntax_views(), opt_syntax_view(*new_syntax)),
            syns.len() == lib.syntaxes@.len() + offset,
            offset == (if has_new { 1int } else { 0int }),
            has_new == new_syntax is Some,
            list@ == old(list)@,
            pv == tokens_view(list@),
            pieces_wf(pv),
            rewrite_step(pv, syns, has_new, 0) == rewrite_step(pv, syns, has_new, j + offset),
        decreases lib.syntaxes@.len() - j,
    {
        let syn = &lib.syntaxes[j];
        assert(syn@ == syns[j + offset]);
        if syntax_rewrites(syn) {
            let color = color_of_syntax(syn, false);
            assert(color == syntax_color(syns[j + offset], has_new && j + offset == 0));
            if apply_leftmost_exec(list, syn, color) {
                return true;
            }
        }
        j += 1;
    }
    false
}

pub open spec fn opt_syntax_view(s: Option<Syntax>) -> Option<SyntaxView> {
    match s {
        Some(x) => Some(x@),
        None => None,
    }
}

} // verus!

verus! {

/// Appends the token of one character of a line.
fn push_token_of(list: &mut Vec<Token>, c: char)
    ensures
        final(list)@.len() == old(list)@.len() + 1,
        forall|i: int| 0 <= i < old(list)@.len() ==> final(list)@[i] == old(list)@[i],
        final(list)@.last()@ == piece_of(c),
{
    if c == ' ' {
        list.push(Token::Space);
    } else if is_latin_var_exec(c) {
        let cs = vec![c];
        let cols = vec![ColorInfo::fg_color(Color::Red).bold()];
        assert(cs@ =~= seq![c]);
        assert(cols@ =~= seq![obj_var_color()]);
        list.push(Token::CompiledObject { chars: cs, colors: cols });
    } else if is_greek_var_exec(c) {
        let cs = vec![c];
        let cols = vec![ColorInfo::fg_color(Color::Blue).bold()];
        assert(cs@ =~= seq![c]);
        assert(cols@ =~= seq![wff_var_color()]);
        list.push(Token::CompiledFormula { chars: cs, colors: cols });
    } else {
        list.push(Token::NotCompiled(c));
    }
}

pub(crate) fn push_repeated<T: Copy>(dst: &mut Vec<T>, x: T, n: usize)
    ensures
        final(dst)@ == old(dst)@ + Seq::new(n as nat, |i: int| x),
{
    let mut i: usize = 0;
    while i < n
        invariant
            i <= n,
            dst@ =~= old(dst)@ + Seq::new(i as nat, |j: int| x),
        decreases n - i,
    {
        dst.push(x);
        i += 1;
    }
}

/// Reduces a line to one styled well-formed formula by repeated rewriting
/// with the syntaxes, `new_syntax` first and then the library's in order,
/// each at its leftmost match. The line is red when that fails.
///
/// A syntax that is empty, or made of a single placeholder, never applies
/// (see `rewrites`). Such a rewrite does not shorten the line. An empty one,
/// or one that keeps the kind, would apply forever. One that changes the kind
/// (a formula syntax made of one object placeholder) can cycle with its
/// opposite number, so it is left out as well.
pub fn parse_formula(line: Vec<char>, lib_data: &LibraryData, new_syntax: Option<Syntax>, context: LineContext) -> (r:
    FileLine)
    ensures
        r@ == spec_parse_formula(line@, lib_data.syntax_views(), opt_syntax_view(new_syntax), context),
        r@.wf(),
{
    let ghost l = line@;
    let mut i: usize = 0;
    while i < line.len()
        invariant
            i <= line@.len(),
            forall|j: int| 0 <= j < i ==> !is_ellipsis(#[trigger] line@[j]),
        decreases line.len() - i,
    {
        if line[i] == '\u{2026}' {
            assert(is_ellipsis(line@[i as int]));
            return mono_file_line(context, line, ColorInfo::fg_color(Color::Red));
        }
        i += 1;
    }
    assert(!has_ellipsis(l));
    let mut a: usize = 0;
    while a < line.len() && line[a] == ' '
        invariant
            a <= line@.len(),
            lead_end(l, 0) == lead_end(l, a as int),
            l == line@,
        decreases line.len() - a,
    {
        a += 1;
    }
    if a == line.len() {
        return mono_file_line(context, line, ColorInfo::no_color());
    }
    let mut b: usize = line.len();
    while b > a + 1 && line[b - 1] == ' '
        invariant
            a + 1 <= b <= line@.len(),
            line@[a as int] != ' ',
            trail_start(l, l.len() as int) == trail_start(l, b as int),
            l == line@,
        decreases b,
    {
        b -= 1;
    }
    let mut list: Vec<Token> = Vec::new();
    let mut k: usize = a;
    while k < b
        invariant
            a <= k <= b,
            b <= line@.len(),
            l == line@,
            tokens_view(list@) =~= tokenize(l.subrange(a as int, k as int)),
            pieces_wf(tokens_view(list@)),
        decreases b - k,
    {
        let c = line[k];
        let ghost before = tokens_view(list@);
        push_token_of(&mut list, c);
        assert(tokens_view(list@) =~= before.push(piece_of(c)));
        assert(l.subrange(a as int, k + 1) =~= l.subrange(a as int, k as int).push(c));
        k += 1;
    }
    let ghost syns = all_syntaxes(lib_data.syntax_views(), opt_syntax_view(new_syntax));
    let ghost has_new = new_syntax is Some;
    let ghost first_pieces = tokens_view(list@);
    while list.len() > 1
        invariant
            reduce(first_pieces, syns, has_new) == reduce(tokens_view(list@), syns, has_new),
            pieces_wf(tokens_view(list@)),
            syns == all_syntaxes(lib_data.syntax_views(), opt_syntax_view(new_syntax)),
            has_new == new_syntax is Some,
            l == line@,
            !has_ellipsis(l),
            lead_end(l, 0) == a,
            a < b <= l.len(),
            trail_start(l, l.len() as int) == b,
            first_pieces == tokenize(l.subrange(a as int, b as int)),
        decreases weight(tokens_view(list@)),
    {
        let ghost before = tokens_view(list@);
        if !rewrite_once(&mut list, lib_data, &new_syntax) {
            return mono_file_line(context, line, ColorInfo::fg_color(Color::Red));
        }
        proof {
            lemma_rewrite_step(before, syns, has_new, 0);
        }
    }
    let ghost last = tokens_view(list@);
    assert(reduce(first_pieces, syns, has_new) == Some(last));
    let trail = line.len() - b;
    match list.pop() {
        Some(Token::CompiledFormula { chars: cs, colors: cols }) => {
            assert(last.len() == 1 && last[0] == Piece::Formula(cs@, cols@));
            assert(piece_wf(last[0]));
            let mut chars: Vec<char> = Vec::new();
            let mut colors: Vec<ColorInfo> = Vec::new();
            push_repeated(&mut chars, ' ', a);
            push_repeated(&mut colors, ColorInfo::no_color(), a);
            extend_copy(&mut chars, &cs);
            extend_copy(&mut colors, &cols);
            push_repeated(&mut chars, ' ', trail);
            push_repeated(&mut colors, ColorInfo::no_color(), trail);
            FileLine { context, chars, colors }
        },
        _ => {
            assert(!(last.len() == 1 && last[0] is Formula));
            mono_file_line(context, line, ColorInfo::fg_color(Color::Red))
        },
    }
}

} // verus!

verus! {

/// The glyphs that a piece shows.
pub open spec fn piece_chars(p: Piece) -> Seq<char> {
    match p {
        Piece::Raw(c) => seq![c],
        Piece::Space => seq![' '],
        Piece::Formula(cs, _) => cs,
        Piece::Object(cs, _) => cs,
    }
}

/// The glyphs of a sequence of pieces, in order.
pub open spec fn flat(ps: Seq<Piece>) -> Seq<char>
    decreases ps.len(),
{
    if ps.len() == 0 {
        Seq::empty()
    } else {
        flat(ps.drop_last()) + piece_chars(ps.last())
    }
}

proof fn lemma_flat_concat(a: Seq<Piece>, b: Seq<Piece>)
    ensures
        flat(a + b) == flat(a) + flat(b),
    decreases b.len(),
{
    if b.len() == 0 {
        assert(a + b =~= a);
        assert(flat(a) + flat(b) =~= flat(a));
    } else {
        assert((a + b).drop_last() =~= a + b.drop_last());
        lemma_flat_concat(a, b.drop_last());
        assert(flat(a + b) =~= flat(a) + flat(b));
    }
}

proof fn lemma_flat_single(x: Piece)
    ensures
        flat(seq![x]) == piece_chars(x),
{
    assert(seq![x].drop_last() =~= Seq::<Piece>::empty());
    assert(seq![x].last() == x);
    assert(flat(Seq::<Piece>::empty()) == Seq::<char>::empty());
    assert(Seq::<char>::empty() + piece_chars(x) =~= piece_chars(x));
}

proof fn lemma_flat_first(s: Seq<Piece>)
    requires
        s.len() > 0,
    ensures
        flat(s) == piece_chars(s[0]) + flat(s.drop_first()),
{
    assert(s =~= seq![s[0]] + s.drop_first());
    lemma_flat_concat(seq![s[0]], s.drop_first());
    lemma_flat_single(s[0]);
}

/// The glyphs of a match are those of the pieces it consumed.
proof fn lemma_match_chars(
    pieces: Seq<Piece>,
    formula: Seq<Placeholder>,
    color: ColorInfo,
    k: int,
    i: int,
    acc: MatchAcc,
)
    requires
        match_from(pieces, formula, color, k, i, acc) is Some,
        0 <= k <= formula.len(),
        0 <= i <= pieces.len(),
    ensures
        ({
            let (e, cs, _) = match_from(pieces, formula, color, k, i, acc)->Some_0;
            &&& i <= e <= pieces.len()
            &&& cs == acc.chars + flat(pieces.subrange(i, e))
        }),
    decreases formula.len() - k + pieces.len() - i,
{
    reveal(match_from);
    if k >= formula.len() {
        assert(pieces.subrange(i, i) =~= Seq::<Piece>::empty());
        assert(acc.chars + flat(Seq::<Piece>::empty()) =~= acc.chars);
    } else {
        let (e, cs, _) = match_from(pieces, formula, color, k, i, acc)->Some_0;
        let next_acc = match pieces[i] {
            Piece::Space => MatchAcc { chars: acc.chars.push(' '), colors: acc.colors.push(no_color()), ..acc },
            Piece::Raw(c1) => MatchAcc { chars: acc.chars.push(c1), colors: acc.colors.push(color), ..acc },
            Piece::Formula(cs2, _) => {
                let id = formula[k]->WellFormedFormula_0;
                let next = MatchAcc {
                    chars: acc.chars + cs2,
                    colors: acc.colors + Seq::new(cs2.len(), |j: int| color),
                    ..acc
                };
                match acc.wffs[id as int] {
                    Some(_) => next,
                    None => MatchAcc { wffs: acc.wffs.update(id as int, Some(cs2)), ..next },
                }
            },
            Piece::Object(cs2, _) => {
                let id = formula[k]->Object_0;
                let next = MatchAcc {
                    chars: acc.chars + cs2,
                    colors: acc.colors + Seq::new(cs2.len(), |j: int| color),
                    ..acc
                };
                match acc.objs[id as int] {
                    Some(_) => next,
                    None => MatchAcc { objs: acc.objs.update(id as int, Some(cs2)), ..next },
                }
            },
        };
        let nk = if pieces[i] is Space {
            k
        } else {
            k + 1
        };
        assert(match_from(pieces, formula, color, k, i, acc) == match_from(pieces, formula, color, nk, i + 1, next_acc));
        lemma_match_chars(pieces, formula, color, nk, i + 1, next_acc);
        assert(next_acc.chars == acc.chars + piece_chars(pieces[i]));
        let sub = pieces.subrange(i, e);
        lemma_flat_first(sub);
        assert(sub.drop_first() =~= pieces.subrange(i + 1, e));
        assert(sub[0] == pieces[i]);
        assert(cs =~= acc.chars + flat(sub));
    }
}

proof fn lemma_apply_at_chars(pieces: Seq<Piece>, syn: SyntaxView, color: ColorInfo, index: int)
    requires
        0 <= index < pieces.len(),
        apply_at(pieces, syn, color, index) is Some,
    ensures
        flat(apply_at(pieces, syn, color, index)->Some_0) == flat(pieces),
{
    let m = match_from(pieces, syn.formula, color, 0, index, match_start(syn));
    lemma_match_chars(pieces, syn.formula, color, 0, index, match_start(syn));
    let (end, cs, cols) = m->Some_0;
    let pre = pieces.subrange(0, index);
    let mid = pieces.subrange(index, end);
    let suf = pieces.subrange(end, pieces.len() as int);
    let x = compiled(syn.syntax_type, cs, cols);
    assert(pieces =~= pre + mid + suf);
    lemma_flat_concat(pre + mid, suf);
    lemma_flat_concat(pre, mid);
    lemma_flat_concat(pre + seq![x], suf);
    lemma_flat_concat(pre, seq![x]);
    lemma_flat_single(x);
    assert(cs =~= flat(mid));
}

proof fn lemma_apply_leftmost_chars(pieces: Seq<Piece>, syn: SyntaxView, color: ColorInfo, index: int)
    requires
        apply_leftmost(pieces, syn, color, index) is Some,
    ensures
        flat(apply_leftmost(pieces, syn, color, index)->Some_0) == flat(pieces),
    decreases pieces.len() - index,
{
    if apply_at(pieces, syn, color, index) is Some {
        lemma_apply_at_chars(pieces, syn, color, index);
    } else {
        lemma_apply_leftmost_chars(pieces, syn, color, index + 1);
    }
}

proof fn lemma_rewrite_step_chars(pieces: Seq<Piece>, syns: Seq<SyntaxView>, has_new: bool, s: int)
    requires
        rewrite_step(pieces, syns, has_new, s) is Some,
    ensures
        flat(rewrite_step(pieces, syns, has_new, s)->Some_0) == flat(pieces),
    decreases syns.len() - s,
{
    if !rewrites(syns[s]) {
        lemma_rewrite_step_chars(pieces, syns, has_new, s + 1);
    } else {
        let color = syntax_color(syns[s], has_new && s == 0);
        if apply_leftmost(pieces, syns[s], color, 0) is Some {
            lemma_apply_leftmost_chars(pieces, syns[s], color, 0);
        } else {
            lemma_rewrite_step_chars(pieces, syns, has_new, s + 1);
        }
    }
}

proof fn lemma_reduce_chars(pieces: Seq<Piece>, syns: Seq<SyntaxView>, has_new: bool)
    requires
        reduce(pieces, syns, has_new) is Some,
    ensures
        flat(reduce(pieces, syns, has_new)->Some_0) == flat(pieces),
    decreases weight(pieces),
{
    if pieces.len() > 1 {
        let next = rewrite_step(pieces, syns, has_new, 0)->Some_0;
        lemma_rewrite_step_chars(pieces, syns, has_new, 0);
        lemma_reduce_chars(next, syns, has_new);
    }
}

proof fn lemma_tokenize_chars(s: Seq<char>)
    ensures
        flat(tokenize(s)) == s,
    decreases s.len(),
{
    if s.len() > 0 {
        lemma_tokenize_chars(s.drop_last());
        assert(tokenize(s).drop_last() =~= tokenize(s.drop_last()));
        assert(piece_chars(piece_of(s.last())) =~= seq![s.last()]);
        assert(s =~= s.drop_last().push(s.last()));
    } else {
        assert(tokenize(s) =~= Seq::<Piece>::empty());
        assert(s =~= Seq::<char>::empty());
    }
}

proof fn lemma_lead_end_spaces(s: Seq<char>, i: int)
    requires
        0 <= i <= s.len(),
    ensures
        i <= lead_end(s, i) <= s.len(),
        forall|j: int| i <= j < lead_end(s, i) ==> s[j] == ' ',
        lead_end(s, i) < s.len() ==> s[lead_end(s, i)] != ' ',
    decreases s.len() - i,
{
    if i < s.len() && s[i] == ' ' {
        lemma_lead_end_spaces(s, i + 1);
    }
}

proof fn lemma_trail_start_spaces(s: Seq<char>, j: int)
    requires
        0 <= j <= s.len(),
    ensures
        0 <= trail_start(s, j) <= j,
        forall|k: int| trail_start(s, j) <= k < j ==> s[k] == ' ',
        trail_start(s, j) > 0 ==> s[trail_start(s, j) - 1] != ' ',
    decreases j,
{
    if j > 0 && s[j - 1] == ' ' {
        lemma_trail_start_spaces(s, j - 1);
    }
}

/// The formula parser styles a line without changing its glyphs.
pub proof fn lemma_formula_keeps_chars(
    line: Seq<char>,
    lib: Seq<SyntaxView>,
    new_syntax: Option<SyntaxView>,
    ctx: LineContext,
)
    ensures
        spec_parse_formula(line, lib, new_syntax, ctx).chars == line,
        spec_parse_formula(line, lib, new_syntax, ctx).context == ctx,
{
    let a = lead_end(line, 0);
    let b = trail_start(line, line.len() as int);
    lemma_lead_end_spaces(line, 0);
    lemma_trail_start_spaces(line, line.len() as int);
    if !has_ellipsis(line) && a != line.len() {
        let syns = all_syntaxes(lib, new_syntax);
        let inner = line.subrange(a, b);
        let p = tokenize(inner);
        if reduce(p, syns, new_syntax is Some) is Some {
            let r = reduce(p, syns, new_syntax is Some)->Some_0;
            if r.len() == 1 && r[0] is Formula {
                assert(a < b) by {
                    if b <= a {
                        assert(line[a] != ' ');
                    }
                }
                lemma_reduce_chars(p, syns, new_syntax is Some);
                lemma_tokenize_chars(inner);
                assert(r =~= seq![r[0]]);
                lemma_flat_single(r[0]);
                assert(line =~= spaces(a as nat) + inner + spaces((line.len() - b) as nat));
            }
        }
    }
}

} // verus!

verus! {

/// A character that stands for itself in a formula line.
pub open spec fn is_plain(c: char) -> bool {
    c != ' ' && !is_ellipsis(c) && !is_latin_var(c) && !is_greek_var(c)
}

/// The text of a syntax made of literals only.
pub open spec fn literal_text(f: Seq<Placeholder>) -> Seq<char> {
    Seq::new(f.len(), |i: int| f[i]->LiteralChar_0)
}

proof fn lemma_match_literals(f: Seq<Placeholder>, color: ColorInfo, k: int, acc: MatchAcc)
    requires
        0 <= k <= f.len(),
        forall|i: int| 0 <= i < f.len() ==> (#[trigger] f[i]) is LiteralChar && is_plain(f[i]->LiteralChar_0),
    ensures
        match_from(tokenize(literal_text(f)), f, color, k, k, acc) == Some(
            (
                f.len() as int,
                acc.chars + literal_text(f).subrange(k, f.len() as int),
                acc.colors + Seq::new((f.len() - k) as nat, |j: int| color),
            ),
        ),
    decreases f.len() - k,
{
    reveal(match_from);
    let line = literal_text(f);
    if k == f.len() {
        assert(acc.chars + line.subrange(k, k) =~= acc.chars);
        assert(acc.colors + Seq::new(0, |j: int| color) =~= acc.colors);
    } else {
        let c = line[k];
        assert(f[k] is LiteralChar && is_plain(c));
        assert(tokenize(line)[k] == Piece::Raw(c));
        let next = MatchAcc { chars: acc.chars.push(c), colors: acc.colors.push(color), ..acc };
        lemma_match_literals(f, color, k + 1, next);
        assert(next.chars + line.subrange(k + 1, f.len() as int) =~= acc.chars + line.subrange(k, f.len() as int));
        assert(next.colors + Seq::new((f.len() - k - 1) as nat, |j: int| color) =~= acc.colors + Seq::new(
            (f.len() - k) as nat,
            |j: int| color,
        ));
    }
}

/// The text of a syntax with no placeholder, read with that syntax first in
/// the library, is matched by it and drawn in the singleton style of formulas.
pub proof fn lemma_singleton_matches_its_text(syn: SyntaxView, lib: Seq<SyntaxView>, ctx: LineContext)
    requires
        lib.len() >= 1,
        lib[0] == syn,
        syn.syntax_type == SyntaxType::Formula,
        syn.wff_count == 0,
        syn.object_count == 0,
        syn.formula.len() >= 2,
        forall|i: int|
            0 <= i < syn.formula.len() ==> (#[trigger] syn.formula[i]) is LiteralChar && is_plain(
                syn.formula[i]->LiteralChar_0,
            ),
    ensures
        spec_parse_formula(literal_text(syn.formula), lib, None, ctx) == (LineView {
            context: ctx,
            chars: literal_text(syn.formula),
            colors: Seq::new(syn.formula.len(), |i: int| wff_singleton_color()),
        }),
{
    let f = syn.formula;
    let line = literal_text(f);
    let n = f.len() as int;
    let color = wff_singleton_color();
    assert(f[0] is LiteralChar);
    assert(line[0] != ' ');
    assert(line[n - 1] != ' ') by {
        assert(f[n - 1] is LiteralChar);
    }
    assert(lead_end(line, 0) == 0);
    assert(trail_start(line, n) == n);
    assert(!has_ellipsis(line)) by {
        if has_ellipsis(line) {
            let j = choose|j: int| 0 <= j < line.len() && is_ellipsis(#[trigger] line[j]);
            assert(f[j] is LiteralChar);
        }
    }
    assert(line.subrange(0, n) =~= line);
    let p = tokenize(line);
    assert(all_syntaxes(lib, None) == lib);
    lemma_match_literals(f, color, 0, match_start(syn));
    assert(Seq::<char>::empty() + line.subrange(0, n) =~= line);
    let cols = Seq::new(f.len(), |i: int| color);
    assert(Seq::<ColorInfo>::empty() + Seq::new((n - 0) as nat, |j: int| color) =~= cols);
    let x = Piece::Formula(line, cols);
    assert(p.subrange(0, 0) + seq![x] + p.subrange(n, n) =~= seq![x]);
    assert(apply_at(p, syn, color, 0) == Some(seq![x]));
    assert(apply_leftmost(p, syn, color, 0) == Some(seq![x]));
    assert(syntax_color(syn, false) == color);
    assert(rewrite_step(p, lib, false, 0) == Some(seq![x]));
    lemma_weight_ge_len(p);
    assert(weight(seq![x]) == 1) by {
        assert(seq![x].drop_last() =~= Seq::<Piece>::empty());
        assert(seq![x].last() == x);
        assert(weight(Seq::<Piece>::empty()) == 0);
    }
    assert(p.len() == n);
    assert(p[0] is Raw);
    assert(weight(p) >= 3);
    assert(reduce(seq![x], lib, false) == Some(seq![x]));
    assert(reduce(p, lib, false) == Some(seq![x]));
    assert(spaces(0) + line + spaces(0) =~= line);
    assert(no_colors(0) + cols + no_colors(0) =~= cols);
}

/// Reading the glyphs of a parsed formula line again gives the same line.
pub proof fn lemma_formula_reparse_is_stable(
    line: Seq<char>,
    lib: Seq<SyntaxView>,
    new_syntax: Option<SyntaxView>,
    ctx: LineContext,
)
    ensures
        spec_parse_formula(spec_parse_formula(line, lib, new_syntax, ctx).chars, lib, new_syntax, ctx)
            == spec_parse_formula(line, lib, new_syntax, ctx),
{
    lemma_formula_keeps_chars(line, lib, new_syntax, ctx);
}

} // verus!
