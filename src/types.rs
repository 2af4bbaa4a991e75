use vstd::prelude::*;
use vstd::string::StringExecFns;

verus! {

/// One of the eight basic terminal colors, in SGR order.
#[derive(Debug, PartialEq, Eq, Structural, Clone, Copy)]
pub enum Color {
    Black,
    Red,
    Green,
    Yellow,
    Blue,
    Magenta,
    Cyan,
    White,
}

/// The SGR digit of a color: its position in the list above.
pub open spec fn color_digit(c: Color) -> char {
    match c {
        Color::Black => '0',
        Color::Red => '1',
        Color::Green => '2',
        Color::Yellow => '3',
        Color::Blue => '4',
        Color::Magenta => '5',
        Color::Cyan => '6',
        Color::White => '7',
    }
}

/// Style of one glyph: optional foreground and background, bold, underline.
#[derive(Debug, PartialEq, Eq, Structural, Clone, Copy)]
pub struct ColorInfo {
    pub fg: Option<Color>,
    pub bg: Option<Color>,
    pub bold: bool,
    pub underline: bool,
}

/// The plain style: no color, no attribute.
pub open spec fn no_color() -> ColorInfo {
    ColorInfo { fg: None, bg: None, bold: false, underline: false }
}

/// A foreground color and nothing else.
pub open spec fn fg(c: Color) -> ColorInfo {
    ColorInfo { fg: Some(c), bg: None, bold: false, underline: false }
}

/// A foreground and a background color.
pub open spec fn fg_bg(c1: Color, c2: Color) -> ColorInfo {
    ColorInfo { fg: Some(c1), bg: Some(c2), bold: false, underline: false }
}

pub open spec fn with_bold(c: ColorInfo) -> ColorInfo {
    ColorInfo { bold: true, ..c }
}

pub open spec fn with_underline(c: ColorInfo) -> ColorInfo {
    ColorInfo { underline: true, ..c }
}

/// The ECMA-48 SGR sequence that selects a style, starting from a reset.
pub open spec fn escape_seq(c: ColorInfo) -> Seq<char> {
    seq!['\u{1b}', '[', '0']
        + (if c.bold { seq![';', '1'] } else { Seq::empty() })
        + (if c.underline { seq![';', '4'] } else { Seq::empty() })
        + (match c.fg { Some(f) => seq![';', '3', color_digit(f)], None => Seq::empty() })
        + (match c.bg { Some(b) => seq![';', '4', color_digit(b)], None => Seq::empty() })
        + seq!['m']
}

fn push_color_digit(s: &mut String, c: Color)
    ensures
        final(s)@ == old(s)@ + seq![color_digit(c)],
{
    proof {
        reveal_strlit("0");
        reveal_strlit("1");
        reveal_strlit("2");
        reveal_strlit("3");
        reveal_strlit("4");
        reveal_strlit("5");
        reveal_strlit("6");
        reveal_strlit("7");
    }
    match c {
        Color::Black => s.append("0"),
        Color::Red => s.append("1"),
        Color::Green => s.append("2"),
        Color::Yellow => s.append("3"),
        Color::Blue => s.append("4"),
        Color::Magenta => s.append("5"),
        Color::Cyan => s.append("6"),
        Color::White => s.append("7"),
    }
}

impl ColorInfo {
    /// The escape sequence that switches the terminal to this style.
    pub fn to_escape_string(self) -> (r: String)
        ensures
            r@ == escape_seq(self),
    {
        proof {
            reveal_strlit("\x1b[0");
            reveal_strlit(";1");
            reveal_strlit(";4");
            reveal_strlit(";3");
            reveal_strlit("m");
        }
        let mut result = String::from_str("\x1b[0");
        if self.bold {
            result.append(";1");
        }
        if self.underline {
            result.append(";4");
        }
        if let Some(color) = self.fg {
            result.append(";3");
            push_color_digit(&mut result, color);
        }
        if let Some(color) = self.bg {
            result.append(";4");
            push_color_digit(&mut result, color);
        }
        result.append("m");
        assert(result@ =~= escape_seq(self));
        result
    }

    pub fn no_color() -> (r: Self)
        ensures
            r == no_color(),
    {
        ColorInfo { fg: None, bg: None, bold: false, underline: false }
    }

    pub fn fg_color(color: Color) -> (r: Self)
        ensures
            r == fg(color),
    {
        ColorInfo { fg: Some(color), bg: None, bold: false, underline: false }
    }

    pub fn fg_bg_color(c1: Color, c2: Color) -> (r: Self)
        ensures
            r == fg_bg(c1, c2),
    {
        ColorInfo { fg: Some(c1), bg: Some(c2), bold: false, underline: false }
    }

    pub fn bold(self) -> (r: Self)
        ensures
            r == with_bold(self),
    {
        ColorInfo { fg: self.fg, bg: self.bg, bold: true, underline: self.underline }
    }

    pub fn underlined(self) -> (r: Self)
        ensures
            r == with_underline(self),
    {
        ColorInfo { fg: self.fg, bg: self.bg, bold: self.bold, underline: true }
    }

    pub fn bold_underlined(self) -> (r: Self)
        ensures
            r == with_underline(with_bold(self)),
    {
        ColorInfo { fg: self.fg, bg: self.bg, bold: true, underline: true }
    }
}

/// What a file declares in its title line.
#[derive(Debug, PartialEq, Eq, Structural, Clone, Copy)]
pub enum FileType {
    SyntaxDefinitionFormula,
    SyntaxDefinitionObject,
    Axiom,
    Theorem,
    Unknown,
}

/// The role of a line in its file; it decides styling and how an edit is reparsed.
#[derive(Debug, PartialEq, Eq, Structural, Clone, Copy)]
pub enum LineContext {
    Raw,
    Title,
    Section,
    SyntaxDefinition,
    AxiomHypothesis,
    Hypothesis,
    UnprovenAssertion,
    AssumedAssertion,
    ProofLine,
    UnexpectedLine,
}

/// A styled line: glyph `i` is drawn with style `colors[i]`.
#[derive(Debug, Clone)]
pub struct FileLine {
    pub context: LineContext,
    pub chars: Vec<char>,
    pub colors: Vec<ColorInfo>,
}

/// The mathematical value of a `FileLine`.
pub struct LineView {
    pub context: LineContext,
    pub chars: Seq<char>,
    pub colors: Seq<ColorInfo>,
}

impl LineView {
    /// Every glyph has exactly one style.
    pub open spec fn wf(self) -> bool {
        self.chars.len() == self.colors.len()
    }
}

impl View for FileLine {
    type V = LineView;

    open spec fn view(&self) -> LineView {
        LineView { context: self.context, chars: self.chars@, colors: self.colors@ }
    }
}

/// A line drawn in a single style.
pub open spec fn mono_line(ctx: LineContext, chars: Seq<char>, c: ColorInfo) -> LineView {
    LineView { context: ctx, chars, colors: Seq::new(chars.len(), |i: int| c) }
}

/// The views of a sequence of lines.
pub open spec fn lines_view(lines: Seq<FileLine>) -> Seq<LineView> {
    lines.map_values(|l: FileLine| l@)
}

/// A line of `chars.len()` glyphs, all drawn in style `c`.
pub fn mono_file_line(ctx: LineContext, chars: Vec<char>, c: ColorInfo) -> (r: FileLine)
    ensures
        r@ == mono_line(ctx, chars@, c),
{
    let mut colors: Vec<ColorInfo> = Vec::new();
    let mut i: usize = 0;
    while i < chars.len()
        invariant
            i <= chars.len(),
            colors@ =~= Seq::new(i as nat, |j: int| c),
        decreases chars.len() - i,
    {
        colors.push(c);
        i += 1;
    }
    FileLine { context: ctx, chars, colors }
}

} // verus!

verus! {

/// Every line has one style per glyph.
pub open spec fn all_wf(ls: Seq<LineView>) -> bool {
    forall|i: int| 0 <= i < ls.len() ==> (#[trigger] ls[i]).wf()
}

/// The character sequences of a list of lines of text.
pub open spec fn text_view(v: Seq<Vec<char>>) -> Seq<Seq<char>> {
    v.map_values(|l: Vec<char>| l@)
}

/// Each line of `ls` drawn in one style.
pub open spec fn mono_lines(ctx: LineContext, ls: Seq<Seq<char>>, c: ColorInfo) -> Seq<LineView> {
    Seq::new(ls.len(), |i: int| mono_line(ctx, ls[i], c))
}

/// Appends `section[from..]`, each line drawn in one style.
pub fn push_mono_lines(
    result: &mut Vec<FileLine>,
    section: &Vec<Vec<char>>,
    from: usize,
    ctx: LineContext,
    c: ColorInfo,
)
    requires
        all_wf(lines_view(old(result)@)),
    ensures
        from <= section@.len() ==> lines_view(final(result)@) == lines_view(old(result)@) + mono_lines(
            ctx,
            text_view(section@).subrange(from as int, section@.len() as int),
            c,
        ),
        from > section@.len() ==> final(result)@ == old(result)@,
        all_wf(lines_view(final(result)@)),
{
    let ghost tv = text_view(section@);
    if from > section.len() {
        return;
    }
    let mut i: usize = from;
    while i < section.len()
        invariant
            from <= i <= section@.len(),
            tv == text_view(section@),
            lines_view(result@) =~= lines_view(old(result)@) + mono_lines(ctx, tv.subrange(from as int, i as int), c),
            all_wf(lines_view(result@)),
        decreases section.len() - i,
    {
        let line = crate::text::copy_chars(&section[i]);
        let fl = mono_file_line(ctx, line, c);
        let ghost before = result@;
        result.push(fl);
        assert(lines_view(result@) =~= lines_view(before).push(fl@));
        assert(tv.subrange(from as int, i + 1) =~= tv.subrange(from as int, i as int).push(tv[i as int]));
        i += 1;
    }
}

} // verus!
