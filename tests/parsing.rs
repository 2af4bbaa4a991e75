use proof_editor::formula::{parse_formula, parse_new_syntax};
use proof_editor::library::{Axiom, LibraryData, Placeholder, Reference, References, Syntax, SyntaxType};
use proof_editor::parser::{parse_file, parse_title};
use proof_editor::proof_section::parse_proof_section;
use proof_editor::sections::{
    parse_assertion_section, parse_definition_section, parse_hypotesis_section, parse_syntax_section,
};
use proof_editor::types::{Color, ColorInfo, FileLine, FileType, LineContext};

fn chars(s: &str) -> Vec<char> {
    s.chars().collect()
}

fn text(s: &str) -> Vec<Vec<char>> {
    s.lines().map(chars).collect()
}

fn no() -> ColorInfo {
    ColorInfo::no_color()
}

fn red() -> ColorInfo {
    ColorInfo::fg_color(Color::Red)
}

fn cyan() -> ColorInfo {
    ColorInfo::fg_color(Color::Cyan)
}

fn header_ok() -> ColorInfo {
    ColorInfo::fg_color(Color::White).bold_underlined()
}

fn implication_library() -> LibraryData {
    let mut lib = LibraryData::new();
    lib.syntaxes.push(Syntax {
        syntax_type: SyntaxType::Formula,
        formula: vec![
            Placeholder::WellFormedFormula(0),
            Placeholder::LiteralChar('→'),
            Placeholder::WellFormedFormula(0),
        ],
        distinct_wff_count: 1,
        distinct_object_count: 0,
    });
    lib
}

fn line_text(l: &FileLine) -> String {
    l.chars.iter().collect()
}

fn all_styled(lines: &[FileLine]) -> bool {
    lines.iter().all(|l| l.chars.len() == l.colors.len())
}

#[test]
fn escape_string_of_styles() {
    assert_eq!(ColorInfo::no_color().to_escape_string(), "\x1b[0m");
    assert_eq!(ColorInfo::fg_color(Color::Red).to_escape_string(), "\x1b[0;31m");
    assert_eq!(ColorInfo::fg_bg_color(Color::Black, Color::Cyan).underlined().to_escape_string(), "\x1b[0;4;30;46m");
    assert_eq!(ColorInfo::fg_color(Color::White).bold_underlined().to_escape_string(), "\x1b[0;1;4;37m");
    assert_eq!(ColorInfo::fg_color(Color::Blue).bold().to_escape_string(), "\x1b[0;1;34m");
}

#[test]
fn style_builders() {
    let c = ColorInfo::fg_bg_color(Color::Green, Color::Yellow);
    assert_eq!(c, ColorInfo { fg: Some(Color::Green), bg: Some(Color::Yellow), bold: false, underline: false });
    assert!(c.bold().bold && !c.bold().underline);
    assert!(c.underlined().underline && !c.underlined().bold);
    assert!(c.bold_underlined().bold && c.bold_underlined().underline);
}

#[test]
fn empty_file_gives_no_lines() {
    let lines = parse_file(vec![], &LibraryData::new(), &References::new());
    assert!(lines.is_empty());
}

#[test]
fn title_only_file() {
    let lines = parse_file(text("## Theorem abc"), &LibraryData::new(), &References::new());
    assert_eq!(lines.len(), 1);
    assert_eq!(lines[0].context, LineContext::Title);
    assert_eq!(line_text(&lines[0]), "## Theorem abc");
}

#[test]
fn axiom_file_sections() {
    let lines = parse_file(text("## Axiom foo\n# Hypothesis\n# Assertion\n"), &LibraryData::new(), &References::new());
    assert_eq!(lines.len(), 3);
    assert_eq!(lines[0].context, LineContext::Title);
    let title_style = ColorInfo::fg_bg_color(Color::Black, Color::Blue).underlined();
    assert!(lines[0].colors[..9].iter().all(|c| *c == title_style));
    let name_style = ColorInfo::fg_bg_color(Color::Black, Color::Cyan).underlined();
    assert!(lines[0].colors[9..].iter().all(|c| *c == name_style));
    assert_eq!(lines[1].context, LineContext::Section);
    assert_eq!(lines[2].context, LineContext::Section);
    assert!(lines[1].colors.iter().all(|c| *c == header_ok()));
    assert!(lines[2].colors.iter().all(|c| *c == header_ok()));
}

#[test]
fn title_kinds() {
    let (l, t) = parse_title(chars("## Syntax Definition (formula) and"));
    assert_eq!(t, FileType::SyntaxDefinitionFormula);
    assert_eq!(l.context, LineContext::Title);
    let (_, t) = parse_title(chars("## Syntax Definition (object) x1"));
    assert_eq!(t, FileType::SyntaxDefinitionObject);
    let (l, t) = parse_title(chars("## Lemma x"));
    assert_eq!(t, FileType::Unknown);
    assert_eq!(l.colors[0], ColorInfo::fg_bg_color(Color::Black, Color::Red).underlined());
    let (l, t) = parse_title(chars("## Axiom a-b"));
    assert_eq!(t, FileType::Axiom);
    assert_eq!(l.colors[9], ColorInfo::fg_bg_color(Color::Black, Color::Red).underlined());
    let (l, t) = parse_title(chars("# Axiom"));
    assert_eq!((l.context, t), (LineContext::Raw, FileType::Unknown));
    let (l, t) = parse_title(chars("##Axiom"));
    assert_eq!((l.context, t), (LineContext::Raw, FileType::Unknown));
}

#[test]
fn formula_with_plain_letters_fails() {
    let lib = implication_library();
    let l = parse_formula(chars("x → x"), &lib, None, LineContext::AssumedAssertion);
    assert_eq!(line_text(&l), "x → x");
    assert!(l.colors.iter().all(|c| *c == red()));
}

#[test]
fn formula_with_variables_compiles() {
    let lib = implication_library();
    let l = parse_formula(chars("𝛼 → 𝛼"), &lib, None, LineContext::AssumedAssertion);
    assert_eq!(l.context, LineContext::AssumedAssertion);
    assert_eq!(line_text(&l), "𝛼 → 𝛼");
    assert_eq!(l.colors, vec![cyan(), no(), cyan(), no(), cyan()]);
}

#[test]
fn formula_keeps_outer_spaces() {
    let lib = implication_library();
    let l = parse_formula(chars("  𝛼 → 𝛼 "), &lib, None, LineContext::ProofLine);
    assert_eq!(line_text(&l), "  𝛼 → 𝛼 ");
    assert_eq!(l.colors, vec![no(), no(), cyan(), no(), cyan(), no(), cyan(), no()]);
}

#[test]
fn formula_of_different_bindings_fails() {
    let lib = implication_library();
    let l = parse_formula(chars("𝛼 → 𝛽"), &lib, None, LineContext::ProofLine);
    assert!(l.colors.iter().all(|c| *c == red()));
}

#[test]
fn lone_variables() {
    let lib = LibraryData::new();
    let l = parse_formula(chars("𝛼"), &lib, None, LineContext::ProofLine);
    assert_eq!(l.colors, vec![ColorInfo::fg_color(Color::Blue).bold()]);
    let l = parse_formula(chars("𝑎"), &lib, None, LineContext::ProofLine);
    assert_eq!(l.colors, vec![red()]);
}

#[test]
fn nested_formula() {
    let lib = implication_library();
    let mut lib2 = lib.clone();
    lib2.syntaxes.push(Syntax {
        syntax_type: SyntaxType::Formula,
        formula: vec![Placeholder::LiteralChar('('), Placeholder::WellFormedFormula(0), Placeholder::LiteralChar(')')],
        distinct_wff_count: 1,
        distinct_object_count: 0,
    });
    let l = parse_formula(chars("(𝛼 → 𝛼) → (𝛼 → 𝛼)"), &lib2, None, LineContext::ProofLine);
    assert_eq!(line_text(&l), "(𝛼 → 𝛼) → (𝛼 → 𝛼)");
    assert!(l.colors.iter().all(|c| *c == cyan() || *c == no()));
    assert_eq!(l.colors[1], cyan());
    assert_eq!(l.colors[2], cyan());
    assert_eq!(l.colors[7], no());
    assert_eq!(l.colors[8], cyan());
}

#[test]
fn all_space_formula_stays_plain() {
    let l = parse_formula(chars("   "), &implication_library(), None, LineContext::UnprovenAssertion);
    assert_eq!(line_text(&l), "   ");
    assert_eq!(l.colors, vec![no(); 3]);
    let l = parse_formula(vec![], &implication_library(), None, LineContext::UnprovenAssertion);
    assert!(l.chars.is_empty() && l.colors.is_empty());
}

#[test]
fn ellipsis_makes_formula_red() {
    let l = parse_formula(chars("𝛼 → …"), &implication_library(), None, LineContext::ProofLine);
    assert_eq!(line_text(&l), "𝛼 → …");
    assert!(l.colors.iter().all(|c| *c == red()));
}

#[test]
fn singleton_syntax_colors() {
    let mut lib = LibraryData::new();
    lib.syntaxes.push(Syntax {
        syntax_type: SyntaxType::Formula,
        formula: vec![Placeholder::LiteralChar('⊤'), Placeholder::LiteralChar('!')],
        distinct_wff_count: 0,
        distinct_object_count: 0,
    });
    let l = parse_formula(chars("⊤!"), &lib, None, LineContext::ProofLine);
    assert_eq!(l.colors, vec![ColorInfo::fg_color(Color::Green); 2]);
}

#[test]
fn object_syntaxes_build_formulas() {
    let mut lib = LibraryData::new();
    lib.syntaxes.push(Syntax {
        syntax_type: SyntaxType::Object,
        formula: vec![Placeholder::LiteralChar('0')],
        distinct_wff_count: 0,
        distinct_object_count: 0,
    });
    lib.syntaxes.push(Syntax {
        syntax_type: SyntaxType::Formula,
        formula: vec![Placeholder::Object(0), Placeholder::LiteralChar('='), Placeholder::Object(1)],
        distinct_wff_count: 0,
        distinct_object_count: 2,
    });
    let l = parse_formula(chars("0 = 𝑎"), &lib, None, LineContext::ProofLine);
    assert_eq!(l.colors, vec![cyan(), no(), cyan(), no(), cyan()]);
    let l = parse_formula(chars("0 0"), &lib, None, LineContext::ProofLine);
    assert!(l.colors.iter().all(|c| *c == red()));
}

#[test]
fn new_syntax_goes_first_in_white() {
    let (_, syn) = parse_new_syntax(chars("𝛼 ∧ 𝛽"), SyntaxType::Formula);
    let syn = syn.unwrap();
    let mut lib = LibraryData::new();
    lib.syntaxes.push(Syntax {
        syntax_type: SyntaxType::Formula,
        formula: vec![Placeholder::WellFormedFormula(0), Placeholder::LiteralChar('∧'), Placeholder::WellFormedFormula(1)],
        distinct_wff_count: 2,
        distinct_object_count: 0,
    });
    let white = ColorInfo::fg_color(Color::White);
    let l = parse_formula(chars("𝑎 ∧ 𝑏"), &lib, Some(syn), LineContext::AssumedAssertion);
    assert_eq!(l.colors, vec![white, no(), white, no(), white]);
}

#[test]
fn single_placeholder_syntax_never_applies() {
    let mut lib = implication_library();
    lib.syntaxes.insert(0, Syntax {
        syntax_type: SyntaxType::Formula,
        formula: vec![Placeholder::WellFormedFormula(0)],
        distinct_wff_count: 1,
        distinct_object_count: 0,
    });
    let l = parse_formula(chars("𝛼 → 𝛼"), &lib, None, LineContext::ProofLine);
    assert_eq!(l.colors, vec![cyan(), no(), cyan(), no(), cyan()]);
}

#[test]
fn new_syntax_placeholders() {
    let (line, syn) = parse_new_syntax(chars("𝑎 ∧ 𝑏"), SyntaxType::Formula);
    let syn = syn.unwrap();
    assert_eq!(syn.syntax_type, SyntaxType::Formula);
    assert_eq!(
        syn.formula,
        vec![Placeholder::WellFormedFormula(0), Placeholder::LiteralChar('∧'), Placeholder::WellFormedFormula(1)]
    );
    assert_eq!(syn.distinct_wff_count, 2);
    assert_eq!(syn.distinct_object_count, 0);
    assert_eq!(line.context, LineContext::SyntaxDefinition);
    let var = ColorInfo::fg_color(Color::Red).bold();
    assert_eq!(line.colors, vec![var, no(), ColorInfo::fg_color(Color::White), no(), var]);
}

#[test]
fn new_syntax_ids_are_dense() {
    let (_, syn) = parse_new_syntax(chars("𝛼𝑏𝛽𝑏𝛼…𝑐"), SyntaxType::Object);
    let syn = syn.unwrap();
    assert_eq!(
        syn.formula,
        vec![
            Placeholder::Object(0),
            Placeholder::WellFormedFormula(0),
            Placeholder::Object(1),
            Placeholder::WellFormedFormula(0),
            Placeholder::Object(0),
            Placeholder::Repetition,
            Placeholder::WellFormedFormula(1),
        ]
    );
    assert_eq!((syn.distinct_wff_count, syn.distinct_object_count), (2, 2));
    let (line, syn) = parse_new_syntax(vec![], SyntaxType::Formula);
    assert!(syn.is_none() && line.chars.is_empty());
}

#[test]
fn syntax_file_defines_and_uses_its_syntax() {
    let file = text("## Syntax Definition (formula) and\n# Syntax\n𝑎 ∧ 𝑏\n# Definition\n𝛼 ∧ 𝛽\nextra");
    let lines = parse_file(file, &LibraryData::new(), &References::new());
    assert_eq!(lines.len(), 6);
    assert_eq!(lines[2].context, LineContext::SyntaxDefinition);
    assert_eq!(lines[4].context, LineContext::AssumedAssertion);
    let white = ColorInfo::fg_color(Color::White);
    assert_eq!(lines[4].colors, vec![white, no(), white, no(), white]);
    assert_eq!(lines[5].context, LineContext::UnexpectedLine);
    assert!(all_styled(&lines));
}

#[test]
fn sections_alone() {
    let (l, s) = parse_syntax_section(text("# Syntaxes\n𝑎 ∨ 𝑏\nmore"), SyntaxType::Object);
    assert_eq!(l.len(), 3);
    assert!(l[0].colors.iter().all(|c| *c == red()));
    assert_eq!(s.unwrap().syntax_type, SyntaxType::Object);
    assert_eq!(l[2].context, LineContext::UnexpectedLine);
    let d = parse_definition_section(text("# Definition"), &LibraryData::new(), None);
    assert_eq!(d.len(), 1);
    let a = parse_assertion_section(text("# Hypotheses\n𝛼"), &LibraryData::new(), LineContext::AxiomHypothesis);
    assert!(a[0].colors.iter().all(|c| *c == header_ok()));
    let a = parse_assertion_section(text("# Hypotheses\n𝛼"), &LibraryData::new(), LineContext::UnprovenAssertion);
    assert!(a[0].colors.iter().all(|c| *c == red()));
    let a = parse_assertion_section(text("# Assertion\n𝛼"), &LibraryData::new(), LineContext::AxiomHypothesis);
    assert!(a[0].colors.iter().all(|c| *c == red()));
    let a = parse_assertion_section(text("# Assertions"), &LibraryData::new(), LineContext::AssumedAssertion);
    assert!(a[0].colors.iter().all(|c| *c == header_ok()));
}

#[test]
fn hypothesis_section_names() {
    let (lines, names) = parse_hypotesis_section(text("# Hypotheses\nh1: 𝛼\nno colon\nh2:𝛽"), &LibraryData::new());
    assert_eq!(names, vec![chars("h1"), chars("h2")]);
    assert_eq!(lines.len(), 4);
    assert_eq!(lines[1].context, LineContext::Hypothesis);
    assert_eq!(line_text(&lines[1]), "h1: 𝛼");
    assert_eq!(lines[1].colors[..4], [no(), no(), no(), no()]);
    assert_eq!(lines[2].context, LineContext::UnexpectedLine);
}

fn proof_library() -> (LibraryData, References) {
    let mut lib = implication_library();
    lib.axioms.push(Axiom { assertions: vec![chars("a"), chars("b")] });
    let mut refs = References::new();
    refs.entries.push((chars("ax"), Reference::AxiomReference(0, 0)));
    refs.entries.push((chars("def"), Reference::DefinitionReference(0)));
    (lib, refs)
}

#[test]
fn proof_columns_are_padded() {
    let (lib, refs) = proof_library();
    let lines = parse_proof_section(text("# Proof\n1;;ax;𝛼\n 2 ; 1, 7 ;ax.2; 𝛼 → 𝛼"), &lib, &refs, vec![]);
    assert_eq!(lines.len(), 3);
    assert_eq!(line_text(&lines[1]), "1  ;      ; ax   ; 𝛼");
    assert_eq!(line_text(&lines[2]), "2  ; 1, 7 ; ax.2 ; 𝛼 → 𝛼");
    assert!(lines[2].colors[..2].iter().all(|c| *c == no()));
    assert_eq!(lines[2].colors[5], no());
    assert_eq!(lines[2].colors[8], red());
    assert!(lines[2].colors[12..16].iter().all(|c| *c == no()));
    assert_eq!(lines[2].context, LineContext::ProofLine);
    assert!(all_styled(&lines));
}

#[test]
fn proof_line_number_out_of_sequence_is_red() {
    let (lib, refs) = proof_library();
    let lines = parse_proof_section(text("# Proof\n3 ; ; ax ; 𝛼"), &lib, &refs, vec![]);
    assert_eq!(lines[1].colors[0], red());
    assert_eq!(lines[1].colors[1], red());
}

#[test]
fn proof_line_unknown_reference_is_red() {
    let (lib, refs) = proof_library();
    let lines = parse_proof_section(text("# Proof\n1 ; ; nope ; 𝛼"), &lib, &refs, vec![]);
    assert_eq!(line_text(&lines[1]), "1  ;    ; nope ; 𝛼");
    assert!(lines[1].colors[10..14].iter().all(|c| *c == red()));
}

#[test]
fn proof_references() {
    let (lib, refs) = proof_library();
    let body = "# Proof\n1;;h;𝛼\n2;;ax.3;𝛼\n3;;def;𝛼\n4;;def.2;𝛼\n5;;ax.0;𝛼\n6;;ax.x;𝛼";
    let lines = parse_proof_section(text(body), &lib, &refs, vec![chars("h")]);
    let theo_color = |l: &FileLine| l.colors[10];
    assert_eq!(theo_color(&lines[1]), no());
    assert_eq!(theo_color(&lines[2]), red());
    assert_eq!(theo_color(&lines[3]), no());
    assert_eq!(theo_color(&lines[4]), red());
    assert_eq!(theo_color(&lines[5]), red());
    assert_eq!(theo_color(&lines[6]), red());
}

#[test]
fn used_hypotheses_need_a_line_number() {
    let (lib, refs) = proof_library();
    let lines = parse_proof_section(text("# Proof\nx ; 9 ; ax ; 𝛼"), &lib, &refs, vec![]);
    assert_eq!(line_text(&lines[1]), "x  ; 9  ; ax ; 𝛼");
    assert_eq!(lines[1].colors[5], no());
}

#[test]
fn theorem_file() {
    let (lib, refs) = proof_library();
    let file = text("## Theorem t\n\n# Hypothesis\nh:𝛼\n# Assertion\n𝛼 → 𝛼\n# Proof\n1 ; ; h ; 𝛼\n# More\nx");
    let lines = parse_file(file, &lib, &refs);
    assert_eq!(lines.len(), 10);
    let contexts: Vec<LineContext> = lines.iter().map(|l| l.context).collect();
    assert_eq!(
        contexts,
        vec![
            LineContext::Title,
            LineContext::Raw,
            LineContext::Section,
            LineContext::Hypothesis,
            LineContext::Section,
            LineContext::UnprovenAssertion,
            LineContext::Section,
            LineContext::ProofLine,
            LineContext::UnexpectedLine,
            LineContext::UnexpectedLine,
        ]
    );
    assert!(lines[7].colors[..10].iter().all(|c| *c == no()));
    assert!(all_styled(&lines));
}

#[test]
fn unknown_file_is_raw() {
    let lines = parse_file(text("hello\n# a\nb"), &LibraryData::new(), &References::new());
    assert!(lines.iter().all(|l| l.context == LineContext::Raw && l.colors.iter().all(|c| *c == no())));
}

#[test]
fn reparsing_rendered_file_is_stable() {
    let (lib, refs) = proof_library();
    let file = text("## Theorem t\n# Hypothesis\nh:𝛼\n# Assertion\n𝛼 → 𝛼\n# Proof\n1;;h;𝛼\n 2 ; 1 ;ax.1; 𝛼 → 𝛼");
    let first = parse_file(file, &lib, &refs);
    let rendered: Vec<Vec<char>> = first.iter().map(|l| l.chars.clone()).collect();
    let second = parse_file(rendered, &lib, &refs);
    assert_eq!(first.len(), second.len());
    for (a, b) in first.iter().zip(second.iter()) {
        assert_eq!(a.context, b.context);
        assert_eq!(a.chars, b.chars);
        assert_eq!(a.colors, b.colors);
    }
}

#[test]
fn used_hypotheses_keep_their_glyphs() {
    let (lib, refs) = proof_library();
    let lines = parse_proof_section(vec![chars("# Proof"), chars("1;;h;𝛼"), chars("2;1,\t1;h;𝛼")], &lib, &refs, vec![chars("h")]);
    assert_eq!(line_text(&lines[2]), "2  ; 1,\t1 ; h  ; 𝛼");
    assert_eq!(lines[2].colors[5], no());
    assert_eq!(lines[2].colors[7], no());
    assert_eq!(lines[2].colors[8], no());
}
