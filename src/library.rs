use vstd::prelude::*;

verus! {

/// What a syntax builds: a well-formed formula or an object.
#[derive(Debug, PartialEq, Eq, Structural, Clone, Copy)]
pub enum SyntaxType {
    Formula,
    Object,
}

/// One atom of a syntax pattern. Ids are dense and local to their syntax.
#[derive(Debug, PartialEq, Eq, Structural, Clone, Copy)]
pub enum Placeholder {
    LiteralChar(char),
    WellFormedFormula(usize),
    Object(usize),
    Repetition,
}

/// A pattern that combines literals and placeholders into a formula or an object.
#[derive(Debug, Clone)]
pub struct Syntax {
    pub syntax_type: SyntaxType,
    pub formula: Vec<Placeholder>,
    pub distinct_wff_count: usize,
    pub distinct_object_count: usize,
}

/// The mathematical value of a `Syntax`.
pub struct SyntaxView {
    pub syntax_type: SyntaxType,
    pub formula: Seq<Placeholder>,
    pub wff_count: nat,
    pub object_count: nat,
}

impl SyntaxView {
    /// Every placeholder id is below the count of its kind.
    pub open spec fn wf(self) -> bool {
        forall|i: int|
            0 <= i < self.formula.len() ==> match #[trigger] self.formula[i] {
                Placeholder::WellFormedFormula(id) => id < self.wff_count,
                Placeholder::Object(id) => id < self.object_count,
                _ => true,
            }
    }
}

impl View for Syntax {
    type V = SyntaxView;

    open spec fn view(&self) -> SyntaxView {
        SyntaxView {
            syntax_type: self.syntax_type,
            formula: self.formula@,
            wff_count: self.distinct_wff_count as nat,
            object_count: self.distinct_object_count as nat,
        }
    }
}

/// A definition of the library.
#[derive(Debug, Clone)]
pub struct Definition {
    pub formula: Vec<char>,
}

/// An axiom of the library, with its assertions in order.
#[derive(Debug, Clone)]
pub struct Axiom {
    pub assertions: Vec<Vec<char>>,
}

/// A theorem of the library, with its assertions in order.
#[derive(Debug, Clone)]
pub struct Theorem {
    pub assertions: Vec<Vec<char>>,
}

/// The catalogue that formulas are parsed against. The order of `syntaxes` is
/// the parser's priority order.
#[derive(Debug, Clone)]
pub struct LibraryData {
    pub syntaxes: Vec<Syntax>,
    pub definitions: Vec<Definition>,
    pub axioms: Vec<Axiom>,
    pub theorems: Vec<Theorem>,
}

impl LibraryData {
    pub open spec fn syntax_views(&self) -> Seq<SyntaxView> {
        self.syntaxes@.map_values(|s: Syntax| s@)
    }

    /// Every syntax of the library is well formed.
    pub open spec fn wf(&self) -> bool {
        forall|i: int| 0 <= i < self.syntaxes@.len() ==> (#[trigger] self.syntaxes@[i])@.wf()
    }

    /// An empty library.
    pub fn new() -> (r: Self)
        ensures
            r.wf(),
            r.syntaxes@.len() == 0,
            r.definitions@.len() == 0,
            r.axioms@.len() == 0,
            r.theorems@.len() == 0,
    {
        LibraryData {
            syntaxes: Vec::new(),
            definitions: Vec::new(),
            axioms: Vec::new(),
            theorems: Vec::new(),
        }
    }
}

/// What a name refers to in the library: an index, and for axioms and
/// theorems an arity.
#[derive(Debug, PartialEq, Eq, Structural, Clone, Copy)]
pub enum Reference {
    DefinitionReference(usize),
    AxiomReference(usize, usize),
    TheoremReference(usize, usize),
}

/// The mapping from names to references. A name maps to its first entry.
#[derive(Debug, Clone)]
pub struct References {
    pub entries: Vec<(Vec<char>, Reference)>,
}

/// The reference of `name` among `entries`: that of its first entry.
pub open spec fn lookup_ref(entries: Seq<(Seq<char>, Reference)>, name: Seq<char>) -> Option<Reference>
    decreases entries.len(),
{
    if entries.len() == 0 {
        None
    } else if entries[0].0 == name {
        Some(entries[0].1)
    } else {
        lookup_ref(entries.drop_first(), name)
    }
}

impl References {
    pub open spec fn entries_view(&self) -> Seq<(Seq<char>, Reference)> {
        self.entries@.map_values(|e: (Vec<char>, Reference)| (e.0@, e.1))
    }

    pub open spec fn spec_get(&self, name: Seq<char>) -> Option<Reference> {
        lookup_ref(self.entries_view(), name)
    }

    /// Every reference points into `lib`.
    pub open spec fn valid_for(&self, lib: &LibraryData) -> bool {
        forall|i: int|
            0 <= i < self.entries@.len() ==> match #[trigger] self.entries@[i].1 {
                Reference::DefinitionReference(d) => d < lib.definitions@.len(),
                Reference::AxiomReference(a, _) => a < lib.axioms@.len(),
                Reference::TheoremReference(t, _) => t < lib.theorems@.len(),
            }
    }

    /// An empty mapping. Entries are looked up in order, and the first entry
    /// of a name is the one that counts, so a later entry never overrides it.
    pub fn new() -> (r: Self)
        ensures
            r.entries@.len() == 0,
    {
        References { entries: Vec::new() }
    }
}

} // verus!
