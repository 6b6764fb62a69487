//! Fragments of Solidity source: the declaration kinds visible at the top
//! level of a parsed fragment, and their placement classification.

use vstd::prelude::*;
use solang_parser::pt::{Import, ImportPath, SourceUnitPart};

verus! {

#[verifier::external_type_specification]
#[verifier::external_body]
pub struct ExSourceUnitPart(SourceUnitPart);

/// The syntactic kind of one top-level declaration of a parsed fragment.
#[derive(Clone, Copy, Debug, PartialEq, Eq, Structural)]
pub enum DeclKind {
    /// A `pragma` directive.
    Pragma,
    /// An `import` directive.
    Import,
    /// A contract, interface or library definition.
    Contract,
    /// An `enum` definition.
    EnumDef,
    /// A `struct` definition.
    StructDef,
    /// An `event` definition.
    EventDef,
    /// An `error` definition.
    ErrorDef,
    /// A free function definition.
    FunctionDef,
    /// A variable declaration.
    Variable,
    /// A `type` alias definition.
    TypeAlias,
    /// A `using` directive.
    UsingDir,
    /// A stray terminator such as a bare semicolon.
    Stray,
    /// An annotation attached to no other construct.
    Annotation,
}

/// Where a fragment lands when the session is synthesized into one program.
#[derive(Clone, Copy, Debug, PartialEq, Eq, Structural)]
pub enum Placement {
    /// Considered for the single program-wide pragma line.
    PragmaCandidate,
    /// Contributes its import paths to the shared import block.
    ImportSource,
    /// Dropped from every region of the synthesized program.
    Excluded,
    /// Placed verbatim, in session order, inside the container body.
    TopLevelRenderable,
    /// Placed verbatim, in session order, inside the default entry point.
    FallbackOnly,
}

/// The placement of a fragment whose leading declaration has kind `k`.
pub open spec fn spec_placement_of_kind(k: DeclKind) -> Placement {
    match k {
        DeclKind::Pragma => Placement::PragmaCandidate,
        DeclKind::Import => Placement::ImportSource,
        DeclKind::Contract => Placement::Excluded,
        DeclKind::EnumDef => Placement::TopLevelRenderable,
        DeclKind::StructDef => Placement::TopLevelRenderable,
        DeclKind::EventDef => Placement::TopLevelRenderable,
        DeclKind::ErrorDef => Placement::TopLevelRenderable,
        DeclKind::FunctionDef => Placement::TopLevelRenderable,
        DeclKind::Variable => Placement::FallbackOnly,
        DeclKind::TypeAlias => Placement::TopLevelRenderable,
        DeclKind::UsingDir => Placement::TopLevelRenderable,
        DeclKind::Stray => Placement::Excluded,
        DeclKind::Annotation => Placement::Excluded,
    }
}

/// The placement of a whole fragment is decided by its leading declaration
/// alone; a fragment with no declaration at all is excluded.
pub open spec fn spec_placement(kinds: Seq<DeclKind>) -> Placement {
    if kinds.len() == 0 {
        Placement::Excluded
    } else {
        spec_placement_of_kind(kinds[0])
    }
}

/// Classifies one leading declaration kind.
pub fn placement_of_kind(k: DeclKind) -> (p: Placement)
    ensures
        p == spec_placement_of_kind(k),
{
    match k {
        DeclKind::Pragma => Placement::PragmaCandidate,
        DeclKind::Import => Placement::ImportSource,
        DeclKind::Contract => Placement::Excluded,
        DeclKind::EnumDef => Placement::TopLevelRenderable,
        DeclKind::StructDef => Placement::TopLevelRenderable,
        DeclKind::EventDef => Placement::TopLevelRenderable,
        DeclKind::ErrorDef => Placement::TopLevelRenderable,
        DeclKind::FunctionDef => Placement::TopLevelRenderable,
        DeclKind::Variable => Placement::FallbackOnly,
        DeclKind::TypeAlias => Placement::TopLevelRenderable,
        DeclKind::UsingDir => Placement::TopLevelRenderable,
        DeclKind::Stray => Placement::Excluded,
        DeclKind::Annotation => Placement::Excluded,
    }
}

/// What the external Solidity parser makes of a piece of source text:
/// `None` when the text does not parse, otherwise the kinds of its top-level
/// declarations in order, paired with the paths of every import directive in
/// the tree, in tree order. The parser is a pure function of the text.
pub uninterp spec fn parsed(s: Seq<char>) -> Option<(Seq<DeclKind>, Seq<Seq<char>>)>;

/// Relies on solang_parser::parse: parsing either fails or yields the full
/// ordered list of top-level declarations, from which each declaration's kind
/// and each import directive's literal path are read off one to one.
#[verifier::external_body]
fn parse_source(text: &str) -> (r: Option<(Vec<DeclKind>, Vec<String>)>)
    ensures
        r is Some <==> parsed(text@) is Some,
        r matches Some(p) ==> parsed(text@) == Some((p.0@, p.1.deep_view())),
{
    match solang_parser::parse(text, 0) {
        Err(_) => None,
        Ok((unit, _)) => Some((
            unit.0.iter().map(kind_of_part).collect(),
            unit.0.iter().filter_map(import_path).collect(),
        )),
    }
}

/// Relies on solang_parser's `SourceUnitPart`: tells its variants apart,
/// mapping each to the declaration kind of the same name.
#[verifier::external_body]
fn kind_of_part(p: &SourceUnitPart) -> DeclKind {
    match p {
        SourceUnitPart::PragmaDirective(_) => DeclKind::Pragma,
        SourceUnitPart::ImportDirective(_) => DeclKind::Import,
        SourceUnitPart::ContractDefinition(_) => DeclKind::Contract,
        SourceUnitPart::EnumDefinition(_) => DeclKind::EnumDef,
        SourceUnitPart::StructDefinition(_) => DeclKind::StructDef,
        SourceUnitPart::EventDefinition(_) => DeclKind::EventDef,
        SourceUnitPart::ErrorDefinition(_) => DeclKind::ErrorDef,
        SourceUnitPart::FunctionDefinition(_) => DeclKind::FunctionDef,
        SourceUnitPart::VariableDefinition(_) => DeclKind::Variable,
        SourceUnitPart::TypeDefinition(_) => DeclKind::TypeAlias,
        SourceUnitPart::Using(_) => DeclKind::UsingDir,
        SourceUnitPart::StraySemicolon(_) => DeclKind::Stray,
        SourceUnitPart::Annotation(_) => DeclKind::Annotation,
    }
}

/// Relies on solang_parser's `Import` and `ImportPath`: picks the path out of
/// an import directive, as its literal text.
#[verifier::external_body]
fn import_path(p: &SourceUnitPart) -> Option<String> {
    let im = match p {
        SourceUnitPart::ImportDirective(im) => im,
        _ => return None,
    };
    let ip = match im {
        Import::Plain(ip, _) => ip,
        Import::GlobalSymbol(ip, _, _) => ip,
        Import::Rename(ip, _, _) => ip,
    };
    Some(match ip {
        ImportPath::Filename(lit) => lit.string.clone(),
        ImportPath::Path(idp) => idp.to_string(),
    })
}

/// One accepted fragment: the declaration kinds and import paths read from
/// its parse tree, and the exact raw text as submitted.
#[derive(Debug)]
pub struct SolSnippet {
    /// The kinds of the fragment's top-level declarations, in order.
    pub kinds: Vec<DeclKind>,
    /// The literal paths of every import directive in the tree, in order.
    pub imports: Vec<String>,
    /// The raw source code.
    pub raw: String,
}

impl SolSnippet {
    /// The fragment's data agrees with what the parser makes of its raw text.
    pub open spec fn wf(self) -> bool {
        parsed(self.raw@) == Some((self.kinds@, self.imports.deep_view()))
    }

    /// Where this fragment lands in the synthesized program.
    pub fn placement(&self) -> (p: Placement)
        ensures
            p == spec_placement(self.kinds@),
    {
        if self.kinds.len() == 0 {
            Placement::Excluded
        } else {
            placement_of_kind(self.kinds[0])
        }
    }
}

/// Parses one submitted fragment. Returns `None` exactly when the external
/// parser rejects the text; otherwise the returned fragment carries the
/// submitted text verbatim together with what the parser read from it.
pub fn parse_fragment(text: &str) -> (r: Option<SolSnippet>)
    ensures
        r is Some <==> parsed(text@) is Some,
        r matches Some(s) ==> s.wf() && s.raw@ == text@,
{
    match parse_source(text) {
        None => None,
        Some((kinds, imports)) => Some(SolSnippet { kinds, imports, raw: text.to_owned() }),
    }
}

} // verus!
