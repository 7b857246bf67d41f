//! Abstract syntax tree for Cem programs: source locations, type and word
//! definitions, and expressions.
//!
//! Each node carries the location of its introducing token. All locations
//! of one compilation unit share one filename allocation.

use vstd::prelude::*;
use crate::types::{Type, TypeV, Effect, EffectV, tys_v, clone_tys};
use crate::shim::{arc_clone, arc_get};
use crate::types::clone_string;
use std::sync::Arc;

verus! {

/// Mathematical model of a source location.
pub struct LocV {
    pub line: int,
    pub column: int,
    pub file: Seq<char>,
}

/// Source code location for diagnostics and debug information.
///
/// The filename is held behind `Arc` so that the many locations of one
/// compilation unit share a single allocation.
#[derive(Debug, PartialEq)]
pub struct SourceLoc {
    pub line: usize,
    pub column: usize,
    pub file: Arc<String>,
}

impl View for SourceLoc {
    type V = LocV;

    open spec fn view(&self) -> LocV {
        LocV { line: self.line as int, column: self.column as int, file: self.file@ }
    }
}

impl SourceLoc {
    pub fn new(line: usize, column: usize, file: Arc<String>) -> (r: Self)
        ensures
            r@ == (LocV { line: line as int, column: column as int, file: file@ }),
    {
        SourceLoc { line, column, file }
    }

    /// An unknown or synthetic location (generated code, tests).
    pub fn unknown() -> (r: Self)
        ensures
            r@.line == 0 && r@.column == 0 && r@.file == "<unknown>"@,
    {
        SourceLoc { line: 0, column: 0, file: Arc::new(String::from_str("<unknown>")) }
    }

    /// A location carrying only a file (line and column unknown).
    pub fn file_only(file: Arc<String>) -> (r: Self)
        ensures
            r@ == (LocV { line: 1, column: 1, file: file@ }),
    {
        SourceLoc { line: 1, column: 1, file }
    }

    /// A copy sharing the same filename allocation.
    pub fn clone_loc(&self) -> (r: Self)
        ensures
            r@ == self@,
    {
        SourceLoc { line: self.line, column: self.column, file: arc_clone(&self.file) }
    }

    /// The location rendered as `file:line:column`.
    pub fn render(&self) -> (r: String)
        ensures
            r@ == self@.file + seq![':'] + crate::numtext::dec_u64(self.line as nat) + seq![':']
                + crate::numtext::dec_u64(self.column as nat),
    {
        let mut s = clone_string(arc_get(&self.file));
        crate::shim::push_char(&mut s, ':');
        let ls = crate::numtext::u64_to_dec(self.line as u64);
        s.append(ls.as_str());
        crate::shim::push_char(&mut s, ':');
        let cs = crate::numtext::u64_to_dec(self.column as u64);
        s.append(cs.as_str());
        s
    }
}

/// A complete Cem program.
#[derive(Debug, PartialEq)]
pub struct Program {
    pub type_defs: Vec<TypeDef>,
    pub word_defs: Vec<WordDef>,
}

/// An algebraic data type definition.
#[derive(Debug, PartialEq)]
pub struct TypeDef {
    pub name: String,
    pub type_params: Vec<String>,
    pub variants: Vec<Variant>,
}

/// One variant of an algebraic data type.
#[derive(Debug, PartialEq)]
pub struct Variant {
    pub name: String,
    pub fields: Vec<Type>,
}

/// A word (function) definition.
#[derive(Debug, PartialEq)]
pub struct WordDef {
    pub name: String,
    pub effect: Effect,
    pub body: Vec<Expr>,
    /// Location of the `:` that opens the definition.
    pub loc: SourceLoc,
}

/// An expression in the body of a word.
#[derive(Debug, PartialEq)]
pub enum Expr {
    /// Integer literal.
    IntLit(i64, SourceLoc),
    /// Boolean literal.
    BoolLit(bool, SourceLoc),
    /// String literal.
    StringLit(String, SourceLoc),
    /// Call of another word, by name.
    WordCall(String, SourceLoc),
    /// Quotation: a first-class code block.
    Quotation(Vec<Expr>, SourceLoc),
    /// Pattern match with one branch per variant.
    Match { branches: Vec<MatchBranch>, loc: SourceLoc },
    /// Conditional popping a boolean; both branches are quotations.
    If { then_branch: Box<Expr>, else_branch: Box<Expr>, loc: SourceLoc },
}

/// A branch of a pattern match.
#[derive(Debug, PartialEq)]
pub struct MatchBranch {
    pub pattern: Pattern,
    pub body: Vec<Expr>,
}

/// A pattern: a bare variant name (no nested patterns).
#[derive(Debug, PartialEq)]
pub enum Pattern {
    Variant { name: String },
}

/// Model of an expression. `If` holds each branch as a one-element
/// sequence so that the recursion runs through sequences throughout.
pub enum ExprV {
    IntLit(int, LocV),
    BoolLit(bool, LocV),
    StringLit(Seq<char>, LocV),
    WordCall(Seq<char>, LocV),
    Quotation(Seq<ExprV>, LocV),
    Match { branches: Seq<BranchV>, loc: LocV },
    If { then_branch: Seq<ExprV>, else_branch: Seq<ExprV>, loc: LocV },
}

/// Model of a match branch: the variant name and the branch body.
pub struct BranchV {
    pub pattern: Seq<char>,
    pub body: Seq<ExprV>,
}

/// Model of a variant of a type definition.
pub struct VariantV {
    pub name: Seq<char>,
    pub fields: Seq<TypeV>,
}

/// Model of a type definition.
pub struct TypeDefV {
    pub name: Seq<char>,
    pub type_params: Seq<Seq<char>>,
    pub variants: Seq<VariantV>,
}

/// Model of a word definition.
pub struct WordDefV {
    pub name: Seq<char>,
    pub effect: EffectV,
    pub body: Seq<ExprV>,
    pub loc: LocV,
}

/// Model of a program.
pub struct ProgramV {
    pub type_defs: Seq<TypeDefV>,
    pub word_defs: Seq<WordDefV>,
}

/// Model of an expression.
pub open spec fn expr_v(e: Expr) -> ExprV
    decreases e,
{
    match e {
        Expr::IntLit(n, l) => ExprV::IntLit(n as int, l@),
        Expr::BoolLit(b, l) => ExprV::BoolLit(b, l@),
        Expr::StringLit(s, l) => ExprV::StringLit(s@, l@),
        Expr::WordCall(w, l) => ExprV::WordCall(w@, l@),
        Expr::Quotation(es, l) => ExprV::Quotation(exprs_v(es@), l@),
        Expr::Match { branches, loc } => ExprV::Match { branches: branches_v(branches@), loc: loc@ },
        Expr::If { then_branch, else_branch, loc } => ExprV::If {
            then_branch: seq![expr_v(*then_branch)],
            else_branch: seq![expr_v(*else_branch)],
            loc: loc@,
        },
    }
}

/// Model of an expression sequence.
pub open spec fn exprs_v(es: Seq<Expr>) -> Seq<ExprV>
    decreases es,
{
    if es.len() == 0 {
        Seq::empty()
    } else {
        seq![expr_v(es[0])] + exprs_v(es.drop_first())
    }
}

/// Model of one match branch.
pub open spec fn branch_v(b: MatchBranch) -> BranchV
    decreases b,
{
    BranchV { pattern: pattern_name(b.pattern), body: exprs_v(b.body@) }
}

/// The variant name of a pattern.
pub open spec fn pattern_name(p: Pattern) -> Seq<char> {
    match p {
        Pattern::Variant { name } => name@,
    }
}

/// Model of a branch sequence.
pub open spec fn branches_v(bs: Seq<MatchBranch>) -> Seq<BranchV>
    decreases bs,
{
    if bs.len() == 0 {
        Seq::empty()
    } else {
        seq![branch_v(bs[0])] + branches_v(bs.drop_first())
    }
}

/// Model of one variant declaration.
pub open spec fn variant_v(v: Variant) -> VariantV {
    VariantV { name: v.name@, fields: tys_v(v.fields@) }
}

/// Model of a variant sequence.
pub open spec fn variants_v(vs: Seq<Variant>) -> Seq<VariantV> {
    vs.map_values(|v: Variant| variant_v(v))
}

/// Model of a sequence of strings.
pub open spec fn strings_v(ss: Seq<String>) -> Seq<Seq<char>> {
    ss.map_values(|s: String| s@)
}

/// Model of a type definition.
pub open spec fn typedef_v(t: TypeDef) -> TypeDefV {
    TypeDefV {
        name: t.name@,
        type_params: strings_v(t.type_params@),
        variants: variants_v(t.variants@),
    }
}

/// Model of a word definition.
pub open spec fn worddef_v(w: WordDef) -> WordDefV {
    WordDefV { name: w.name@, effect: w.effect@, body: exprs_v(w.body@), loc: w.loc@ }
}

impl View for Expr {
    type V = ExprV;

    open spec fn view(&self) -> ExprV {
        expr_v(*self)
    }
}

impl View for MatchBranch {
    type V = BranchV;

    open spec fn view(&self) -> BranchV {
        branch_v(*self)
    }
}

impl View for Variant {
    type V = VariantV;

    open spec fn view(&self) -> VariantV {
        variant_v(*self)
    }
}

impl View for TypeDef {
    type V = TypeDefV;

    open spec fn view(&self) -> TypeDefV {
        typedef_v(*self)
    }
}

impl View for WordDef {
    type V = WordDefV;

    open spec fn view(&self) -> WordDefV {
        worddef_v(*self)
    }
}

impl View for Program {
    type V = ProgramV;

    open spec fn view(&self) -> ProgramV {
        ProgramV {
            type_defs: self.type_defs@.map_values(|t: TypeDef| typedef_v(t)),
            word_defs: self.word_defs@.map_values(|w: WordDef| worddef_v(w)),
        }
    }
}

impl ExprV {
    /// The source location of any expression model.
    pub open spec fn loc(self) -> LocV {
        match self {
            ExprV::IntLit(_, l) => l,
            ExprV::BoolLit(_, l) => l,
            ExprV::StringLit(_, l) => l,
            ExprV::WordCall(_, l) => l,
            ExprV::Quotation(_, l) => l,
            ExprV::Match { loc, .. } => loc,
            ExprV::If { loc, .. } => loc,
        }
    }
}

impl Expr {
    /// The source location of any expression.
    pub fn loc(&self) -> (r: &SourceLoc)
        ensures
            r@ == self@.loc(),
    {
        match self {
            Expr::IntLit(_, loc) => loc,
            Expr::BoolLit(_, loc) => loc,
            Expr::StringLit(_, loc) => loc,
            Expr::WordCall(_, loc) => loc,
            Expr::Quotation(_, loc) => loc,
            Expr::Match { loc, .. } => loc,
            Expr::If { loc, .. } => loc,
        }
    }
}

/// Facts about `exprs_v`: length and elements.
pub proof fn lemma_exprs_v_len(es: Seq<Expr>)
    ensures
        exprs_v(es).len() == es.len(),
        forall|i: int| 0 <= i < es.len() ==> exprs_v(es)[i] == expr_v(es[i]),
    decreases es,
{
    if es.len() > 0 {
        lemma_exprs_v_len(es.drop_first());
    }
}

/// Facts about `branches_v`: length and elements.
pub proof fn lemma_branches_v_len(bs: Seq<MatchBranch>)
    ensures
        branches_v(bs).len() == bs.len(),
        forall|i: int| 0 <= i < bs.len() ==> branches_v(bs)[i] == branch_v(bs[i]),
    decreases bs,
{
    if bs.len() > 0 {
        lemma_branches_v_len(bs.drop_first());
    }
}

/// Facts about `strings_v`: length and elements.
pub proof fn lemma_strings_v_len(ss: Seq<String>)
    ensures
        strings_v(ss).len() == ss.len(),
        forall|i: int| 0 <= i < ss.len() ==> strings_v(ss)[i] == ss[i]@,
{
}

/// Facts about `variants_v`: length and elements.
pub proof fn lemma_variants_v_len(vs: Seq<Variant>)
    ensures
        variants_v(vs).len() == vs.len(),
        forall|i: int| 0 <= i < vs.len() ==> variants_v(vs)[i] == variant_v(vs[i]),
{
}

/// Deep copy of a variant declaration.
pub fn clone_variant(v: &Variant) -> (r: Variant)
    ensures
        r@ == v@,
{
    Variant { name: clone_string(&v.name), fields: clone_tys(&v.fields) }
}

/// Deep copy of a vector of strings.
pub fn clone_strings(ss: &Vec<String>) -> (r: Vec<String>)
    ensures
        strings_v(r@) == strings_v(ss@),
{
    let mut r: Vec<String> = Vec::new();
    let mut i: usize = 0;
    while i < ss.len()
        invariant
            i <= ss@.len(),
            r@.len() == i,
            forall|j: int| 0 <= j < i ==> (#[trigger] r@[j])@ == ss@[j]@,
        decreases ss@.len() - i,
    {
        r.push(clone_string(&ss[i]));
        i = i + 1;
    }
    proof {
        assert(strings_v(r@) =~= strings_v(ss@));
    }
    r
}

/// Deep copy of a type definition.
pub fn clone_typedef(t: &TypeDef) -> (r: TypeDef)
    ensures
        r@ == t@,
{
    let mut variants: Vec<Variant> = Vec::new();
    let mut i: usize = 0;
    while i < t.variants.len()
        invariant
            i <= t.variants@.len(),
            variants@.len() == i,
            forall|j: int| 0 <= j < i ==> (#[trigger] variants@[j])@ == t.variants@[j]@,
        decreases t.variants@.len() - i,
    {
        variants.push(clone_variant(&t.variants[i]));
        i = i + 1;
    }
    let r = TypeDef {
        name: clone_string(&t.name),
        type_params: clone_strings(&t.type_params),
        variants,
    };
    proof {
        assert(variants_v(r.variants@) =~= variants_v(t.variants@));
        assert(r@ =~= t@);
    }
    r
}

} // verus!
