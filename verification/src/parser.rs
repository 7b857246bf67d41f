//! Recursive descent parser for Cem.
//!
//! The parser's guarantees are stated through `expr_ok`: every node of a
//! parsed expression carries the parser's filename and sits within the
//! nesting budget, which is 100 at the top of a word body. `match` arm
//! bodies and `if` branches always parse as quotations.

use vstd::prelude::*;
use crate::ast::{Expr, ExprV, MatchBranch, BranchV, Pattern, Program, SourceLoc, TypeDef,
    Variant, WordDef, exprs_v, branches_v, lemma_exprs_v_len, lemma_branches_v_len, worddef_v};
use crate::types::{Type, Effect, StackType};
use crate::lexer::{Lexer, Token, TokenKind, LexState, toks_v, spec_tokenize};
use crate::shim::{arc_clone, str_eq, is_uppercase_char, is_lowercase_char};
use crate::types::clone_string;
use std::sync::Arc;

verus! {

/// A parse error: message and the source position it points at.
#[derive(Debug)]
pub struct ParseError {
    pub message: String,
    pub line: usize,
    pub column: usize,
}

/// The largest nesting depth of types and expressions the parser accepts.
pub const MAX_NESTING_DEPTH: usize = 100;

/// Structural soundness of a parsed expression: every node's location
/// carries the file `file`, every `if` holds exactly one quotation per
/// branch, and the tree respects the nesting `budget` (an `if` counts one
/// level together with its branch quotations).
pub open spec fn expr_ok(e: ExprV, file: Seq<char>, budget: int) -> bool
    decreases e,
{
    budget >= 1 && match e {
        ExprV::IntLit(_, l) => l.file == file,
        ExprV::BoolLit(_, l) => l.file == file,
        ExprV::StringLit(_, l) => l.file == file,
        ExprV::WordCall(_, l) => l.file == file,
        ExprV::Quotation(es, l) => l.file == file && exprs_ok(es, file, budget - 1),
        ExprV::Match { branches, loc } => loc.file == file && branches_ok(
            branches,
            file,
            budget,
        ),
        ExprV::If { then_branch, else_branch, loc } => {
            &&& loc.file == file
            &&& then_branch.len() == 1
            &&& else_branch.len() == 1
            &&& then_branch[0] is Quotation
            &&& else_branch[0] is Quotation
            &&& expr_ok(then_branch[0], file, budget)
            &&& expr_ok(else_branch[0], file, budget)
        },
    }
}

/// `expr_ok` of every expression in the sequence.
pub open spec fn exprs_ok(es: Seq<ExprV>, file: Seq<char>, budget: int) -> bool
    decreases es,
{
    if es.len() == 0 {
        true
    } else {
        expr_ok(es[0], file, budget) && exprs_ok(es.drop_first(), file, budget)
    }
}

/// `expr_ok` of every branch body, one nesting level down.
pub open spec fn branches_ok(bs: Seq<BranchV>, file: Seq<char>, budget: int) -> bool
    decreases bs,
{
    if bs.len() == 0 {
        true
    } else {
        exprs_ok(bs[0].body, file, budget - 1) && branches_ok(bs.drop_first(), file, budget)
    }
}

/// `exprs_ok` is exactly `expr_ok` of each element.
pub proof fn lemma_exprs_ok_iff(es: Seq<ExprV>, file: Seq<char>, budget: int)
    ensures
        exprs_ok(es, file, budget) <==> (forall|i: int|
            0 <= i < es.len() ==> expr_ok(#[trigger] es[i], file, budget)),
    decreases es,
{
    if es.len() > 0 {
        lemma_exprs_ok_iff(es.drop_first(), file, budget);
        assert(forall|i: int|
            1 <= i < es.len() ==> es.drop_first()[i - 1] == #[trigger] es[i]);
    }
}

/// `branches_ok` is exactly `exprs_ok` of each branch body.
pub proof fn lemma_branches_ok_iff(bs: Seq<BranchV>, file: Seq<char>, budget: int)
    ensures
        branches_ok(bs, file, budget) <==> (forall|i: int|
            0 <= i < bs.len() ==> exprs_ok((#[trigger] bs[i]).body, file, budget - 1)),
    decreases bs,
{
    if bs.len() > 0 {
        lemma_branches_ok_iff(bs.drop_first(), file, budget);
        assert(forall|i: int|
            1 <= i < bs.len() ==> bs.drop_first()[i - 1] == #[trigger] bs[i]);
    }
}

/// The larger of two integers.
pub open spec fn max_int(a: int, b: int) -> int {
    if a >= b {
        a
    } else {
        b
    }
}

/// The nesting depth of an expression, counted as the parser counts it:
/// literals and calls are one level, a quotation or a match is one level
/// above its contents, and an `if` counts one level together with its two
/// branch quotations.
pub open spec fn nest_depth(e: ExprV) -> int
    decreases e,
{
    match e {
        ExprV::IntLit(_, _) => 1,
        ExprV::BoolLit(_, _) => 1,
        ExprV::StringLit(_, _) => 1,
        ExprV::WordCall(_, _) => 1,
        ExprV::Quotation(es, _) => 1 + exprs_depth(es),
        ExprV::Match { branches, .. } => 1 + branches_depth(branches),
        ExprV::If { then_branch, else_branch, .. } => max_int(
            exprs_depth(then_branch),
            exprs_depth(else_branch),
        ),
    }
}

/// The largest nesting depth in a sequence of expressions.
pub open spec fn exprs_depth(es: Seq<ExprV>) -> int
    decreases es,
{
    if es.len() == 0 {
        0
    } else {
        max_int(nest_depth(es[0]), exprs_depth(es.drop_first()))
    }
}

/// The largest nesting depth of the branch bodies.
pub open spec fn branches_depth(bs: Seq<BranchV>) -> int
    decreases bs,
{
    if bs.len() == 0 {
        0
    } else {
        max_int(exprs_depth(bs[0].body), branches_depth(bs.drop_first()))
    }
}

/// Law: a parsed expression nests no deeper than its budget; at the top
/// of a word body, deeper nesting than 100 levels is impossible, because
/// the parser rejects it with a nesting-depth error.
pub proof fn lemma_expr_ok_depth(e: ExprV, file: Seq<char>, budget: int)
    requires
        expr_ok(e, file, budget),
    ensures
        nest_depth(e) <= budget,
    decreases e,
{
    match e {
        ExprV::Quotation(es, _) => {
            lemma_exprs_ok_depth(es, file, budget - 1);
        },
        ExprV::Match { branches, .. } => {
            lemma_branches_ok_depth(branches, file, budget);
        },
        ExprV::If { then_branch, else_branch, .. } => {
            lemma_expr_ok_depth(then_branch[0], file, budget);
            lemma_expr_ok_depth(else_branch[0], file, budget);
            assert(exprs_depth(then_branch.drop_first()) == 0);
            assert(exprs_depth(else_branch.drop_first()) == 0);
        },
        _ => {},
    }
}

/// Law: a sequence of parsed expressions nests no deeper than its budget.
pub proof fn lemma_exprs_ok_depth(es: Seq<ExprV>, file: Seq<char>, budget: int)
    requires
        exprs_ok(es, file, budget),
    ensures
        exprs_depth(es) <= max_int(budget, 0),
    decreases es,
{
    if es.len() > 0 {
        lemma_expr_ok_depth(es[0], file, budget);
        lemma_exprs_ok_depth(es.drop_first(), file, budget);
    }
}

proof fn lemma_branches_ok_depth(bs: Seq<BranchV>, file: Seq<char>, budget: int)
    requires
        branches_ok(bs, file, budget),
    ensures
        branches_depth(bs) <= max_int(budget - 1, 0),
    decreases bs,
{
    if bs.len() > 0 {
        lemma_exprs_ok_depth(bs[0].body, file, budget - 1);
        lemma_branches_ok_depth(bs.drop_first(), file, budget);
    }
}

/// Whether every location in the expression carries the file `file`.
pub open spec fn expr_shares_file(e: ExprV, file: Seq<char>) -> bool
    decreases e,
{
    e.loc().file == file && match e {
        ExprV::Quotation(es, _) => exprs_share_file(es, file),
        ExprV::Match { branches, .. } => branches_share_file(branches, file),
        ExprV::If { then_branch, else_branch, .. } => exprs_share_file(then_branch, file)
            && exprs_share_file(else_branch, file),
        _ => true,
    }
}

/// `expr_shares_file` of every expression in the sequence.
pub open spec fn exprs_share_file(es: Seq<ExprV>, file: Seq<char>) -> bool
    decreases es,
{
    if es.len() == 0 {
        true
    } else {
        expr_shares_file(es[0], file) && exprs_share_file(es.drop_first(), file)
    }
}

/// `exprs_share_file` of every branch body.
pub open spec fn branches_share_file(bs: Seq<BranchV>, file: Seq<char>) -> bool
    decreases bs,
{
    if bs.len() == 0 {
        true
    } else {
        exprs_share_file(bs[0].body, file) && branches_share_file(bs.drop_first(), file)
    }
}

/// Law: every location of a parsed expression carries the parser's
/// filename — nested expressions of one compilation unit all name the
/// same file.
pub proof fn lemma_expr_ok_shares_file(e: ExprV, file: Seq<char>, budget: int)
    requires
        expr_ok(e, file, budget),
    ensures
        expr_shares_file(e, file),
    decreases e,
{
    match e {
        ExprV::Quotation(es, _) => {
            lemma_exprs_ok_shares_file(es, file, budget - 1);
        },
        ExprV::Match { branches, .. } => {
            lemma_branches_ok_shares_file(branches, file, budget);
        },
        ExprV::If { then_branch, else_branch, .. } => {
            lemma_expr_ok_shares_file(then_branch[0], file, budget);
            lemma_expr_ok_shares_file(else_branch[0], file, budget);
            assert(exprs_share_file(then_branch.drop_first(), file));
            assert(exprs_share_file(else_branch.drop_first(), file));
        },
        _ => {},
    }
}

/// Law: every location of a sequence of parsed expressions carries the
/// parser's filename.
pub proof fn lemma_exprs_ok_shares_file(es: Seq<ExprV>, file: Seq<char>, budget: int)
    requires
        exprs_ok(es, file, budget),
    ensures
        exprs_share_file(es, file),
    decreases es,
{
    if es.len() > 0 {
        lemma_expr_ok_shares_file(es[0], file, budget);
        lemma_exprs_ok_shares_file(es.drop_first(), file, budget);
    }
}

proof fn lemma_branches_ok_shares_file(bs: Seq<BranchV>, file: Seq<char>, budget: int)
    requires
        branches_ok(bs, file, budget),
    ensures
        branches_share_file(bs, file),
    decreases bs,
{
    if bs.len() > 0 {
        lemma_exprs_ok_shares_file(bs[0].body, file, budget - 1);
        lemma_branches_ok_shares_file(bs.drop_first(), file, budget);
    }
}

/// A parsed word definition: its own location and every location in its
/// body carry the parser's filename, its body respects the nesting
/// budget, and its declared effect has no row variables (the effect
/// grammar writes plain type lists).
pub open spec fn word_ok(w: crate::ast::WordDefV, file: Seq<char>) -> bool {
    &&& w.loc.file == file
    &&& exprs_ok(w.body, file, MAX_NESTING_DEPTH as int)
    &&& w.effect.ins.row is None
    &&& w.effect.outs.row is None
}

/// The recursive descent parser over a token stream.
pub struct Parser {
    pub tokens: Vec<Token>,
    pub current: usize,
    pub nesting_depth: usize,
    /// Shared filename: every location of this compilation unit holds
    /// this one allocation.
    pub filename: Arc<String>,
}

impl Parser {
    /// Well-formedness: the token stream ends with its only `Eof` token,
    /// and the cursor is inside it.
    pub open spec fn wf(&self) -> bool {
        &&& self.tokens@.len() >= 1
        &&& self.current < self.tokens@.len()
        &&& self.tokens@.last()@.kind == TokenKind::Eof
        &&& forall|i: int|
            0 <= i < self.tokens@.len() - 1 ==> (#[trigger] self.tokens@[i])@.kind
                != TokenKind::Eof
    }

    /// A parser for `input`, with `<input>` as the filename: the token
    /// stream is exactly the tokens of the input characters, and the
    /// cursor starts at the first of them.
    pub fn new(input: &str) -> (r: Parser)
        requires
            input@.len() < usize::MAX,
        ensures
            r.wf(),
            r.filename@ == "<input>"@,
            r.nesting_depth == 0,
            r.current == 0,
            toks_v(r.tokens@) == spec_tokenize(input@, LexState { pos: 0, line: 1, col: 1 }),
    {
        Parser::new_with_filename(input, "<input>")
    }

    /// A parser for `input` read from `filename`: the token stream is
    /// exactly the tokens of the input characters, and the cursor starts
    /// at the first of them.
    pub fn new_with_filename(input: &str, filename: &str) -> (r: Parser)
        requires
            input@.len() < usize::MAX,
        ensures
            r.wf(),
            r.filename@ == filename@,
            r.nesting_depth == 0,
            r.current == 0,
            toks_v(r.tokens@) == spec_tokenize(input@, LexState { pos: 0, line: 1, col: 1 }),
    {
        let mut lexer = Lexer::new(input);
        let tokens = lexer.tokenize();
        Parser {
            tokens,
            current: 0,
            nesting_depth: 0,
            filename: Arc::new(String::from_str(filename)),
        }
    }

    /// The current token.
    fn peek(&self) -> (r: &Token)
        requires
            self.wf(),
        ensures
            r@ == self.tokens@[self.current as int]@,
    {
        &self.tokens[self.current]
    }

    /// Whether the cursor is at the `Eof` token.
    fn is_at_end(&self) -> (r: bool)
        requires
            self.wf(),
        ensures
            r == (self.tokens@[self.current as int]@.kind == TokenKind::Eof),
    {
        self.tokens[self.current].kind == TokenKind::Eof
    }

    /// Move past the current token, unless at the end.
    fn advance(&mut self)
        requires
            old(self).wf(),
        ensures
            final(self).wf(),
            final(self).tokens@ == old(self).tokens@,
            final(self).filename == old(self).filename,
            final(self).nesting_depth == old(self).nesting_depth,
            final(self).current as int == if old(self).tokens@[old(self).current as int]@.kind
                != TokenKind::Eof {
                old(self).current + 1
            } else {
                old(self).current as int
            },
    {
        let n = self.tokens.len();
        if !self.is_at_end() {
            proof {
                if self.current as int == n as int - 1 {
                    assert(self.tokens@[self.current as int]@.kind == TokenKind::Eof);
                }
            }
            self.current = self.current + 1;
        }
    }

    /// Whether the current token has this kind (never true at the end).
    fn check(&self, kind: TokenKind) -> (r: bool)
        requires
            self.wf(),
        ensures
            r == (self.tokens@[self.current as int]@.kind == kind && kind != TokenKind::Eof),
    {
        if self.is_at_end() {
            return false;
        }
        self.tokens[self.current].kind == kind
    }

    /// Whether the current token is the identifier `value`.
    fn check_ident(&self, value: &str) -> (r: bool)
        requires
            self.wf(),
        ensures
            r == (self.tokens@[self.current as int]@.kind == TokenKind::Ident
                && self.tokens@[self.current as int]@.lexeme == value@),
    {
        if self.is_at_end() {
            return false;
        }
        let tok = &self.tokens[self.current];
        let is_ident = tok.kind == TokenKind::Ident;
        is_ident && str_eq(tok.lexeme.as_str(), value)
    }

    /// A location for the current token, sharing the parser's filename.
    fn current_loc(&self) -> (r: SourceLoc)
        requires
            self.wf(),
        ensures
            r@.file == self.filename@,
            r@.line == self.tokens@[self.current as int]@.line,
            r@.column == self.tokens@[self.current as int]@.column,
    {
        let tok = &self.tokens[self.current];
        SourceLoc::new(tok.line, tok.column, arc_clone(&self.filename))
    }

    /// A parse error at the current token.
    fn error(&self, message: &str) -> (r: ParseError)
        requires
            self.wf(),
        ensures
            r.message@ == message@,
    {
        let tok = &self.tokens[self.current];
        ParseError {
            message: String::from_str(message),
            line: tok.line,
            column: tok.column,
        }
    }

    /// Consume a token of the given kind, or fail with `message`.
    fn consume(&mut self, kind: TokenKind, message: &str) -> (r: Result<(), ParseError>)
        requires
            old(self).wf(),
            kind != TokenKind::Eof,
        ensures
            final(self).wf(),
            final(self).tokens@ == old(self).tokens@,
            final(self).filename == old(self).filename,
            final(self).nesting_depth == old(self).nesting_depth,
            match r {
                Ok(_) => old(self).tokens@[old(self).current as int]@.kind == kind && final(self).current == old(self).current + 1,
                Err(_) => final(self).current == old(self).current,
            },
    {
        if self.check(kind) {
            self.advance();
            Ok(())
        } else {
            Err(self.error(message))
        }
    }

    /// Consume an identifier token and return its text, or fail.
    fn consume_ident(&mut self, message: &str) -> (r: Result<String, ParseError>)
        requires
            old(self).wf(),
        ensures
            final(self).wf(),
            final(self).tokens@ == old(self).tokens@,
            final(self).filename == old(self).filename,
            final(self).nesting_depth == old(self).nesting_depth,
            match r {
                Ok(s) => old(self).tokens@[old(self).current as int]@.kind == TokenKind::Ident
                    && s@ == old(self).tokens@[old(self).current as int]@.lexeme && final(self).current == old(self).current + 1,
                Err(_) => final(self).current == old(self).current,
            },
    {
        let is_ident = self.tokens[self.current].kind == TokenKind::Ident;
        if is_ident {
            let lexeme = clone_string(&self.tokens[self.current].lexeme);
            self.advance();
            Ok(lexeme)
        } else {
            Err(self.error(message))
        }
    }

    /// Consume the identifier `value`, or fail with `message`.
    fn consume_ident_value(&mut self, value: &str, message: &str) -> (r: Result<(), ParseError>)
        requires
            old(self).wf(),
        ensures
            final(self).wf(),
            final(self).tokens@ == old(self).tokens@,
            final(self).filename == old(self).filename,
            final(self).nesting_depth == old(self).nesting_depth,
            match r {
                Ok(_) => final(self).current == old(self).current + 1,
                Err(_) => final(self).current == old(self).current,
            },
    {
        if self.check_ident(value) {
            self.advance();
            Ok(())
        } else {
            Err(self.error(message))
        }
    }

    /// Enter one nesting level; more than `MAX_NESTING_DEPTH` levels is a
    /// nesting-depth error.
    fn enter_nesting(&mut self) -> (r: Result<(), ParseError>)
        requires
            old(self).wf(),
        ensures
            final(self).wf(),
            final(self).tokens@ == old(self).tokens@,
            final(self).filename == old(self).filename,
            final(self).current == old(self).current,
            r is Ok <==> old(self).nesting_depth + 1 <= MAX_NESTING_DEPTH,
            r is Ok ==> final(self).nesting_depth == old(self).nesting_depth + 1,
            r is Err ==> final(self).nesting_depth == old(self).nesting_depth,
    {
        if self.nesting_depth >= MAX_NESTING_DEPTH {
            Err(self.error("Maximum nesting depth of 100 exceeded"))
        } else {
            self.nesting_depth = self.nesting_depth + 1;
            Ok(())
        }
    }

    /// Leave one nesting level.
    fn exit_nesting(&mut self)
        requires
            old(self).wf(),
        ensures
            final(self).wf(),
            final(self).tokens@ == old(self).tokens@,
            final(self).filename == old(self).filename,
            final(self).current == old(self).current,
            final(self).nesting_depth == if old(self).nesting_depth > 0 {
                (old(self).nesting_depth - 1) as usize
            } else {
                0
            },
    {
        if self.nesting_depth > 0 {
            self.nesting_depth = self.nesting_depth - 1;
        }
    }

    /// Parse a whole program: type definitions and word definitions until
    /// the end of input. On success, every word definition satisfies
    /// `word_ok`: all its locations carry this parser's filename, and its
    /// body respects the nesting bound.
    pub fn parse(&mut self) -> (r: Result<Program, ParseError>)
        requires
            old(self).wf(),
            old(self).nesting_depth == 0,
        ensures
            final(self).wf(),
            final(self).tokens@ == old(self).tokens@,
            final(self).filename == old(self).filename,
            match r {
                Ok(p) => forall|i: int|
                    0 <= i < p@.word_defs.len() ==> word_ok(
                        #[trigger] p@.word_defs[i],
                        old(self).filename@,
                    ),
                Err(_) => true,
            },
            // On success the whole token stream was consumed: the cursor
            // rests on the end-of-input token.
            r is Ok ==> final(self).tokens@[final(self).current as int]@.kind == TokenKind::Eof,
    {
        let ghost file = self.filename@;
        let mut type_defs: Vec<TypeDef> = Vec::new();
        let mut word_defs: Vec<WordDef> = Vec::new();

        while !self.is_at_end()
            invariant
                self.wf(),
                self.tokens@ == old(self).tokens@,
                self.filename == old(self).filename,
                self.nesting_depth == 0,
                file == old(self).filename@,
                forall|i: int|
                    0 <= i < word_defs@.len() ==> word_ok(worddef_v(#[trigger] word_defs@[i]), file),
            decreases self.tokens@.len() - self.current,
        {
            if self.check(TokenKind::Type) {
                let td = self.parse_type_def()?;
                type_defs.push(td);
            } else if self.check(TokenKind::Colon) {
                let wd = self.parse_word_def()?;
                word_defs.push(wd);
            } else {
                return Err(self.error("Expected 'type' or ':'"));
            }
        }

        let p = Program { type_defs, word_defs };
        proof {
            assert(forall|i: int|
                0 <= i < p@.word_defs.len() ==> p@.word_defs[i] == worddef_v(
                    #[trigger] p.word_defs@[i],
                ));
        }
        Ok(p)
    }

    /// Parse one type definition: `type Name` with optional parameters,
    /// then `|`-separated variants. A comma separates variant fields and
    /// is never read as a field type.
    fn parse_type_def(&mut self) -> (r: Result<TypeDef, ParseError>)
        requires
            old(self).wf(),
        ensures
            final(self).wf(),
            final(self).tokens@ == old(self).tokens@,
            final(self).filename == old(self).filename,
            final(self).nesting_depth == old(self).nesting_depth,
            r is Ok ==> final(self).current > old(self).current,
    {
        let ghost toklen = self.tokens@.len() as int;
        self.consume(TokenKind::Type, "Expected 'type'")?;
        let name = self.consume_ident("Expected type name")?;

        let mut type_params: Vec<String> = Vec::new();
        if self.check(TokenKind::LeftParen) {
            self.advance();
            while !self.check(TokenKind::RightParen) && !self.is_at_end()
                invariant
                    self.wf(),
                    self.tokens@ == old(self).tokens@,
                    self.filename == old(self).filename,
                    self.nesting_depth == old(self).nesting_depth,
                    self.current > old(self).current,
                decreases self.tokens@.len() - self.current,
            {
                let p = self.consume_ident("Expected type parameter")?;
                type_params.push(p);
                if self.check(TokenKind::RightParen) {
                    break;
                }
            }
            self.consume(TokenKind::RightParen, "Expected ')'")?;
        }

        self.consume(TokenKind::Pipe, "Expected '|' before first variant")?;

        let mut variants: Vec<Variant> = Vec::new();
        loop
            invariant
                self.wf(),
                self.tokens@ == old(self).tokens@,
                self.filename == old(self).filename,
                self.nesting_depth == old(self).nesting_depth,
                self.current > old(self).current,
            decreases self.tokens@.len() - self.current,
        {
            let variant_name = self.consume_ident("Expected variant name")?;

            let mut fields: Vec<Type> = Vec::new();
            if self.check(TokenKind::LeftParen) {
                self.advance();
                let ghost fields_start = self.current as int;
                while !self.check(TokenKind::RightParen) && !self.is_at_end()
                    invariant
                        self.wf(),
                        self.tokens@ == old(self).tokens@,
                        self.filename == old(self).filename,
                        self.nesting_depth == old(self).nesting_depth,
                        self.current > old(self).current,
                        self.current as int >= fields_start,
                    decreases self.tokens@.len() - self.current,
                {
                    let f = self.parse_type()?;
                    fields.push(f);
                    // A comma only separates fields; without one the
                    // field list is over.
                    if self.check_ident(",") {
                        self.advance();
                    } else {
                        break;
                    }
                }
                self.consume(TokenKind::RightParen, "Expected ')'")?;
            }

            variants.push(Variant { name: variant_name, fields });

            if self.check(TokenKind::Pipe) {
                self.advance();
            } else {
                break;
            }
        }

        Ok(TypeDef { name, type_params, variants })
    }

    /// Parse one word definition: `: name ( effect ) body ;`.
    fn parse_word_def(&mut self) -> (r: Result<WordDef, ParseError>)
        requires
            old(self).wf(),
        ensures
            final(self).wf(),
            final(self).tokens@ == old(self).tokens@,
            final(self).filename == old(self).filename,
            final(self).nesting_depth == old(self).nesting_depth,
            match r {
                Ok(w) => final(self).current > old(self).current && w@.loc.file == old(self).filename@ && exprs_ok(
                    w@.body,
                    old(self).filename@,
                    MAX_NESTING_DEPTH as int - old(self).nesting_depth as int,
                ) && w@.effect.ins.row is None && w@.effect.outs.row is None,
                Err(_) => true,
            },
    {
        let ghost toklen = self.tokens@.len() as int;
        let ghost file = self.filename@;
        let colon_loc = self.current_loc();
        self.consume(TokenKind::Colon, "Expected ':'")?;

        let name = self.consume_ident("Expected word name")?;

        self.consume(TokenKind::LeftParen, "Expected '(' for effect signature")?;
        let effect = self.parse_effect()?;
        self.consume(TokenKind::RightParen, "Expected ')' after effect signature")?;

        let mut body: Vec<Expr> = Vec::new();
        while !self.check_ident(";") && !self.is_at_end()
            invariant
                self.wf(),
                self.tokens@ == old(self).tokens@,
                self.filename == old(self).filename,
                self.nesting_depth == old(self).nesting_depth,
                self.current > old(self).current,
                file == old(self).filename@,
                forall|i: int|
                    0 <= i < body@.len() ==> expr_ok(
                        crate::ast::expr_v(#[trigger] body@[i]),
                        file,
                        MAX_NESTING_DEPTH as int - old(self).nesting_depth as int,
                    ),
            decreases self.tokens@.len() - self.current,
        {
            let e = self.parse_expr()?;
            body.push(e);
        }

        self.consume_ident_value(";", "Expected ';' at end of word definition")?;

        proof {
            lemma_exprs_v_len(body@);
            lemma_exprs_ok_iff(
                exprs_v(body@),
                file,
                MAX_NESTING_DEPTH as int - old(self).nesting_depth as int,
            );
        }
        Ok(WordDef { name, effect, body, loc: colon_loc })
    }

    /// Parse an effect signature: input types, `--`, output types.
    fn parse_effect(&mut self) -> (r: Result<Effect, ParseError>)
        requires
            old(self).wf(),
        ensures
            final(self).wf(),
            final(self).tokens@ == old(self).tokens@,
            final(self).filename == old(self).filename,
            final(self).nesting_depth == old(self).nesting_depth,
            match r {
                Ok(e) => e@.ins.row is None && e@.outs.row is None && final(self).current
                    >= old(self).current,
                Err(_) => true,
            },
    {
        let ghost toklen = self.tokens@.len() as int;
        let mut inputs: Vec<Type> = Vec::new();
        while !self.check(TokenKind::Dash) && !self.is_at_end()
            invariant
                self.wf(),
                self.tokens@ == old(self).tokens@,
                self.filename == old(self).filename,
                self.nesting_depth == old(self).nesting_depth,
                self.current >= old(self).current,
            decreases self.tokens@.len() - self.current,
        {
            let t = self.parse_type()?;
            inputs.push(t);
        }

        self.consume(TokenKind::Dash, "Expected '--' in effect signature")?;

        let mut outputs: Vec<Type> = Vec::new();
        while !self.check(TokenKind::RightParen) && !self.is_at_end()
            invariant
                self.wf(),
                self.tokens@ == old(self).tokens@,
                self.filename == old(self).filename,
                self.nesting_depth == old(self).nesting_depth,
                self.current >= old(self).current,
            decreases self.tokens@.len() - self.current,
        {
            let t = self.parse_type()?;
            outputs.push(t);
        }

        Ok(Effect::from_vecs(inputs, outputs))
    }

    /// Parse a type, inside one more nesting level.
    fn parse_type(&mut self) -> (r: Result<Type, ParseError>)
        requires
            old(self).wf(),
        ensures
            final(self).wf(),
            final(self).tokens@ == old(self).tokens@,
            final(self).filename == old(self).filename,
            final(self).nesting_depth == old(self).nesting_depth,
            r is Ok ==> final(self).current > old(self).current,
        decreases old(self).tokens@.len() - old(self).current, 1int,
    {
        let r0 = self.enter_nesting();
        match r0 {
            Err(e) => Err(e),
            Ok(_) => {
                let result = self.parse_type_inner();
                self.exit_nesting();
                result
            },
        }
    }

    /// Parse a type name: primitives, type variables (single uppercase
    /// letters and lowercase-starting names), or a named type with
    /// optional arguments.
    fn parse_type_inner(&mut self) -> (r: Result<Type, ParseError>)
        requires
            old(self).wf(),
        ensures
            final(self).wf(),
            final(self).tokens@ == old(self).tokens@,
            final(self).filename == old(self).filename,
            final(self).nesting_depth == old(self).nesting_depth,
            r is Ok ==> final(self).current > old(self).current,
        decreases old(self).tokens@.len() - old(self).current, 0int,
    {
        let ghost toklen = self.tokens@.len() as int;
        let name = self.consume_ident("Expected type name")?;

        if str_eq(name.as_str(), "Int") {
            return Ok(Type::Int);
        }
        if str_eq(name.as_str(), "Bool") {
            return Ok(Type::Bool);
        }
        if str_eq(name.as_str(), "String") {
            return Ok(Type::String);
        }

        let cs = crate::shim::chars_of(name.as_str());
        // The byte length decides whether a one-letter uppercase name is
        // a type variable, as does a lowercase first letter.
        let single_upper = cs.len() == 1 && name_byte_len(&cs) == 1 && is_uppercase_char(cs[0]);
        let lower_start = cs.len() >= 1 && is_lowercase_char(cs[0]);
        if single_upper || lower_start {
            return Ok(Type::Var(name));
        }

        let mut args: Vec<Type> = Vec::new();
        if self.check(TokenKind::LeftParen) {
            self.advance();
            while !self.check(TokenKind::RightParen) && !self.is_at_end()
                invariant
                    self.wf(),
                    self.tokens@ == old(self).tokens@,
                    self.filename == old(self).filename,
                    self.nesting_depth == old(self).nesting_depth,
                    self.current > old(self).current,
                decreases self.tokens@.len() - self.current,
            {
                let t = self.parse_type()?;
                args.push(t);
                // A comma only separates arguments.
                if self.check_ident(",") {
                    self.advance();
                } else if self.check(TokenKind::RightParen) {
                    break;
                }
            }
            self.consume(TokenKind::RightParen, "Expected ')'")?;
        }

        Ok(Type::Named { name, args })
    }

    /// Parse an expression, inside one more nesting level.
    fn parse_expr(&mut self) -> (r: Result<Expr, ParseError>)
        requires
            old(self).wf(),
        ensures
            final(self).wf(),
            final(self).tokens@ == old(self).tokens@,
            final(self).filename == old(self).filename,
            final(self).nesting_depth == old(self).nesting_depth,
            match r {
                Ok(e) => final(self).current > old(self).current && expr_ok(
                    e@,
                    old(self).filename@,
                    MAX_NESTING_DEPTH as int - old(self).nesting_depth as int,
                ),
                Err(_) => true,
            },
        decreases old(self).tokens@.len() - old(self).current, 1int,
    {
        let r0 = self.enter_nesting();
        match r0 {
            Err(e) => Err(e),
            Ok(_) => {
                let result = self.parse_expr_inner();
                self.exit_nesting();
                result
            },
        }
    }

    /// Parse one expression: a literal, a word call, a quotation, a
    /// `match`, or an `if`.
    fn parse_expr_inner(&mut self) -> (r: Result<Expr, ParseError>)
        requires
            old(self).wf(),
            1 <= old(self).nesting_depth <= MAX_NESTING_DEPTH,
        ensures
            final(self).wf(),
            final(self).tokens@ == old(self).tokens@,
            final(self).filename == old(self).filename,
            final(self).nesting_depth == old(self).nesting_depth,
            match r {
                Ok(e) => final(self).current > old(self).current && expr_ok(
                    e@,
                    old(self).filename@,
                    MAX_NESTING_DEPTH as int - old(self).nesting_depth as int + 1,
                ),
                Err(_) => true,
            },
        decreases old(self).tokens@.len() - old(self).current, 0int,
    {
        let ghost toklen = self.tokens@.len() as int;
        let ghost file = self.filename@;
        let ghost budget = MAX_NESTING_DEPTH as int - old(self).nesting_depth as int + 1;
        let kind = self.tokens[self.current].kind;

        if kind == TokenKind::IntLiteral {
            let parsed = crate::numtext::parse_i64(self.tokens[self.current].lexeme.as_str());
            match parsed {
                Some(value) => {
                    let loc = self.current_loc();
                    self.advance();
                    return Ok(Expr::IntLit(value, loc));
                },
                None => {
                    let tok = &self.tokens[self.current];
                    let mut message = String::from_str("Invalid integer: ");
                    message.append(tok.lexeme.as_str());
                    return Err(ParseError { message, line: tok.line, column: tok.column });
                },
            }
        }

        if kind == TokenKind::BoolLiteral {
            let value = str_eq(self.tokens[self.current].lexeme.as_str(), "true");
            let loc = self.current_loc();
            self.advance();
            return Ok(Expr::BoolLit(value, loc));
        }

        if kind == TokenKind::StringLiteral {
            let value = clone_string(&self.tokens[self.current].lexeme);
            let loc = self.current_loc();
            self.advance();
            return Ok(Expr::StringLit(value, loc));
        }

        if kind == TokenKind::LeftBracket {
            let loc = self.current_loc();
            self.advance();
            let mut exprs: Vec<Expr> = Vec::new();
            while !self.check(TokenKind::RightBracket) && !self.is_at_end()
                invariant
                    self.wf(),
                    self.tokens@ == old(self).tokens@,
                    self.filename == old(self).filename,
                    self.nesting_depth == old(self).nesting_depth,
                    self.current > old(self).current,
                    file == old(self).filename@,
                    budget == MAX_NESTING_DEPTH as int - old(self).nesting_depth as int + 1,
                    forall|i: int|
                        0 <= i < exprs@.len() ==> expr_ok(
                            crate::ast::expr_v(#[trigger] exprs@[i]),
                            file,
                            budget - 1,
                        ),
                decreases self.tokens@.len() - self.current,
            {
                let e = self.parse_expr()?;
                exprs.push(e);
            }
            self.consume(TokenKind::RightBracket, "Expected ']'")?;
            proof {
                lemma_exprs_v_len(exprs@);
                lemma_exprs_ok_iff(exprs_v(exprs@), file, budget - 1);
            }
            return Ok(Expr::Quotation(exprs, loc));
        }

        if kind == TokenKind::Match {
            let loc = self.current_loc();
            self.advance();
            let mut branches: Vec<MatchBranch> = Vec::new();

            while !self.check(TokenKind::End) && !self.is_at_end()
                invariant
                    self.wf(),
                    self.tokens@ == old(self).tokens@,
                    self.filename == old(self).filename,
                    self.nesting_depth == old(self).nesting_depth,
                    self.current > old(self).current,
                    file == old(self).filename@,
                    budget == MAX_NESTING_DEPTH as int - old(self).nesting_depth as int + 1,
                    forall|i: int|
                        0 <= i < branches@.len() ==> exprs_ok(
                            crate::ast::branch_v(#[trigger] branches@[i]).body,
                            file,
                            budget - 1,
                        ),
                decreases self.tokens@.len() - self.current,
            {
                let variant_name = self.consume_ident("Expected variant name")?;
                self.consume(TokenKind::Arrow, "Expected '=>'")?;

                self.consume(TokenKind::LeftBracket, "Expected '[' for branch body")?;
                let ghost body_start = self.current as int;
                let mut body: Vec<Expr> = Vec::new();
                while !self.check(TokenKind::RightBracket) && !self.is_at_end()
                    invariant
                        self.wf(),
                        self.tokens@ == old(self).tokens@,
                        self.filename == old(self).filename,
                        self.nesting_depth == old(self).nesting_depth,
                        self.current > old(self).current,
                        self.current as int >= body_start,
                        file == old(self).filename@,
                        budget == MAX_NESTING_DEPTH as int - old(self).nesting_depth as int + 1,
                        forall|i: int|
                            0 <= i < body@.len() ==> expr_ok(
                                crate::ast::expr_v(#[trigger] body@[i]),
                                file,
                                budget - 1,
                            ),
                    decreases self.tokens@.len() - self.current,
                {
                    let e = self.parse_expr()?;
                    body.push(e);
                }
                self.consume(TokenKind::RightBracket, "Expected ']'")?;

                proof {
                    lemma_exprs_v_len(body@);
                    lemma_exprs_ok_iff(exprs_v(body@), file, budget - 1);
                }
                branches.push(
                    MatchBranch { pattern: Pattern::Variant { name: variant_name }, body },
                );
            }

            self.consume(TokenKind::End, "Expected 'end'")?;
            proof {
                lemma_branches_v_len(branches@);
                lemma_branches_ok_iff(branches_v(branches@), file, budget);
            }
            return Ok(Expr::Match { branches, loc });
        }

        if kind == TokenKind::If {
            let loc = self.current_loc();
            self.advance();

            let then_loc = self.current_loc();
            self.consume(TokenKind::LeftBracket, "Expected '[' for then branch")?;
            let mut then_exprs: Vec<Expr> = Vec::new();
            while !self.check(TokenKind::RightBracket) && !self.is_at_end()
                invariant
                    self.wf(),
                    self.tokens@ == old(self).tokens@,
                    self.filename == old(self).filename,
                    self.nesting_depth == old(self).nesting_depth,
                    self.current > old(self).current,
                    file == old(self).filename@,
                    budget == MAX_NESTING_DEPTH as int - old(self).nesting_depth as int + 1,
                    forall|i: int|
                        0 <= i < then_exprs@.len() ==> expr_ok(
                            crate::ast::expr_v(#[trigger] then_exprs@[i]),
                            file,
                            budget - 1,
                        ),
                decreases self.tokens@.len() - self.current,
            {
                let e = self.parse_expr()?;
                then_exprs.push(e);
            }
            self.consume(TokenKind::RightBracket, "Expected ']'")?;

            let else_loc = self.current_loc();
            self.consume(TokenKind::LeftBracket, "Expected '[' for else branch")?;
            let mut else_exprs: Vec<Expr> = Vec::new();
            while !self.check(TokenKind::RightBracket) && !self.is_at_end()
                invariant
                    self.wf(),
                    self.tokens@ == old(self).tokens@,
                    self.filename == old(self).filename,
                    self.nesting_depth == old(self).nesting_depth,
                    self.current > old(self).current,
                    file == old(self).filename@,
                    budget == MAX_NESTING_DEPTH as int - old(self).nesting_depth as int + 1,
                    forall|i: int|
                        0 <= i < else_exprs@.len() ==> expr_ok(
                            crate::ast::expr_v(#[trigger] else_exprs@[i]),
                            file,
                            budget - 1,
                        ),
                decreases self.tokens@.len() - self.current,
            {
                let e = self.parse_expr()?;
                else_exprs.push(e);
            }
            self.consume(TokenKind::RightBracket, "Expected ']'")?;

            proof {
                lemma_exprs_v_len(then_exprs@);
                lemma_exprs_ok_iff(exprs_v(then_exprs@), file, budget - 1);
                lemma_exprs_v_len(else_exprs@);
                lemma_exprs_ok_iff(exprs_v(else_exprs@), file, budget - 1);
            }
            let then_q = Expr::Quotation(then_exprs, then_loc);
            let else_q = Expr::Quotation(else_exprs, else_loc);
            proof {
                assert(expr_ok(then_q@, file, budget));
                assert(expr_ok(else_q@, file, budget));
            }
            let e = Expr::If {
                then_branch: Box::new(then_q),
                else_branch: Box::new(else_q),
                loc,
            };
            proof {
                assert(e@ matches ExprV::If { then_branch, else_branch, .. }
                    && then_branch.len() == 1 && else_branch.len() == 1
                    && then_branch[0] == then_q@ && else_branch[0] == else_q@);
                assert(expr_ok(e@, file, budget));
            }
            return Ok(e);
        }

        if kind == TokenKind::Ident {
            let name = clone_string(&self.tokens[self.current].lexeme);
            let loc = self.current_loc();
            self.advance();
            return Ok(Expr::WordCall(name, loc));
        }

        let tok = &self.tokens[self.current];
        let mut message = String::from_str("Unexpected token: ");
        message.append(kind_name(kind));
        Err(ParseError { message, line: tok.line, column: tok.column })
    }
}

/// The UTF-8 byte length of a name given as characters.
fn name_byte_len(cs: &Vec<char>) -> (r: usize)
    ensures
        r as int == crate::numtext::utf8_len_seq(cs@) || r == usize::MAX,
{
    let mut total: usize = 0;
    let mut i: usize = 0;
    while i < cs.len()
        invariant
            i <= cs@.len(),
            total as int == crate::numtext::utf8_len_seq(cs@.subrange(0, i as int)) || total
                == usize::MAX,
        decreases cs@.len() - i,
    {
        let l = crate::numtext::utf8_len_of(cs[i]) as usize;
        proof {
            assert(cs@.subrange(0, i + 1).drop_last() =~= cs@.subrange(0, i as int));
        }
        if total <= usize::MAX - l {
            total = total + l;
        } else {
            total = usize::MAX;
        }
        i = i + 1;
    }
    proof {
        assert(cs@.subrange(0, cs@.len() as int) =~= cs@);
    }
    total
}

/// A short display name for a token kind, used in diagnostics.
fn kind_name(kind: TokenKind) -> (r: &'static str) {
    match kind {
        TokenKind::IntLiteral => "INT",
        TokenKind::StringLiteral => "STRING",
        TokenKind::BoolLiteral => "BOOL",
        TokenKind::Type => "type",
        TokenKind::Colon => ":",
        TokenKind::Pipe => "|",
        TokenKind::Match => "match",
        TokenKind::End => "end",
        TokenKind::If => "if",
        TokenKind::Arrow => "=>",
        TokenKind::LeftParen => "(",
        TokenKind::RightParen => ")",
        TokenKind::LeftBracket => "[",
        TokenKind::RightBracket => "]",
        TokenKind::Dash => "--",
        TokenKind::Ident => "IDENT",
        TokenKind::Eof => "EOF",
        TokenKind::Comment => "COMMENT",
    }
}

} // verus!
