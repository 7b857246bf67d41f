//! Lexer for Cem: turns source characters into a token stream with
//! one-based line and column positions.
//!
//! The meaning of every step is given by spec functions over the input
//! characters (`spec_next_token`, `spec_tokenize`); the executable lexer
//! is proved to produce exactly those tokens.

use vstd::prelude::*;
use crate::shim::{chars_of, push_char, str_eq, is_alphabetic_char, is_alphanumeric_char,
    char_alphabetic, char_alphanumeric};
use crate::numtext::{is_digit, utf8_len};

verus! {

/// Kind of a lexical token.
#[derive(Debug, Clone, Copy, PartialEq, Eq, Structural)]
pub enum TokenKind {
    /// Integer literal.
    IntLiteral,
    /// String literal.
    StringLiteral,
    /// `true` or `false`.
    BoolLiteral,
    /// The keyword `type`.
    Type,
    /// `:`
    Colon,
    /// `|`
    Pipe,
    /// The keyword `match`.
    Match,
    /// The keyword `end`.
    End,
    /// The keyword `if`.
    If,
    /// `=>`
    Arrow,
    /// `(`
    LeftParen,
    /// `)`
    RightParen,
    /// `[`
    LeftBracket,
    /// `]`
    RightBracket,
    /// `--`
    Dash,
    /// Word, type, or variant name.
    Ident,
    /// End of input.
    Eof,
    /// A comment (never produced; comments are skipped).
    Comment,
}

/// A token: its kind, its text, and the position of its first character.
#[derive(Debug, PartialEq)]
pub struct Token {
    pub kind: TokenKind,
    pub lexeme: String,
    pub line: usize,
    pub column: usize,
}

/// Mathematical model of a token.
pub struct TokenV {
    pub kind: TokenKind,
    pub lexeme: Seq<char>,
    pub line: int,
    pub column: int,
}

impl View for Token {
    type V = TokenV;

    open spec fn view(&self) -> TokenV {
        TokenV {
            kind: self.kind,
            lexeme: self.lexeme@,
            line: self.line as int,
            column: self.column as int,
        }
    }
}

/// Model of a sequence of tokens.
pub open spec fn toks_v(ts: Seq<Token>) -> Seq<TokenV> {
    ts.map_values(|t: Token| t@)
}

/// The lexer's position: index into the input, and one-based line and
/// column of the next character.
pub struct LexState {
    pub pos: int,
    pub line: int,
    pub col: int,
}

/// Characters that may appear in identifiers as operators.
pub open spec fn op_char(c: char) -> bool {
    c == '+' || c == '-' || c == '*' || c == '/' || c == '<' || c == '>' || c == '='
        || c == '!'
}

/// Whether `c` may continue an identifier.
pub open spec fn ident_char(c: char) -> bool {
    char_alphanumeric(c) || c == '_' || c == '-' || op_char(c)
}

/// One whitespace-or-comment step at a time: spaces, tabs, carriage
/// returns and newlines are skipped; `#` starts a comment running to the
/// next newline. A newline advances the line count and restarts the
/// column at one, so columns are one-based within every line.
pub open spec fn spec_skip(inp: Seq<char>, st: LexState, in_comment: bool) -> LexState
    decreases inp.len() - st.pos,
{
    if st.pos < 0 || st.pos >= inp.len() {
        st
    } else {
        let c = inp[st.pos];
        if in_comment {
            if c == '\n' {
                spec_skip(inp, LexState { pos: st.pos + 1, line: st.line + 1, col: 1 }, false)
            } else {
                spec_skip(inp, LexState { pos: st.pos + 1, line: st.line, col: st.col + 1 }, true)
            }
        } else {
            if c == ' ' || c == '\t' || c == '\r' {
                spec_skip(inp, LexState { pos: st.pos + 1, line: st.line, col: st.col + 1 }, false)
            } else if c == '\n' {
                spec_skip(inp, LexState { pos: st.pos + 1, line: st.line + 1, col: 1 }, false)
            } else if c == '#' {
                spec_skip(inp, LexState { pos: st.pos + 1, line: st.line, col: st.col + 1 }, true)
            } else {
                st
            }
        }
    }
}

/// The end of the digit run starting at `pos`.
pub open spec fn digits_end(inp: Seq<char>, pos: int) -> int
    decreases inp.len() - pos,
{
    if 0 <= pos < inp.len() && is_digit(inp[pos]) {
        digits_end(inp, pos + 1)
    } else {
        pos
    }
}

/// The end of the identifier starting at `pos`.
pub open spec fn ident_end(inp: Seq<char>, pos: int) -> int
    decreases inp.len() - pos,
{
    if 0 <= pos < inp.len() && ident_char(inp[pos]) {
        ident_end(inp, pos + 1)
    } else {
        pos
    }
}

/// The token kind of an identifier lexeme: keywords and boolean literals
/// are recognised here.
pub open spec fn keyword_kind(lex: Seq<char>) -> TokenKind {
    if lex == "type"@ {
        TokenKind::Type
    } else if lex == "match"@ {
        TokenKind::Match
    } else if lex == "end"@ {
        TokenKind::End
    } else if lex == "if"@ {
        TokenKind::If
    } else if lex == "true"@ || lex == "false"@ {
        TokenKind::BoolLiteral
    } else {
        TokenKind::Ident
    }
}

/// What a backslash escape denotes; unknown escapes pass the character
/// through unchanged.
pub open spec fn escape_char(c: char) -> char {
    if c == 'n' {
        '\n'
    } else if c == 't' {
        '\t'
    } else if c == 'r' {
        '\r'
    } else {
        c
    }
}

/// The byte budget of one string literal.
pub open spec fn max_string_bytes() -> int {
    1000000
}

/// The rest of a string literal, after its opening quote. `acc` is the
/// value read so far and `nbytes` its size in bytes; `sline`/`scol` are
/// the position of the opening quote. The possible outcomes: the closing
/// quote (a string token), end of input or a raw newline (error tokens),
/// or the byte budget exceeded (an error token, read no further).
pub open spec fn spec_string_tail(
    inp: Seq<char>,
    st: LexState,
    acc: Seq<char>,
    nbytes: int,
    sline: int,
    scol: int,
) -> (TokenV, LexState)
    decreases inp.len() - st.pos,
{
    if st.pos < 0 || st.pos >= inp.len() {
        (
            TokenV {
                kind: TokenKind::Ident,
                lexeme: "ERROR: Unterminated string literal (EOF)"@,
                line: sline,
                column: scol,
            },
            st,
        )
    } else if inp[st.pos] == '"' {
        (
            TokenV { kind: TokenKind::StringLiteral, lexeme: acc, line: sline, column: scol },
            LexState { pos: st.pos + 1, line: st.line, col: st.col + 1 },
        )
    } else if nbytes >= max_string_bytes() {
        (
            TokenV {
                kind: TokenKind::Ident,
                lexeme: "ERROR: String exceeds maximum length of 1000000 bytes"@,
                line: sline,
                column: scol,
            },
            st,
        )
    } else if inp[st.pos] == '\n' {
        (
            TokenV {
                kind: TokenKind::Ident,
                lexeme: "ERROR: Unterminated string literal (newline)"@,
                line: sline,
                column: scol,
            },
            st,
        )
    } else if inp[st.pos] == '\\' {
        if st.pos + 1 >= inp.len() {
            (
                TokenV {
                    kind: TokenKind::Ident,
                    lexeme: "ERROR: Unterminated string literal (EOF)"@,
                    line: sline,
                    column: scol,
                },
                LexState { pos: st.pos + 1, line: st.line, col: st.col + 1 },
            )
        } else {
            let e = escape_char(inp[st.pos + 1]);
            spec_string_tail(
                inp,
                LexState { pos: st.pos + 2, line: st.line, col: st.col + 2 },
                acc.push(e),
                nbytes + utf8_len(e),
                sline,
                scol,
            )
        }
    } else {
        spec_string_tail(
            inp,
            LexState { pos: st.pos + 1, line: st.line, col: st.col + 1 },
            acc.push(inp[st.pos]),
            nbytes + utf8_len(inp[st.pos]),
            sline,
            scol,
        )
    }
}

/// The next token of `inp` from state `st`, and the state after it.
pub open spec fn spec_next_token(inp: Seq<char>, st0: LexState) -> (TokenV, LexState) {
    let st = spec_skip(inp, st0, false);
    if st.pos >= inp.len() {
        (
            TokenV { kind: TokenKind::Eof, lexeme: Seq::empty(), line: st.line, column: st.col },
            st,
        )
    } else {
        let c = inp[st.pos];
        if c == '(' {
            (
                TokenV { kind: TokenKind::LeftParen, lexeme: "("@, line: st.line, column: st.col },
                LexState { pos: st.pos + 1, line: st.line, col: st.col + 1 },
            )
        } else if c == ')' {
            (
                TokenV { kind: TokenKind::RightParen, lexeme: ")"@, line: st.line, column: st.col },
                LexState { pos: st.pos + 1, line: st.line, col: st.col + 1 },
            )
        } else if c == '[' {
            (
                TokenV {
                    kind: TokenKind::LeftBracket,
                    lexeme: "["@,
                    line: st.line,
                    column: st.col,
                },
                LexState { pos: st.pos + 1, line: st.line, col: st.col + 1 },
            )
        } else if c == ']' {
            (
                TokenV {
                    kind: TokenKind::RightBracket,
                    lexeme: "]"@,
                    line: st.line,
                    column: st.col,
                },
                LexState { pos: st.pos + 1, line: st.line, col: st.col + 1 },
            )
        } else if c == ':' {
            (
                TokenV { kind: TokenKind::Colon, lexeme: ":"@, line: st.line, column: st.col },
                LexState { pos: st.pos + 1, line: st.line, col: st.col + 1 },
            )
        } else if c == '|' {
            (
                TokenV { kind: TokenKind::Pipe, lexeme: "|"@, line: st.line, column: st.col },
                LexState { pos: st.pos + 1, line: st.line, col: st.col + 1 },
            )
        } else if c == '-' {
            if st.pos + 1 < inp.len() && inp[st.pos + 1] == '-' {
                (
                    TokenV { kind: TokenKind::Dash, lexeme: "--"@, line: st.line, column: st.col },
                    LexState { pos: st.pos + 2, line: st.line, col: st.col + 2 },
                )
            } else if st.pos + 1 < inp.len() && is_digit(inp[st.pos + 1]) {
                spec_number(inp, st)
            } else {
                spec_ident(inp, st)
            }
        } else if c == '=' {
            if st.pos + 1 < inp.len() && inp[st.pos + 1] == '>' {
                (
                    TokenV { kind: TokenKind::Arrow, lexeme: "=>"@, line: st.line, column: st.col },
                    LexState { pos: st.pos + 2, line: st.line, col: st.col + 2 },
                )
            } else {
                (
                    TokenV { kind: TokenKind::Ident, lexeme: "="@, line: st.line, column: st.col },
                    LexState { pos: st.pos + 1, line: st.line, col: st.col + 1 },
                )
            }
        } else if c == '"' {
            spec_string_tail(
                inp,
                LexState { pos: st.pos + 1, line: st.line, col: st.col + 1 },
                Seq::empty(),
                0,
                st.line,
                st.col,
            )
        } else if is_digit(c) {
            spec_number(inp, st)
        } else if char_alphabetic(c) || c == '_' || op_char(c) {
            spec_ident(inp, st)
        } else {
            (
                TokenV { kind: TokenKind::Ident, lexeme: seq![c], line: st.line, column: st.col },
                LexState { pos: st.pos + 1, line: st.line, col: st.col + 1 },
            )
        }
    }
}

/// An integer literal at `st`: an optional minus sign, then the digit
/// run.
pub open spec fn spec_number(inp: Seq<char>, st: LexState) -> (TokenV, LexState) {
    let start = st.pos;
    let dstart = if 0 <= st.pos < inp.len() && inp[st.pos] == '-' {
        st.pos + 1
    } else {
        st.pos
    };
    let e = digits_end(inp, dstart);
    (
        TokenV {
            kind: TokenKind::IntLiteral,
            lexeme: inp.subrange(start, e),
            line: st.line,
            column: st.col,
        },
        LexState { pos: e, line: st.line, col: st.col + (e - start) },
    )
}

/// An identifier or keyword at `st`.
pub open spec fn spec_ident(inp: Seq<char>, st: LexState) -> (TokenV, LexState) {
    let e = ident_end(inp, st.pos);
    let lex = inp.subrange(st.pos, e);
    (
        TokenV { kind: keyword_kind(lex), lexeme: lex, line: st.line, column: st.col },
        LexState { pos: e, line: st.line, col: st.col + (e - st.pos) },
    )
}

/// All tokens of `inp` from `st`, ending with the `Eof` token.
pub open spec fn spec_tokenize(inp: Seq<char>, st: LexState) -> Seq<TokenV>
    decreases inp.len() - st.pos,
{
    let (tok, st1) = spec_next_token(inp, st);
    if tok.kind == TokenKind::Eof || st1.pos <= st.pos || st1.pos > inp.len() {
        seq![tok]
    } else {
        seq![tok] + spec_tokenize(inp, st1)
    }
}

/// The lexer: the input characters and the current position.
pub struct Lexer {
    pub input: Vec<char>,
    pub position: usize,
    pub line: usize,
    pub column: usize,
}

impl Lexer {
    /// The lexer's position as a model state.
    pub open spec fn st(&self) -> LexState {
        LexState { pos: self.position as int, line: self.line as int, col: self.column as int }
    }

    /// Well-formedness: the position is inside the input and the line and
    /// column counters stay in machine range.
    pub open spec fn wf(&self) -> bool {
        &&& self.input@.len() < usize::MAX
        &&& self.position <= self.input@.len()
        &&& self.line as int <= self.position as int + 1
        &&& self.column as int <= self.position as int + 1
    }

    /// A lexer over `input`, at its first character, line 1 and column 1.
    pub fn new(input: &str) -> (r: Lexer)
        requires
            input@.len() < usize::MAX,
        ensures
            r.wf(),
            r.input@ == input@,
            r.st() == (LexState { pos: 0, line: 1, col: 1 }),
    {
        Lexer { input: chars_of(input), position: 0, line: 1, column: 1 }
    }

    /// Skip whitespace and comments, as `spec_skip` describes.
    fn skip_whitespace_and_comments(&mut self)
        requires
            old(self).wf(),
        ensures
            final(self).wf(),
            final(self).input@ == old(self).input@,
            final(self).st() == spec_skip(old(self).input@, old(self).st(), false),
            final(self).position >= old(self).position,
    {
        let ghost inp = self.input@;
        let ghost st0 = self.st();
        let mut in_comment: bool = false;
        loop
            invariant
                self.wf(),
                inp == old(self).input@,
                st0 == old(self).st(),
                self.input@ == inp,
                self.position >= st0.pos,
                spec_skip(inp, st0, false) == spec_skip(inp, self.st(), in_comment),
            decreases inp.len() - self.position,
        {
            if self.position >= self.input.len() {
                return;
            }
            let c = self.input[self.position];
            if in_comment {
                if c == '\n' {
                    self.position = self.position + 1;
                    self.line = self.line + 1;
                    self.column = 1;
                    in_comment = false;
                } else {
                    self.position = self.position + 1;
                    self.column = self.column + 1;
                }
            } else {
                if c == ' ' || c == '\t' || c == '\r' {
                    self.position = self.position + 1;
                    self.column = self.column + 1;
                } else if c == '\n' {
                    self.position = self.position + 1;
                    self.line = self.line + 1;
                    self.column = 1;
                } else if c == '#' {
                    self.position = self.position + 1;
                    self.column = self.column + 1;
                    in_comment = true;
                } else {
                    return;
                }
            }
        }
    }

    /// Read the digit run from the current position into `out`.
    fn read_digits(&mut self, out: &mut String)
        requires
            old(self).wf(),
        ensures
            final(self).wf(),
            final(self).input@ == old(self).input@,
            final(self).position as int == digits_end(old(self).input@, old(self).st().pos),
            final(self).line == old(self).line,
            final(self).column as int == old(self).column as int + (final(self).position as int
                - old(self).position as int),
            final(out)@ == old(out)@ + old(self).input@.subrange(
                old(self).st().pos,
                digits_end(old(self).input@, old(self).st().pos),
            ),
    {
        let ghost inp = self.input@;
        let ghost p0 = self.position as int;
        loop
            invariant
                self.wf(),
                inp == old(self).input@,
                p0 == old(self).st().pos,
                self.input@ == inp,
                p0 <= self.position as int,
                self.line == old(self).line,
                self.column as int == old(self).column as int + (self.position as int - p0),
                digits_end(inp, p0) == digits_end(inp, self.position as int),
                out@ == old(out)@ + inp.subrange(p0, self.position as int),
            decreases inp.len() - self.position,
        {
            if self.position >= self.input.len() {
                proof {
                    assert(inp.subrange(p0, self.position as int) =~= inp.subrange(
                        p0,
                        digits_end(inp, p0),
                    ));
                }
                return;
            }
            let c = self.input[self.position];
            let u = c as u32;
            if !(48 <= u && u <= 57) {
                proof {
                    assert(inp.subrange(p0, self.position as int) =~= inp.subrange(
                        p0,
                        digits_end(inp, p0),
                    ));
                }
                return;
            }
            push_char(out, c);
            proof {
                assert(inp.subrange(p0, self.position as int + 1) =~= inp.subrange(
                    p0,
                    self.position as int,
                ).push(c));
            }
            self.position = self.position + 1;
            self.column = self.column + 1;
        }
    }

    /// Read the identifier run from the current position into `out`.
    fn read_ident(&mut self, out: &mut String)
        requires
            old(self).wf(),
        ensures
            final(self).wf(),
            final(self).input@ == old(self).input@,
            final(self).position as int == ident_end(old(self).input@, old(self).st().pos),
            final(self).line == old(self).line,
            final(self).column as int == old(self).column as int + (final(self).position as int
                - old(self).position as int),
            final(out)@ == old(out)@ + old(self).input@.subrange(
                old(self).st().pos,
                ident_end(old(self).input@, old(self).st().pos),
            ),
    {
        let ghost inp = self.input@;
        let ghost p0 = self.position as int;
        loop
            invariant
                self.wf(),
                inp == old(self).input@,
                p0 == old(self).st().pos,
                self.input@ == inp,
                p0 <= self.position as int,
                self.line == old(self).line,
                self.column as int == old(self).column as int + (self.position as int - p0),
                ident_end(inp, p0) == ident_end(inp, self.position as int),
                out@ == old(out)@ + inp.subrange(p0, self.position as int),
            decreases inp.len() - self.position,
        {
            if self.position >= self.input.len() {
                proof {
                    assert(inp.subrange(p0, self.position as int) =~= inp.subrange(
                        p0,
                        ident_end(inp, p0),
                    ));
                }
                return;
            }
            let c = self.input[self.position];
            let alnum = is_alphanumeric_char(c);
            let cont = alnum || c == '_' || c == '-' || is_op_char(c);
            if !cont {
                proof {
                    assert(inp.subrange(p0, self.position as int) =~= inp.subrange(
                        p0,
                        ident_end(inp, p0),
                    ));
                }
                return;
            }
            push_char(out, c);
            proof {
                assert(inp.subrange(p0, self.position as int + 1) =~= inp.subrange(
                    p0,
                    self.position as int,
                ).push(c));
            }
            self.position = self.position + 1;
            self.column = self.column + 1;
        }
    }

    /// A single-character token at the current position.
    fn single(&mut self, kind: TokenKind, lexeme: &str) -> (r: Token)
        requires
            old(self).wf(),
            old(self).position < old(self).input@.len(),
        ensures
            final(self).wf(),
            final(self).input@ == old(self).input@,
            r@ == (TokenV {
                kind: kind,
                lexeme: lexeme@,
                line: old(self).st().line,
                column: old(self).st().col,
            }),
            final(self).st() == (LexState {
                pos: old(self).st().pos + 1,
                line: old(self).st().line,
                col: old(self).st().col + 1,
            }),
    {
        let t = Token {
            kind,
            lexeme: String::from_str(lexeme),
            line: self.line,
            column: self.column,
        };
        self.position = self.position + 1;
        self.column = self.column + 1;
        t
    }

    /// The string literal whose opening quote is at the current position.
    fn string_literal(&mut self) -> (r: Token)
        requires
            old(self).wf(),
            old(self).position < old(self).input@.len(),
            old(self).input@[old(self).st().pos] == '"',
        ensures
            final(self).wf(),
            final(self).input@ == old(self).input@,
            ({
                let (tok, st1) = spec_string_tail(
                    old(self).input@,
                    LexState {
                        pos: old(self).st().pos + 1,
                        line: old(self).st().line,
                        col: old(self).st().col + 1,
                    },
                    Seq::empty(),
                    0,
                    old(self).st().line,
                    old(self).st().col,
                );
                r@ == tok && final(self).st() == st1
            }),
            final(self).position > old(self).position,
    {
        let ghost inp = self.input@;
        let start_line = self.line;
        let start_column = self.column;
        self.position = self.position + 1;  // consume the opening quote
        self.column = self.column + 1;
        let mut value = String::new();
        let mut nbytes: usize = 0;
        loop
            invariant
                self.wf(),
                inp == old(self).input@,
                self.input@ == inp,
                self.position as int > old(self).position as int,
                nbytes as int <= max_string_bytes() + 4,
                start_line == old(self).st().line && start_column == old(self).st().col,
                spec_string_tail(
                    inp,
                    LexState {
                        pos: old(self).st().pos + 1,
                        line: old(self).st().line,
                        col: old(self).st().col + 1,
                    },
                    Seq::empty(),
                    0,
                    old(self).st().line,
                    old(self).st().col,
                ) == spec_string_tail(
                    inp,
                    self.st(),
                    value@,
                    nbytes as int,
                    start_line as int,
                    start_column as int,
                ),
            decreases inp.len() - self.position,
        {
            if self.position >= self.input.len() {
                return Token {
                    kind: TokenKind::Ident,
                    lexeme: String::from_str("ERROR: Unterminated string literal (EOF)"),
                    line: start_line,
                    column: start_column,
                };
            }
            let c = self.input[self.position];
            if c == '"' {
                self.position = self.position + 1;
                self.column = self.column + 1;
                return Token {
                    kind: TokenKind::StringLiteral,
                    lexeme: value,
                    line: start_line,
                    column: start_column,
                };
            }
            if nbytes >= 1000000 {
                return Token {
                    kind: TokenKind::Ident,
                    lexeme: String::from_str(
                        "ERROR: String exceeds maximum length of 1000000 bytes",
                    ),
                    line: start_line,
                    column: start_column,
                };
            }
            if c == '\n' {
                return Token {
                    kind: TokenKind::Ident,
                    lexeme: String::from_str("ERROR: Unterminated string literal (newline)"),
                    line: start_line,
                    column: start_column,
                };
            }
            if c == '\\' {
                self.position = self.position + 1;
                self.column = self.column + 1;
                if self.position >= self.input.len() {
                    return Token {
                        kind: TokenKind::Ident,
                        lexeme: String::from_str("ERROR: Unterminated string literal (EOF)"),
                        line: start_line,
                        column: start_column,
                    };
                }
                let e = self.input[self.position];
                let escaped: char = if e == 'n' {
                    '\n'
                } else if e == 't' {
                    '\t'
                } else if e == 'r' {
                    '\r'
                } else {
                    e
                };
                push_char(&mut value, escaped);
                nbytes = nbytes + crate::numtext::utf8_len_of(escaped) as usize;
                self.position = self.position + 1;
                self.column = self.column + 1;
            } else {
                push_char(&mut value, c);
                nbytes = nbytes + crate::numtext::utf8_len_of(c) as usize;
                self.position = self.position + 1;
                self.column = self.column + 1;
            }
        }
    }

    /// The next token, as `spec_next_token` describes.
    pub fn next_token(&mut self) -> (r: Token)
        requires
            old(self).wf(),
        ensures
            final(self).wf(),
            final(self).input@ == old(self).input@,
            ({
                let (tok, st1) = spec_next_token(old(self).input@, old(self).st());
                r@ == tok && final(self).st() == st1
            }),
            r@.kind != TokenKind::Eof ==> final(self).position > old(self).position,
            final(self).position >= old(self).position,
    {
        proof {
            lemma_skip_bounds(old(self).input@, old(self).st(), false);
        }
        self.skip_whitespace_and_comments();

        if self.position >= self.input.len() {
            return Token {
                kind: TokenKind::Eof,
                lexeme: String::new(),
                line: self.line,
                column: self.column,
            };
        }

        let ghost inp = self.input@;
        let c = self.input[self.position];

        if c == '(' {
            return self.single(TokenKind::LeftParen, "(");
        }
        if c == ')' {
            return self.single(TokenKind::RightParen, ")");
        }
        if c == '[' {
            return self.single(TokenKind::LeftBracket, "[");
        }
        if c == ']' {
            return self.single(TokenKind::RightBracket, "]");
        }
        if c == ':' {
            return self.single(TokenKind::Colon, ":");
        }
        if c == '|' {
            return self.single(TokenKind::Pipe, "|");
        }
        if c == '-' {
            if self.position + 1 < self.input.len() && self.input[self.position + 1] == '-' {
                let t = Token {
                    kind: TokenKind::Dash,
                    lexeme: String::from_str("--"),
                    line: self.line,
                    column: self.column,
                };
                self.position = self.position + 2;
                self.column = self.column + 2;
                return t;
            }
            let next_digit = if self.position + 1 < self.input.len() {
                let n = self.input[self.position + 1];
                let u = n as u32;
                48 <= u && u <= 57
            } else {
                false
            };
            if next_digit {
                proof {
                    lemma_digits_end_bounds(inp, self.st().pos + 1);
                }
                return self.number_literal();
            }
            proof {
                let p = self.st().pos;
                assert(ident_char(inp[p]));
                assert(ident_end(inp, p) == ident_end(inp, p + 1));
                lemma_ident_end_bounds(inp, p + 1);
            }
            return self.identifier_or_keyword();
        }
        if c == '=' {
            if self.position + 1 < self.input.len() && self.input[self.position + 1] == '>' {
                let t = Token {
                    kind: TokenKind::Arrow,
                    lexeme: String::from_str("=>"),
                    line: self.line,
                    column: self.column,
                };
                self.position = self.position + 2;
                self.column = self.column + 2;
                return t;
            }
            return self.single(TokenKind::Ident, "=");
        }
        if c == '"' {
            return self.string_literal();
        }
        let u = c as u32;
        if 48 <= u && u <= 57 {
            proof {
                let p = self.st().pos;
                assert(digits_end(inp, p) == digits_end(inp, p + 1));
                lemma_digits_end_bounds(inp, p + 1);
            }
            return self.number_literal();
        }
        let alpha = is_alphabetic_char(c);
        if alpha || c == '_' || is_op_char(c) {
            proof {
                let p = self.st().pos;
                assert(ident_char(inp[p]));
                assert(ident_end(inp, p) == ident_end(inp, p + 1));
                lemma_ident_end_bounds(inp, p + 1);
            }
            return self.identifier_or_keyword();
        }
        let mut lexeme = String::new();
        push_char(&mut lexeme, c);
        let t = Token { kind: TokenKind::Ident, lexeme, line: self.line, column: self.column };
        self.position = self.position + 1;
        self.column = self.column + 1;
        proof {
            assert(t@.lexeme =~= seq![c]);
        }
        return t;
    }

    /// An integer literal at the current position, as `spec_number`
    /// describes.
    fn number_literal(&mut self) -> (r: Token)
        requires
            old(self).wf(),
            old(self).position < old(self).input@.len(),
        ensures
            final(self).wf(),
            final(self).input@ == old(self).input@,
            ({
                let (tok, st1) = spec_number(old(self).input@, old(self).st());
                r@ == tok && final(self).st() == st1
            }),
    {
        let ghost inp = self.input@;
        let ghost st0 = self.st();
        let start_line = self.line;
        let start_column = self.column;
        let mut value = String::new();

        if self.input[self.position] == '-' {
            push_char(&mut value, '-');
            self.position = self.position + 1;
            self.column = self.column + 1;
        }
        let ghost dstart = self.position as int;
        self.read_digits(&mut value);
        proof {
            lemma_digits_end_bounds(inp, dstart);
            assert(value@ =~= inp.subrange(st0.pos, digits_end(inp, dstart)));
        }
        Token { kind: TokenKind::IntLiteral, lexeme: value, line: start_line, column: start_column }
    }

    /// An identifier or keyword at the current position, as `spec_ident`
    /// describes.
    fn identifier_or_keyword(&mut self) -> (r: Token)
        requires
            old(self).wf(),
        ensures
            final(self).wf(),
            final(self).input@ == old(self).input@,
            ({
                let (tok, st1) = spec_ident(old(self).input@, old(self).st());
                r@ == tok && final(self).st() == st1
            }),
    {
        let start_line = self.line;
        let start_column = self.column;
        let mut value = String::new();
        self.read_ident(&mut value);
        let kind = if str_eq(value.as_str(), "type") {
            TokenKind::Type
        } else if str_eq(value.as_str(), "match") {
            TokenKind::Match
        } else if str_eq(value.as_str(), "end") {
            TokenKind::End
        } else if str_eq(value.as_str(), "if") {
            TokenKind::If
        } else if str_eq(value.as_str(), "true") || str_eq(value.as_str(), "false") {
            TokenKind::BoolLiteral
        } else {
            TokenKind::Ident
        };
        Token { kind, lexeme: value, line: start_line, column: start_column }
    }

    /// All tokens up to and with the final `Eof` token, as
    /// `spec_tokenize` describes.
    pub fn tokenize(&mut self) -> (r: Vec<Token>)
        requires
            old(self).wf(),
        ensures
            final(self).wf(),
            toks_v(r@) == spec_tokenize(old(self).input@, old(self).st()),
            r@.len() >= 1,
            r@.last()@.kind == TokenKind::Eof,
            forall|i: int| 0 <= i < r@.len() - 1 ==> (#[trigger] r@[i])@.kind != TokenKind::Eof,
    {
        let ghost inp = self.input@;
        let mut tokens: Vec<Token> = Vec::new();
        loop
            invariant
                self.wf(),
                inp == old(self).input@,
                self.input@ == inp,
                forall|i: int| 0 <= i < tokens@.len() ==> (#[trigger] tokens@[i])@.kind
                    != TokenKind::Eof,
                spec_tokenize(inp, old(self).st()) == toks_v(tokens@) + spec_tokenize(
                    inp,
                    self.st(),
                ),
            decreases inp.len() - self.position,
        {
            let ghost st_before = self.st();
            let token = self.next_token();
            let is_eof = match token.kind {
                TokenKind::Eof => true,
                _ => false,
            };
            proof {
                assert(toks_v(tokens@.push(token)) =~= toks_v(tokens@).push(token@));
            }
            tokens.push(token);
            if is_eof {
                proof {
                    assert(spec_tokenize(inp, st_before) =~= seq![spec_next_token(inp, st_before).0]);
                    assert(toks_v(tokens@) + Seq::<TokenV>::empty() =~= toks_v(tokens@));
                    assert(spec_tokenize(inp, old(self).st()) =~= toks_v(tokens@));
                }
                return tokens;
            }
            proof {
                assert(spec_tokenize(inp, st_before) =~= seq![spec_next_token(inp, st_before).0]
                    + spec_tokenize(inp, self.st()));
            }
        }
    }
}

/// Whether `c` is one of the operator characters that identifiers may
/// hold.
pub fn is_op_char(c: char) -> (r: bool)
    ensures
        r == op_char(c),
{
    c == '+' || c == '-' || c == '*' || c == '/' || c == '<' || c == '>' || c == '=' || c == '!'
}

/// Skipping whitespace never moves backwards and stays within bounds,
/// and keeps line and column within their machine ranges.
pub proof fn lemma_skip_bounds(inp: Seq<char>, st: LexState, in_comment: bool)
    requires
        0 <= st.pos <= inp.len(),
        st.line <= st.pos + 1,
        st.col <= st.pos + 1,
    ensures
        ({
            let r = spec_skip(inp, st, in_comment);
            st.pos <= r.pos <= inp.len() && r.line <= r.pos + 1 && r.col <= r.pos + 1
        }),
    decreases inp.len() - st.pos,
{
    if 0 <= st.pos < inp.len() {
        let c = inp[st.pos];
        if in_comment {
            if c == '\n' {
                lemma_skip_bounds(
                    inp,
                    LexState { pos: st.pos + 1, line: st.line + 1, col: 1 },
                    false,
                );
            } else {
                lemma_skip_bounds(
                    inp,
                    LexState { pos: st.pos + 1, line: st.line, col: st.col + 1 },
                    true,
                );
            }
        } else {
            if c == ' ' || c == '\t' || c == '\r' {
                lemma_skip_bounds(
                    inp,
                    LexState { pos: st.pos + 1, line: st.line, col: st.col + 1 },
                    false,
                );
            } else if c == '\n' {
                lemma_skip_bounds(
                    inp,
                    LexState { pos: st.pos + 1, line: st.line + 1, col: 1 },
                    false,
                );
            } else if c == '#' {
                lemma_skip_bounds(
                    inp,
                    LexState { pos: st.pos + 1, line: st.line, col: st.col + 1 },
                    true,
                );
            }
        }
    }
}

/// The end of a digit run lies between its start and the end of input.
pub proof fn lemma_digits_end_bounds(inp: Seq<char>, pos: int)
    requires
        0 <= pos <= inp.len(),
    ensures
        pos <= digits_end(inp, pos) <= inp.len(),
    decreases inp.len() - pos,
{
    if pos < inp.len() && is_digit(inp[pos]) {
        lemma_digits_end_bounds(inp, pos + 1);
    }
}

/// The end of an identifier lies between its start and the end of input.
pub proof fn lemma_ident_end_bounds(inp: Seq<char>, pos: int)
    requires
        0 <= pos <= inp.len(),
    ensures
        pos <= ident_end(inp, pos) <= inp.len(),
    decreases inp.len() - pos,
{
    if pos < inp.len() && ident_char(inp[pos]) {
        lemma_ident_end_bounds(inp, pos + 1);
    }
}


} // verus!
