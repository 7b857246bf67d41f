//! LLVM textual IR emission for Cem programs.
//!
//! Words become functions from stack pointer to stack pointer; literals
//! and built-ins become runtime calls; `match` lowers to a `switch` over
//! the variant tag whose default arm reports a runtime error; a call of
//! a user-defined word in tail position becomes a guaranteed tail call
//! (variant constructors and runtime built-ins never do). String literals
//! are interned: each distinct literal gets one private global.
//! The module never carries a target triple; the downstream driver picks
//! its native default.

use vstd::prelude::*;
use crate::ast::{Expr, ExprV, MatchBranch, BranchV, Pattern, Program, WordDef, SourceLoc,
    branches_v, lemma_branches_v_len, lemma_exprs_v_len, exprs_v};
use crate::shim::{str_eq, push_char, chars_of, arc_get};
use crate::numtext::{dec_u64, u64_to_dec, push_dec_u64, utf8_bytes, push_utf8_bytes, hex_char,
    hex_char_of};
use crate::types::clone_string;
use crate::text::{text_extends, lemma_extends_trans, lemma_extends_concat};

verus! {

broadcast use crate::text::lemma_extends_refl, crate::text::lemma_extends_append, crate::text::lemma_extends_trans_auto;

/// The emitted function name of a Cem word: the operators map to the
/// runtime's names, `exit` maps to `exit_op`, and hyphens become
/// underscores in any other name.
pub open spec fn mangled(n: Seq<char>) -> Seq<char> {
    if n == "+"@ {
        "add"@
    } else if n == "-"@ {
        "subtract"@
    } else if n == "*"@ {
        "multiply"@
    } else if n == "/"@ {
        "divide"@
    } else if n == "<"@ {
        "lt"@
    } else if n == ">"@ {
        "gt"@
    } else if n == "<="@ {
        "le"@
    } else if n == ">="@ {
        "ge"@
    } else if n == "="@ {
        "eq"@
    } else if n == "!="@ {
        "ne"@
    } else if n == "exit"@ {
        "exit_op"@
    } else {
        n.map_values(|c: char| if c == '-' {
            '_'
        } else {
            c
        })
    }
}

/// Whether a word is a runtime built-in; these are called normally and
/// never as guaranteed tail calls.
pub open spec fn builtin_name(n: Seq<char>) -> bool {
    ||| n == "dup"@
    ||| n == "drop"@
    ||| n == "swap"@
    ||| n == "over"@
    ||| n == "rot"@
    ||| n == "nip"@
    ||| n == "tuck"@
    ||| n == "pick"@
    ||| n == "dip"@
    ||| n == "+"@
    ||| n == "-"@
    ||| n == "*"@
    ||| n == "/"@
    ||| n == "<"@
    ||| n == ">"@
    ||| n == "<="@
    ||| n == ">="@
    ||| n == "="@
    ||| n == "!="@
    ||| n == "string-length"@
    ||| n == "string-concat"@
    ||| n == "string-equal"@
    ||| n == "string_length"@
    ||| n == "string_concat"@
    ||| n == "string_equal"@
    ||| n == "int-to-string"@
    ||| n == "bool-to-string"@
    ||| n == "int_to_string"@
    ||| n == "bool_to_string"@
    ||| n == "write-line"@
    ||| n == "read-line"@
    ||| n == "write_line"@
    ||| n == "read_line"@
}

/// One escaped character of an LLVM string constant: printable ASCII
/// passes through, backslash and quote get a backslash, everything else
/// becomes hex escapes of its UTF-8 bytes.
pub open spec fn esc_char(c: char) -> Seq<char> {
    let u = c as u32;
    if (0x20 <= u && u <= 0x21) || (0x23 <= u && u <= 0x5B) || (0x5D <= u && u <= 0x7E) {
        seq![c]
    } else if c == '\\' {
        seq!['\\', '\\']
    } else if c == '"' {
        seq!['\\', '"']
    } else {
        hex_escaped(utf8_bytes(c))
    }
}

/// Bytes as backslash-hex escapes.
pub open spec fn hex_escaped(bs: Seq<u8>) -> Seq<char>
    decreases bs,
{
    if bs.len() == 0 {
        Seq::empty()
    } else {
        seq!['\\', hex_char(bs[0] as int / 16), hex_char(bs[0] as int % 16)] + hex_escaped(
            bs.drop_first(),
        )
    }
}

/// A whole string escaped for an LLVM string constant.
pub open spec fn esc(s: Seq<char>) -> Seq<char>
    decreases s,
{
    if s.len() == 0 {
        Seq::empty()
    } else {
        esc_char(s[0]) + esc(s.drop_first())
    }
}

proof fn lemma_esc_push(s: Seq<char>, c: char)
    ensures
        esc(s.push(c)) == esc(s) + esc_char(c),
    decreases s,
{
    if s.len() == 0 {
        let p = s.push(c);
        assert(p.drop_first() =~= Seq::<char>::empty());
        assert(p[0] == c);
        assert(esc(p.drop_first()) == Seq::<char>::empty());
        assert(esc(p) == esc_char(c) + Seq::<char>::empty());
        assert(esc_char(c) + Seq::<char>::empty() =~= esc_char(c));
        assert(esc(s) == Seq::<char>::empty());
        assert(esc(s) + esc_char(c) =~= esc_char(c));
    } else {
        let p = s.push(c);
        assert(p.drop_first() =~= s.drop_first().push(c));
        assert(p[0] == s[0]);
        lemma_esc_push(s.drop_first(), c);
        assert(esc(p) == esc_char(s[0]) + (esc(s.drop_first()) + esc_char(c)));
        assert(esc_char(s[0]) + (esc(s.drop_first()) + esc_char(c)) =~= (esc_char(s[0]) + esc(
            s.drop_first(),
        )) + esc_char(c));
    }
}

/// Escape a string for an LLVM string constant, as `esc` describes.
pub fn escape_llvm_string(s: &str) -> (r: String)
    ensures
        r@ == esc(s@),
{
    let cs = chars_of(s);
    let mut r = String::new();
    let mut i: usize = 0;
    proof {
        assert(esc(cs@.subrange(0, 0)) =~= Seq::<char>::empty());
    }
    while i < cs.len()
        invariant
            i <= cs@.len(),
            cs@ == s@,
            r@ == esc(cs@.subrange(0, i as int)),
        decreases cs@.len() - i,
    {
        let c = cs[i];
        let u = c as u32;
        proof {
            assert(cs@.subrange(0, i + 1) =~= cs@.subrange(0, i as int).push(c));
            lemma_esc_push(cs@.subrange(0, i as int), c);
        }
        if (0x20 <= u && u <= 0x21) || (0x23 <= u && u <= 0x5B) || (0x5D <= u && u <= 0x7E) {
            push_char(&mut r, c);
        } else if c == '\\' {
            push_char(&mut r, '\\');
            push_char(&mut r, '\\');
        } else if c == '"' {
            push_char(&mut r, '\\');
            push_char(&mut r, '"');
        } else {
            let mut bytes: Vec<u8> = Vec::new();
            push_utf8_bytes(&mut bytes, c);
            let mut j: usize = 0;
            proof {
                assert(hex_escaped(bytes@.subrange(0, 0)) =~= Seq::<char>::empty());
            }
            while j < bytes.len()
                invariant
                    j <= bytes@.len(),
                    bytes@ == utf8_bytes(cs@[i as int]),
                    i < cs@.len(),
                    r@ == esc(cs@.subrange(0, i as int)) + hex_escaped(bytes@.subrange(0, j as int)),
                decreases bytes@.len() - j,
            {
                let b = bytes[j];
                proof {
                    assert(bytes@.subrange(0, j + 1) =~= bytes@.subrange(0, j as int).push(
                        bytes@[j as int],
                    ));
                    lemma_hex_escaped_push(bytes@.subrange(0, j as int), bytes@[j as int]);
                }
                push_char(&mut r, '\\');
                push_char(&mut r, hex_char_of((b / 16) as u64));
                push_char(&mut r, hex_char_of((b % 16) as u64));
                j = j + 1;
            }
            proof {
                assert(bytes@.subrange(0, bytes@.len() as int) =~= bytes@);
                assert(r@ =~= esc(cs@.subrange(0, i as int)) + esc_char(c));
            }
        }
        i = i + 1;
    }
    proof {
        assert(cs@.subrange(0, cs@.len() as int) =~= cs@);
    }
    r
}

proof fn lemma_hex_escaped_push(bs: Seq<u8>, b: u8)
    ensures
        hex_escaped(bs.push(b)) == hex_escaped(bs) + seq![
            '\\',
            hex_char(b as int / 16),
            hex_char(b as int % 16),
        ],
    decreases bs,
{
    let h = seq!['\\', hex_char(b as int / 16), hex_char(b as int % 16)];
    if bs.len() == 0 {
        let p = bs.push(b);
        assert(p.drop_first() =~= Seq::<u8>::empty());
        assert(p[0] == b);
        assert(hex_escaped(p.drop_first()) == Seq::<char>::empty());
        assert(hex_escaped(p) == h + Seq::<char>::empty());
        assert(h + Seq::<char>::empty() =~= h);
        assert(hex_escaped(bs) == Seq::<char>::empty());
        assert(hex_escaped(bs) + h =~= h);
    } else {
        let p = bs.push(b);
        let h0 = seq!['\\', hex_char(bs[0] as int / 16), hex_char(bs[0] as int % 16)];
        assert(p.drop_first() =~= bs.drop_first().push(b));
        assert(p[0] == bs[0]);
        lemma_hex_escaped_push(bs.drop_first(), b);
        assert(hex_escaped(p) == h0 + (hex_escaped(bs.drop_first()) + h));
        assert(h0 + (hex_escaped(bs.drop_first()) + h) =~= (h0 + hex_escaped(bs.drop_first()))
            + h);
    }
}

/// Map a word name to its emitted function name, as `mangled` describes.
pub fn map_operator_to_function(name: &str) -> (r: String)
    ensures
        r@ == mangled(name@),
{
    if str_eq(name, "+") {
        return String::from_str("add");
    }
    if str_eq(name, "-") {
        return String::from_str("subtract");
    }
    if str_eq(name, "*") {
        return String::from_str("multiply");
    }
    if str_eq(name, "/") {
        return String::from_str("divide");
    }
    if str_eq(name, "<") {
        return String::from_str("lt");
    }
    if str_eq(name, ">") {
        return String::from_str("gt");
    }
    if str_eq(name, "<=") {
        return String::from_str("le");
    }
    if str_eq(name, ">=") {
        return String::from_str("ge");
    }
    if str_eq(name, "=") {
        return String::from_str("eq");
    }
    if str_eq(name, "!=") {
        return String::from_str("ne");
    }
    if str_eq(name, "exit") {
        return String::from_str("exit_op");
    }
    let cs = chars_of(name);
    let mut r = String::new();
    let mut i: usize = 0;
    while i < cs.len()
        invariant
            i <= cs@.len(),
            cs@ == name@,
            r@ == cs@.subrange(0, i as int).map_values(
                |c: char|
                    if c == '-' {
                        '_'
                    } else {
                        c
                    },
            ),
        decreases cs@.len() - i,
    {
        let c = cs[i];
        proof {
            assert(cs@.subrange(0, i + 1).map_values(
                |c2: char|
                    if c2 == '-' {
                        '_'
                    } else {
                        c2
                    },
            ) =~= cs@.subrange(0, i as int).map_values(
                |c2: char|
                    if c2 == '-' {
                        '_'
                    } else {
                        c2
                    },
            ).push(
                if c == '-' {
                    '_'
                } else {
                    c
                },
            ));
        }
        if c == '-' {
            push_char(&mut r, '_');
        } else {
            push_char(&mut r, c);
        }
        i = i + 1;
    }
    proof {
        assert(cs@.subrange(0, cs@.len() as int) =~= cs@);
    }
    r
}

/// Whether a word is a runtime built-in, as `builtin_name` describes.
pub fn is_runtime_builtin(name: &str) -> (r: bool)
    ensures
        r == builtin_name(name@),
{
    str_eq(name, "dup") || str_eq(name, "drop") || str_eq(name, "swap") || str_eq(name, "over")
        || str_eq(name, "rot") || str_eq(name, "nip") || str_eq(name, "tuck") || str_eq(
        name,
        "pick",
    ) || str_eq(name, "dip") || str_eq(name, "+") || str_eq(name, "-") || str_eq(name, "*")
        || str_eq(name, "/") || str_eq(name, "<") || str_eq(name, ">") || str_eq(name, "<=")
        || str_eq(name, ">=") || str_eq(name, "=") || str_eq(name, "!=") || str_eq(
        name,
        "string-length",
    ) || str_eq(name, "string-concat") || str_eq(name, "string-equal") || str_eq(
        name,
        "string_length",
    ) || str_eq(name, "string_concat") || str_eq(name, "string_equal") || str_eq(
        name,
        "int-to-string",
    ) || str_eq(name, "bool-to-string") || str_eq(name, "int_to_string") || str_eq(
        name,
        "bool_to_string",
    ) || str_eq(name, "write-line") || str_eq(name, "read-line") || str_eq(name, "write_line")
        || str_eq(name, "read_line")
}

/// Whether an expression ends every path with a guaranteed tail call when
/// it stands in tail position: a call of a user-defined word does, and a
/// match or `if` does when every branch ends with one.
pub open spec fn spec_paths_ret(tags: Map<Seq<char>, u32>, e: ExprV) -> bool
    decreases e, 0int,
{
    match e {
        ExprV::WordCall(n, _) => !tags.contains_key(n) && !builtin_name(n),
        ExprV::Match { branches, .. } => spec_branches_ret(tags, branches),
        ExprV::If { then_branch, else_branch, .. } => spec_quots_ret(tags, then_branch)
            && spec_quots_ret(tags, else_branch),
        _ => false,
    }
}

/// Whether every branch body ends with a tail-call expression.
pub open spec fn spec_branches_ret(tags: Map<Seq<char>, u32>, bs: Seq<BranchV>) -> bool
    decreases bs, 2int,
{
    if bs.len() == 0 {
        true
    } else {
        spec_branch_ret(tags, bs[0]) && spec_branches_ret(tags, bs.drop_first())
    }
}

/// Whether one branch body ends with a tail-call expression.
pub open spec fn spec_branch_ret(tags: Map<Seq<char>, u32>, b: BranchV) -> bool
    decreases b, 1int,
{
    spec_body_ret(tags, b.body)
}

/// Whether a nonempty body ends with a tail-call expression.
pub open spec fn spec_body_ret(tags: Map<Seq<char>, u32>, body: Seq<ExprV>) -> bool
    decreases body, 0int,
{
    body.len() > 0 && spec_paths_ret(tags, body.last())
}

/// Whether an `if` branch, held as a one-element quotation sequence, ends
/// with a tail-call expression.
pub open spec fn spec_quots_ret(tags: Map<Seq<char>, u32>, q: Seq<ExprV>) -> bool
    decreases q, 3int,
{
    q.len() == 1 && spec_quot_one_ret(tags, q[0])
}

/// Whether a quotation expression's body ends with a tail-call
/// expression.
pub open spec fn spec_quot_one_ret(tags: Map<Seq<char>, u32>, q: ExprV) -> bool
    decreases q, 2int,
{
    match q {
        ExprV::Quotation(es, _) => spec_body_ret(tags, es),
        _ => false,
    }
}

/// Whether the last expression of a terminal match or `if` has already
/// emitted its returns: a bare user-word call has not (its caller emits
/// the `ret`), while a match or `if` whose branches all end in tail calls
/// has.
pub open spec fn spec_already_ret(tags: Map<Seq<char>, u32>, e: ExprV) -> bool
    decreases e, 1int,
{
    match e {
        ExprV::Match { branches, .. } => spec_branches_ret(tags, branches),
        ExprV::If { then_branch, else_branch, .. } => spec_quots_ret(tags, then_branch)
            && spec_quots_ret(tags, else_branch),
        _ => false,
    }
}

/// The map denoted by an association list of variant tags.
pub open spec fn tags_map(s: Seq<(String, u32)>) -> Map<Seq<char>, u32>
    decreases s,
{
    if s.len() == 0 {
        Map::empty()
    } else {
        tags_map(s.drop_last()).insert(s.last().0@, s.last().1)
    }
}

/// The map denoted by an association list of field counts.
pub open spec fn counts_map(s: Seq<(String, usize)>) -> Map<Seq<char>, usize>
    decreases s,
{
    if s.len() == 0 {
        Map::empty()
    } else {
        counts_map(s.drop_last()).insert(s.last().0@, s.last().1)
    }
}

/// The text of the runtime declarations block.
pub open spec fn runtime_decls_text() -> Seq<char> {
    "; Runtime function declarations\ndeclare ptr @dup(ptr)\ndeclare ptr @drop(ptr)\ndeclare ptr @swap(ptr)\ndeclare ptr @over(ptr)\ndeclare ptr @rot(ptr)\ndeclare ptr @nip(ptr)\ndeclare ptr @tuck(ptr)\ndeclare ptr @pick(ptr)\ndeclare ptr @dip(ptr)\ndeclare ptr @add(ptr)\ndeclare ptr @subtract(ptr)\ndeclare ptr @multiply(ptr)\ndeclare ptr @divide(ptr)\ndeclare ptr @lt(ptr)\ndeclare ptr @gt(ptr)\ndeclare ptr @le(ptr)\ndeclare ptr @ge(ptr)\ndeclare ptr @eq(ptr)\ndeclare ptr @ne(ptr)\ndeclare ptr @push_int(ptr, i64)\ndeclare ptr @push_bool(ptr, i1)\ndeclare ptr @push_string(ptr, ptr)\ndeclare ptr @push_quotation(ptr, ptr)\ndeclare ptr @push_variant(ptr, i32, ptr)\ndeclare ptr @call_quotation(ptr)\ndeclare ptr @string_length(ptr)\ndeclare ptr @string_concat(ptr)\ndeclare ptr @string_equal(ptr)\ndeclare ptr @int_to_string(ptr)\ndeclare ptr @bool_to_string(ptr)\ndeclare void @exit_op(ptr)\ndeclare ptr @test_yield(ptr)\ndeclare ptr @write_line(ptr)\ndeclare ptr @read_line(ptr)\ndeclare void @scheduler_init()\ndeclare ptr @scheduler_run()\ndeclare void @scheduler_shutdown()\ndeclare i64 @strand_spawn(ptr, ptr)\ndeclare void @print_stack(ptr)\ndeclare void @free_stack(ptr)\ndeclare void @runtime_error(ptr)\ndeclare ptr @alloc_cell()\ndeclare ptr @copy_cell(ptr)\ndeclare void @llvm.memcpy.p0.p0.i64(ptr noalias nocapture writeonly, ptr noalias nocapture readonly, i64, i1 immarg)\n\n"@
}

/// The text of the emitted entry function: the scheduler is initialised,
/// the entry word is spawned as a strand with an empty stack, the
/// scheduler runs and shuts down, and the final stack is freed.
pub open spec fn main_fn_text(fname: Seq<char>) -> Seq<char> {
    "; Main function\ndefine i32 @main() {\nentry:\n  call void @scheduler_init()\n  call i64 @strand_spawn(ptr @"@
        + fname
        + ", ptr null)\n  %stack = call ptr @scheduler_run()\n  call void @scheduler_shutdown()\n  call void @free_stack(ptr %stack)\n  ret i32 0\n}\n\n"@
}

/// The name a word definition is emitted under: the Cem word `main`
/// becomes `cem_main`, every other name is mangled.
pub open spec fn emitted_fn_name(n: Seq<char>) -> Seq<char> {
    if n == "main"@ {
        "cem_main"@
    } else {
        mangled(n)
    }
}

/// Pairwise distinct keys of an interning table.
pub open spec fn keys_distinct(s: Seq<(String, String)>) -> bool {
    forall|i: int, j: int|
        0 <= i < j < s.len() ==> (#[trigger] s[i]).0@ != (#[trigger] s[j]).0@
}

/// Law: an interning table with distinct keys holds each string literal
/// at most once, so every distinct literal appears at most once as a
/// global constant.
pub proof fn lemma_one_entry_per_literal(
    entries: Seq<(String, String)>,
    key: Seq<char>,
    i: int,
    j: int,
)
    requires
        keys_distinct(entries),
        0 <= i < entries.len(),
        0 <= j < entries.len(),
        i != j,
        entries[i].0@ == key,
    ensures
        entries[j].0@ != key,
{
}

/// The code generator: output buffers, interning tables, counters, and
/// the variant layout of the program being compiled.
pub struct CodeGen {
    output: String,
    string_globals: String,
    quotation_functions: String,
    temp_counter: u64,
    string_counter: u64,
    current_block: String,
    metadata_counter: u64,
    file_metadata: Vec<(String, u64)>,
    compile_unit_id: Option<u64>,
    word_subprograms: Vec<(String, u64, u64, u64)>,
    current_subprogram_id: Option<u64>,
    debug_locations: Vec<((u64, u64, u64, u64), u64)>,
    string_constants: Vec<(String, String)>,
    variant_tags: Vec<(String, u32)>,
    variant_field_counts: Vec<(String, usize)>,
}

impl CodeGen {
    /// Each distinct string literal is interned at most once.
    pub closed spec fn wf(&self) -> bool {
        keys_distinct(self.string_constants@)
    }

    /// The emitted main text so far.
    pub closed spec fn out(&self) -> Seq<char> {
        self.output@
    }

    /// The emitted string globals so far.
    pub closed spec fn globals(&self) -> Seq<char> {
        self.string_globals@
    }

    /// The emitted quotation functions so far.
    pub closed spec fn quots(&self) -> Seq<char> {
        self.quotation_functions@
    }

    /// The variant-name-to-tag map built from the type definitions.
    pub closed spec fn tags(&self) -> Map<Seq<char>, u32> {
        tags_map(self.variant_tags@)
    }

    /// A fresh code generator with empty buffers.
    pub fn new() -> (r: CodeGen)
        ensures
            r.wf(),
            r.out() == Seq::<char>::empty(),
            r.globals() == Seq::<char>::empty(),
            r.quots() == Seq::<char>::empty(),
    {
        CodeGen {
            output: String::new(),
            string_globals: String::new(),
            quotation_functions: String::new(),
            temp_counter: 0,
            string_counter: 0,
            current_block: String::from_str("entry"),
            metadata_counter: 0,
            file_metadata: Vec::new(),
            compile_unit_id: None,
            word_subprograms: Vec::new(),
            current_subprogram_id: None,
            debug_locations: Vec::new(),
            string_constants: Vec::new(),
            variant_tags: Vec::new(),
            variant_field_counts: Vec::new(),
        }
    }

    /// A fresh temporary name: the counter, rendered in decimal.
    fn fresh_temp(&mut self) -> (r: String)
        requires
            old(self).wf(),
        ensures
            final(self).wf(),
            r@ == dec_u64(old(self).temp_counter as nat),
            buffers_unchanged(old(self), final(self)),
    {
        let name = u64_to_dec(self.temp_counter);
        if self.temp_counter < u64::MAX {
            self.temp_counter = self.temp_counter + 1;
        }
        name
    }

    /// A fresh metadata id.
    fn fresh_metadata_id(&mut self) -> (r: u64)
        requires
            old(self).wf(),
        ensures
            final(self).wf(),
            buffers_unchanged(old(self), final(self)),
    {
        let id = self.metadata_counter;
        if self.metadata_counter < u64::MAX {
            self.metadata_counter = self.metadata_counter + 1;
        }
        id
    }

    /// The interned global for a string literal: the existing global when
    /// the same content was seen before, else a fresh `@.str.N` global
    /// whose definition is appended once. Each distinct literal therefore
    /// has at most one global constant.
    fn intern_string(&mut self, s: &str) -> (r: String)
        requires
            old(self).wf(),
        ensures
            final(self).wf(),
            final(self).out() == old(self).out(),
            final(self).quots() == old(self).quots(),
            final(self).tags() == old(self).tags(),
            text_extends(old(self).globals(), final(self).globals()),
            contains_key_str(old(self).string_constants@, s@) ==> final(self).globals() == old(
                self,
            ).globals(),
    {
        let existing = lookup_str(&self.string_constants, s);
        match existing {
            Some(g) => g,
            None => {
                let mut str_global = String::from_str("@.str.");
                push_dec_u64(&mut str_global, self.string_counter);
                if self.string_counter < u64::MAX {
                    self.string_counter = self.string_counter + 1;
                }

                let escaped = escape_llvm_string(s);
                let byte_len = byte_len_sat(s);
                let str_len = if byte_len < usize::MAX {
                    byte_len + 1
                } else {
                    byte_len
                };

                let ghost g0 = self.string_globals@;
                self.string_globals.append(str_global.as_str());
                self.string_globals.append(" = private unnamed_addr constant [");
                let len_s = u64_to_dec(str_len as u64);
                self.string_globals.append(len_s.as_str());
                self.string_globals.append(" x i8] c\"");
                self.string_globals.append(escaped.as_str());
                self.string_globals.append("\\00\"\n");
                proof {
                    lemma_extends_concat(
                        g0,
                        self.string_globals@.subrange(g0.len() as int, self.string_globals@.len() as int),
                    );
                    assert(g0 + self.string_globals@.subrange(
                        g0.len() as int,
                        self.string_globals@.len() as int,
                    ) =~= self.string_globals@);
                }

                let ghost before = self.string_constants@;
                self.string_constants.push((clone_string_from(s), clone_string(&str_global)));
                proof {
                    assert(forall|j: int|
                        0 <= j < before.len() ==> (#[trigger] before[j]).0@ != s@);
                    assert(self.string_constants@.drop_last() =~= before);
                    assert(keys_distinct(self.string_constants@));
                }
                str_global
            },
        }
    }

    /// A `!dbg` annotation for a location inside the current function, or
    /// nothing outside one.
    fn dbg_annotation(&mut self, loc: &SourceLoc) -> (r: String)
        requires
            old(self).wf(),
        ensures
            final(self).wf(),
            buffers_unchanged(old(self), final(self)),
    {
        let sub = match self.current_subprogram_id {
            Some(id) => id,
            None => {
                return String::new();
            },
        };
        let file_id = match lookup_u64(&self.file_metadata, arc_get(&loc.file).as_str()) {
            Some(id) => id,
            None => {
                return String::new();
            },
        };
        let key = (file_id, loc.line as u64, loc.column as u64, sub);
        let loc_id = match lookup_loc(&self.debug_locations, key) {
            Some(id) => id,
            None => {
                let id = self.fresh_metadata_id();
                self.debug_locations.push((key, id));
                id
            },
        };
        let mut r = String::from_str(", !dbg !");
        push_dec_u64(&mut r, loc_id);
        r
    }

    /// Register a word for debug metadata emission.
    fn register_word_subprogram(&mut self, word: &WordDef) -> (r: u64)
        requires
            old(self).wf(),
        ensures
            final(self).wf(),
            buffers_unchanged(old(self), final(self)),
    {
        let subprogram_id = self.fresh_metadata_id();
        let file_id = match lookup_u64(&self.file_metadata, arc_get(&word.loc.file).as_str()) {
            Some(id) => id,
            None => 0,
        };
        self.word_subprograms.push(
            (clone_string(&word.name), file_id, word.loc.line as u64, subprogram_id),
        );
        subprogram_id
    }

    /// Append a line of text to the main output.
    fn out_line(&mut self, s: &str)
        requires
            old(self).wf(),
        ensures
            final(self).wf(),
            final(self).out() == old(self).out() + s@ + "\n"@,
            final(self).globals() == old(self).globals(),
            final(self).quots() == old(self).quots(),
            same_tables(old(self), final(self)),
    {
        self.output.append(s);
        self.output.append("\n");
    }

    /// Append text to the main output without a newline.
    fn out_text(&mut self, s: &str)
        requires
            old(self).wf(),
        ensures
            final(self).wf(),
            final(self).out() == old(self).out() + s@,
            final(self).globals() == old(self).globals(),
            final(self).quots() == old(self).quots(),
            same_tables(old(self), final(self)),
    {
        self.output.append(s);
    }

    /// Declare every runtime function the emitter may call; the emitted
    /// text is exactly `runtime_decls_text`.
    fn emit_runtime_declarations(&mut self)
        requires
            old(self).wf(),
        ensures
            final(self).wf(),
            final(self).out() == old(self).out() + runtime_decls_text(),
            text_extends(old(self).out(), final(self).out()),
            final(self).globals() == old(self).globals(),
            final(self).quots() == old(self).quots(),
            same_tables(old(self), final(self)),
    {
        self.out_text(
            "; Runtime function declarations\ndeclare ptr @dup(ptr)\ndeclare ptr @drop(ptr)\ndeclare ptr @swap(ptr)\ndeclare ptr @over(ptr)\ndeclare ptr @rot(ptr)\ndeclare ptr @nip(ptr)\ndeclare ptr @tuck(ptr)\ndeclare ptr @pick(ptr)\ndeclare ptr @dip(ptr)\ndeclare ptr @add(ptr)\ndeclare ptr @subtract(ptr)\ndeclare ptr @multiply(ptr)\ndeclare ptr @divide(ptr)\ndeclare ptr @lt(ptr)\ndeclare ptr @gt(ptr)\ndeclare ptr @le(ptr)\ndeclare ptr @ge(ptr)\ndeclare ptr @eq(ptr)\ndeclare ptr @ne(ptr)\ndeclare ptr @push_int(ptr, i64)\ndeclare ptr @push_bool(ptr, i1)\ndeclare ptr @push_string(ptr, ptr)\ndeclare ptr @push_quotation(ptr, ptr)\ndeclare ptr @push_variant(ptr, i32, ptr)\ndeclare ptr @call_quotation(ptr)\ndeclare ptr @string_length(ptr)\ndeclare ptr @string_concat(ptr)\ndeclare ptr @string_equal(ptr)\ndeclare ptr @int_to_string(ptr)\ndeclare ptr @bool_to_string(ptr)\ndeclare void @exit_op(ptr)\ndeclare ptr @test_yield(ptr)\ndeclare ptr @write_line(ptr)\ndeclare ptr @read_line(ptr)\ndeclare void @scheduler_init()\ndeclare ptr @scheduler_run()\ndeclare void @scheduler_shutdown()\ndeclare i64 @strand_spawn(ptr, ptr)\ndeclare void @print_stack(ptr)\ndeclare void @free_stack(ptr)\ndeclare void @runtime_error(ptr)\ndeclare ptr @alloc_cell()\ndeclare ptr @copy_cell(ptr)\ndeclare void @llvm.memcpy.p0.p0.i64(ptr noalias nocapture writeonly, ptr noalias nocapture readonly, i64, i1 immarg)\n\n",
        );
    }

    /// Emit the `main` entry: initialise the scheduler, spawn the entry
    /// word as a strand with an empty stack, run, shut down, free; the
    /// emitted text is exactly `main_fn_text` of the entry's emitted name
    /// (`cem_main` for the Cem word `main`).
    fn emit_main_function(&mut self, entry_word: &str)
        requires
            old(self).wf(),
        ensures
            final(self).wf(),
            final(self).out() == old(self).out() + main_fn_text(
                if entry_word@ == "main"@ {
                    "cem_main"@
                } else {
                    entry_word@
                },
            ),
            text_extends(old(self).out(), final(self).out()),
            final(self).globals() == old(self).globals(),
            final(self).quots() == old(self).quots(),
            same_tables(old(self), final(self)),
    {
        let ghost o0 = self.output@;
        let function_name = if str_eq(entry_word, "main") {
            String::from_str("cem_main")
        } else {
            clone_string_from(entry_word)
        };
        self.out_text(
            "; Main function\ndefine i32 @main() {\nentry:\n  call void @scheduler_init()\n  call i64 @strand_spawn(ptr @",
        );
        self.out_text(function_name.as_str());
        self.out_text(
            ", ptr null)\n  %stack = call ptr @scheduler_run()\n  call void @scheduler_shutdown()\n  call void @free_stack(ptr %stack)\n  ret i32 0\n}\n\n",
        );
        proof {
            assert(self.output@ =~= o0 + main_fn_text(function_name@));
            assert(self.output@.subrange(0, o0.len() as int) =~= o0);
        }
    }

    /// Emit one `DIFile` per unique source file of the program.
    fn emit_debug_info_header(&mut self, program: &Program)
        requires
            old(self).wf(),
        ensures
            final(self).wf(),
            text_extends(old(self).out(), final(self).out()),
            final(self).globals() == old(self).globals(),
            final(self).quots() == old(self).quots(),
            final(self).tags() == old(self).tags(),
    {
        let ghost o0 = self.output@;
        self.out_line("; Debug Information");
        self.out_line("");
        let mut i: usize = 0;
        while i < program.word_defs.len()
            invariant
                self.wf(),
                text_extends(o0, self.output@),
                self.string_globals@ == old(self).string_globals@,
                self.quotation_functions@ == old(self).quotation_functions@,
                self.tags() == old(self).tags(),
            decreases program.word_defs@.len() - i,
        {
            let fname = arc_get(&program.word_defs[i].loc.file);
            let seen = lookup_u64(&self.file_metadata, fname.as_str());
            match seen {
                Some(_) => {},
                None => {
                    let ghost so_far = self.output@;
                    let metadata_id = self.fresh_metadata_id();
                    self.file_metadata.push((clone_string(fname), metadata_id));
                    // Split the filename into directory and basename at
                    // the last slash.
                    let cs = chars_of(fname.as_str());
                    let mut cut: usize = 0;
                    let mut has_slash = false;
                    let mut j: usize = 0;
                    while j < cs.len()
                        invariant
                            j <= cs@.len(),
                            cut <= j,
                        decreases cs@.len() - j,
                    {
                        if cs[j] == '/' {
                            cut = j;
                            has_slash = true;
                        }
                        j = j + 1;
                    }
                    let mut directory = String::new();
                    let mut basename = String::new();
                    let mut k: usize = 0;
                    while k < cs.len()
                        invariant
                            k <= cs@.len(),
                            cut <= cs@.len(),
                        decreases cs@.len() - k,
                    {
                        let c = cs[k];
                        let escaped_ok = c != '\\' && c != '"';
                        if has_slash && k < cut {
                            if escaped_ok {
                                push_char(&mut directory, c);
                            }
                        } else if !has_slash || k > cut {
                            if escaped_ok {
                                push_char(&mut basename, c);
                            }
                        }
                        k = k + 1;
                    }
                    if !has_slash {
                        directory = String::from_str(".");
                    }
                    self.out_text("!");
                    let ids = u64_to_dec(metadata_id);
                    self.out_text(ids.as_str());
                    self.out_text(" = !DIFile(filename: \"");
                    self.out_text(basename.as_str());
                    self.out_text("\", directory: \"");
                    self.out_text(directory.as_str());
                    self.out_line("\")");
                    proof {
                        lemma_extends_concat(
                            so_far,
                            self.output@.subrange(so_far.len() as int, self.output@.len() as int),
                        );
                        assert(so_far + self.output@.subrange(
                            so_far.len() as int,
                            self.output@.len() as int,
                        ) =~= self.output@);
                        lemma_extends_trans(o0, so_far, self.output@);
                    }
                },
            }
            i = i + 1;
        }
        self.out_line("");
        proof {
            lemma_extends_concat(o0, self.output@.subrange(o0.len() as int, self.output@.len() as int));
            assert(o0 + self.output@.subrange(o0.len() as int, self.output@.len() as int)
                =~= self.output@);
        }
    }

    /// Emit the compile unit, the per-word subprograms, the recorded
    /// locations, and the module flags. The output ends with the
    /// `llvm.dbg.cu` and `llvm.module.flags` named metadata and the debug
    /// info version triple.
    #[verifier::rlimit(100)]
    fn emit_debug_info_footer(&mut self)
        requires
            old(self).wf(),
        ensures
            final(self).wf(),
            text_extends(old(self).out(), final(self).out()),
            final(self).globals() == old(self).globals(),
            final(self).quots() == old(self).quots(),
            final(self).tags() == old(self).tags(),
            exists|a: Seq<char>, cu: Seq<char>, f: Seq<char>|
                final(self).out() == a + (""@ + "\n"@ + "!llvm.dbg.cu = !{!"@ + cu + "}"@
                    + "\n"@ + "!llvm.module.flags = !{!"@ + f + "}"@ + "\n"@ + "!"@ + f
                    + " = !{i32 2, !\"Debug Info Version\", i32 3}"@ + "\n"@ + ""@ + "\n"@),
    {
        let ghost o0 = self.output@;
        self.out_line("; Debug Info Compile Unit");
        let cu_id = self.fresh_metadata_id();
        self.compile_unit_id = Some(cu_id);

        // The compile unit points at the first recorded file; an empty
        // program gets a placeholder.
        let main_file_id: u64 = if self.file_metadata.len() > 0 {
            let mut min_id = self.file_metadata[0].1;
            let mut i: usize = 1;
            while i < self.file_metadata.len()
                invariant
                    i <= self.file_metadata@.len(),
                decreases self.file_metadata@.len() - i,
            {
                if self.file_metadata[i].1 < min_id {
                    min_id = self.file_metadata[i].1;
                }
                i = i + 1;
            }
            min_id
        } else {
            let placeholder_id = self.fresh_metadata_id();
            self.out_text("!");
            let ids = u64_to_dec(placeholder_id);
            self.out_text(ids.as_str());
            self.out_line(" = !DIFile(filename: \"<empty>\", directory: \".\")");
            placeholder_id
        };

        self.out_text("!");
        let cus = u64_to_dec(cu_id);
        self.out_text(cus.as_str());
        self.out_text(
            " = distinct !DICompileUnit(language: DW_LANG_C, file: !",
        );
        let mfs = u64_to_dec(main_file_id);
        self.out_text(mfs.as_str());
        self.out_line(
            ", producer: \"Cem Compiler\", isOptimized: false, runtimeVersion: 0, emissionKind: FullDebug)",
        );

        self.out_line("");
        self.out_line("; DISubprogram metadata for each word");
        let mut subs: Vec<(String, u64, u64, u64)> = Vec::new();
        let mut si: usize = 0;
        while si < self.word_subprograms.len()
            invariant
                self.wf(),
                text_extends(o0, self.output@),
                self.string_globals@ == old(self).string_globals@,
                self.quotation_functions@ == old(self).quotation_functions@,
                self.tags() == old(self).tags(),
            decreases self.word_subprograms@.len() - si,
        {
            let e = &self.word_subprograms[si];
            subs.push((clone_string(&e.0), e.1, e.2, e.3));
            si = si + 1;
        }
        let mut type_ids: Vec<u64> = Vec::new();
        let mut i: usize = 0;
        let n_subs = subs.len();
        while i < n_subs
            invariant
                self.wf(),
                type_ids@.len() == i,
                text_extends(o0, self.output@),
                self.string_globals@ == old(self).string_globals@,
                self.quotation_functions@ == old(self).quotation_functions@,
                self.tags() == old(self).tags(),
            decreases n_subs - i,
        {
            let t = self.fresh_metadata_id();
            type_ids.push(t);
            i = i + 1;
        }

        let mut k: usize = 0;
        while k < subs.len() && k < type_ids.len()
            invariant
                self.wf(),
                text_extends(o0, self.output@),
                self.string_globals@ == old(self).string_globals@,
                self.quotation_functions@ == old(self).quotation_functions@,
                self.tags() == old(self).tags(),
            decreases subs@.len() - k,
        {
            let name = clone_string(&subs[k].0);
            let file_id = subs[k].1;
            let line = subs[k].2;
            let sub_id = subs[k].3;
            let ghost so_far = self.output@;
            self.out_text("!");
            let s1 = u64_to_dec(sub_id);
            self.out_text(s1.as_str());
            self.out_text(" = distinct !DISubprogram(name: \"");
            self.out_text(name.as_str());
            self.out_text("\", scope: !");
            let s2 = u64_to_dec(file_id);
            self.out_text(s2.as_str());
            self.out_text(", file: !");
            self.out_text(s2.as_str());
            self.out_text(", line: ");
            let s3 = u64_to_dec(line);
            self.out_text(s3.as_str());
            self.out_text(", type: !");
            let s4 = u64_to_dec(type_ids[k]);
            self.out_text(s4.as_str());
            self.out_text(", scopeLine: ");
            self.out_text(s3.as_str());
            self.out_text(", flags: DIFlagPrototyped, spFlags: DISPFlagDefinition, unit: !");
            self.out_text(cus.as_str());
            self.out_line(")");
            proof {
                lemma_extends_concat(
                    so_far,
                    self.output@.subrange(so_far.len() as int, self.output@.len() as int),
                );
                assert(so_far + self.output@.subrange(
                    so_far.len() as int,
                    self.output@.len() as int,
                ) =~= self.output@);
                lemma_extends_trans(o0, so_far, self.output@);
            }
            k = k + 1;
        }

        self.out_line("");
        self.out_line("; Type metadata (stubs)");
        let mut t: usize = 0;
        while t < type_ids.len()
            invariant
                self.wf(),
                text_extends(o0, self.output@),
                self.string_globals@ == old(self).string_globals@,
                self.quotation_functions@ == old(self).quotation_functions@,
                self.tags() == old(self).tags(),
            decreases type_ids@.len() - t,
        {
            let ghost so_far = self.output@;
            self.out_text("!");
            let ts = u64_to_dec(type_ids[t]);
            self.out_text(ts.as_str());
            self.out_line(" = !DISubroutineType(types: !{})");
            proof {
                lemma_extends_concat(
                    so_far,
                    self.output@.subrange(so_far.len() as int, self.output@.len() as int),
                );
                assert(so_far + self.output@.subrange(
                    so_far.len() as int,
                    self.output@.len() as int,
                ) =~= self.output@);
                lemma_extends_trans(o0, so_far, self.output@);
            }
            t = t + 1;
        }

        if self.debug_locations.len() > 0 {
            self.out_line("");
            self.out_line("; DILocation metadata");
            let mut locs: Vec<((u64, u64, u64, u64), u64)> = Vec::new();
            let mut li: usize = 0;
            while li < self.debug_locations.len()
                invariant
                    self.wf(),
                    text_extends(o0, self.output@),
                    self.string_globals@ == old(self).string_globals@,
                    self.quotation_functions@ == old(self).quotation_functions@,
                    self.tags() == old(self).tags(),
                decreases self.debug_locations@.len() - li,
            {
                locs.push(self.debug_locations[li]);
                li = li + 1;
            }
            let mut d: usize = 0;
            while d < locs.len()
                invariant
                    self.wf(),
                    text_extends(o0, self.output@),
                    self.string_globals@ == old(self).string_globals@,
                    self.quotation_functions@ == old(self).quotation_functions@,
                    self.tags() == old(self).tags(),
                decreases locs@.len() - d,
            {
                let key = locs[d].0;
                let loc_id = locs[d].1;
                let ghost so_far = self.output@;
                self.out_text("!");
                let s1 = u64_to_dec(loc_id);
                self.out_text(s1.as_str());
                self.out_text(" = !DILocation(line: ");
                let s2 = u64_to_dec(key.1);
                self.out_text(s2.as_str());
                self.out_text(", column: ");
                let s3 = u64_to_dec(key.2);
                self.out_text(s3.as_str());
                self.out_text(", scope: !");
                let s4 = u64_to_dec(key.3);
                self.out_text(s4.as_str());
                self.out_line(")");
                proof {
                    lemma_extends_concat(
                        so_far,
                        self.output@.subrange(so_far.len() as int, self.output@.len() as int),
                    );
                    assert(so_far + self.output@.subrange(
                        so_far.len() as int,
                        self.output@.len() as int,
                    ) =~= self.output@);
                    lemma_extends_trans(o0, so_far, self.output@);
                }
                d = d + 1;
            }
        }

        let ghost o_tail = self.output@;
        self.out_line("");
        self.out_text("!llvm.dbg.cu = !{!");
        self.out_text(cus.as_str());
        self.out_line("}");
        let flags_id = self.fresh_metadata_id();
        self.out_text("!llvm.module.flags = !{!");
        let fs = u64_to_dec(flags_id);
        self.out_text(fs.as_str());
        self.out_line("}");
        self.out_text("!");
        self.out_text(fs.as_str());
        self.out_line(" = !{i32 2, !\"Debug Info Version\", i32 3}");
        self.out_line("");
        proof {
            assert(self.output@ =~= o_tail + (""@ + "\n"@ + "!llvm.dbg.cu = !{!"@ + cus@ + "}"@
                + "\n"@ + "!llvm.module.flags = !{!"@ + fs@ + "}"@ + "\n"@ + "!"@ + fs@
                + " = !{i32 2, !\"Debug Info Version\", i32 3}"@ + "\n"@ + ""@ + "\n"@));
        }
    }
}

/// All three output buffers unchanged between two states.
pub open spec fn buffers_unchanged(a: &CodeGen, b: &CodeGen) -> bool {
    b.out() == a.out() && b.globals() == a.globals() && b.quots() == a.quots() && b.tags()
        == a.tags()
}

/// The layout tables unchanged between two states.
pub open spec fn same_tables(a: &CodeGen, b: &CodeGen) -> bool {
    b.tags() == a.tags()
}

/// When a known segment was appended right after the old output, the
/// final output is the old output, the segment, then a suffix.
proof fn lemma_prefix_split(old_out: Seq<char>, after: Seq<char>, now: Seq<char>, seg: Seq<char>)
    requires
        after == old_out + seg,
        text_extends(after, now),
    ensures
        exists|t: Seq<char>| now == old_out + seg + t,
{
    let t = now.subrange(after.len() as int, now.len() as int);
    assert(after + t =~= now);
    assert(now =~= old_out + seg + t);
}

/// The define-line prefix of a word's emission splits the final output.
proof fn lemma_prefix_split_out(old_out: Seq<char>, after: Seq<char>, now: Seq<char>)
    requires
        text_extends(after, now),
    ensures
        exists|t: Seq<char>| now == after + t,
{
    let t = now.subrange(after.len() as int, now.len() as int);
    assert(after + t =~= now);
}

/// When the default block sits between a prefix that extends the old
/// output and a suffix, the final output splits around it.
proof fn lemma_match_default_split(
    old_out: Seq<char>,
    before: Seq<char>,
    after: Seq<char>,
    now: Seq<char>,
    id: Seq<char>,
)
    requires
        text_extends(old_out, before),
        after == before + ("match_default_"@ + id + ":"@ + "\n"@
            + "  call void @runtime_error(ptr @.str.match_error)"@ + "\n"@ + "  unreachable"@
            + "\n"@),
        text_extends(after, now),
    ensures
        exists|pre: Seq<char>, id2: Seq<char>, post: Seq<char>|
            now == old_out + pre + ("match_default_"@ + id2 + ":"@ + "\n"@
                + "  call void @runtime_error(ptr @.str.match_error)"@ + "\n"@
                + "  unreachable"@ + "\n"@) + post,
{
    let d = "match_default_"@ + id + ":"@ + "\n"@
        + "  call void @runtime_error(ptr @.str.match_error)"@ + "\n"@ + "  unreachable"@
        + "\n"@;
    let pre = before.subrange(old_out.len() as int, before.len() as int);
    let post = now.subrange(after.len() as int, now.len() as int);
    assert(old_out + pre =~= before);
    assert(after + post =~= now);
    assert(now =~= old_out + pre + d + post);
}

/// A copy of a string slice.
fn clone_string_from(s: &str) -> (r: String)
    ensures
        r@ == s@,
{
    String::from_str(s)
}

/// The UTF-8 byte length of a string, clamped to the machine word.
fn byte_len_sat(s: &str) -> (r: usize)
    ensures
        r as int == crate::numtext::utf8_len_seq(s@) || r == usize::MAX,
{
    let cs = chars_of(s);
    let mut total: usize = 0;
    let mut i: usize = 0;
    while i < cs.len()
        invariant
            i <= cs@.len(),
            cs@ == s@,
            total as int == crate::numtext::utf8_len_seq(cs@.subrange(0, i as int)) || total
                == usize::MAX,
        decreases cs@.len() - i,
    {
        let l = crate::numtext::utf8_len_of(cs[i]) as usize;
        proof {
            assert(cs@.subrange(0, i + 1).drop_last() =~= cs@.subrange(0, i as int));
        }
        if total <= usize::MAX - l {
            total = total + l;
        } else {
            total = usize::MAX;
        }
        i = i + 1;
    }
    proof {
        assert(cs@.subrange(0, cs@.len() as int) =~= cs@);
    }
    total
}

/// The value under a string key, scanning the later entries first.
fn lookup_str(entries: &Vec<(String, String)>, key: &str) -> (r: Option<String>)
    ensures
        r is Some ==> contains_key_str(entries@, key@),
        r is None ==> !contains_key_str(entries@, key@),
{
    let mut i: usize = entries.len();
    while i > 0
        invariant
            i <= entries@.len(),
            forall|j: int| i <= j < entries@.len() ==> (#[trigger] entries@[j]).0@ != key@,
        decreases i,
    {
        i = i - 1;
        if str_eq(entries[i].0.as_str(), key) {
            return Some(clone_string(&entries[i].1));
        }
    }
    None
}

/// Whether an association list holds the key.
pub open spec fn contains_key_str(entries: Seq<(String, String)>, key: Seq<char>) -> bool {
    exists|j: int| 0 <= j < entries.len() && (#[trigger] entries[j]).0@ == key
}

/// The value under a string key in a u64 table, scanning the later
/// entries first.
fn lookup_u64(entries: &Vec<(String, u64)>, key: &str) -> (r: Option<u64>)
{
    let mut i: usize = entries.len();
    while i > 0
        invariant
            i <= entries@.len(),
        decreases i,
    {
        i = i - 1;
        if str_eq(entries[i].0.as_str(), key) {
            return Some(entries[i].1);
        }
    }
    None
}

/// The value under a location key, scanning the later entries first.
fn lookup_loc(entries: &Vec<((u64, u64, u64, u64), u64)>, key: (u64, u64, u64, u64)) -> (r: Option<
    u64,
>) {
    let mut i: usize = entries.len();
    while i > 0
        invariant
            i <= entries@.len(),
        decreases i,
    {
        i = i - 1;
        let k = entries[i].0;
        if k.0 == key.0 && k.1 == key.1 && k.2 == key.2 && k.3 == key.3 {
            return Some(entries[i].1);
        }
    }
    None
}

/// The tag of a variant name, scanning the later entries first.
fn lookup_tag(entries: &Vec<(String, u32)>, key: &str) -> (r: Option<u32>)
    ensures
        r is Some <==> tags_map(entries@).contains_key(key@),
        r matches Some(t) ==> t == tags_map(entries@)[key@],
{
    let ghost full = entries@;
    let mut i: usize = entries.len();
    proof {
        assert(full.subrange(0, full.len() as int) =~= full);
    }
    while i > 0
        invariant
            i <= entries@.len(),
            full == entries@,
            tags_map(full).contains_key(key@) == tags_map(
                full.subrange(0, i as int),
            ).contains_key(key@),
            tags_map(full).contains_key(key@) ==> tags_map(full)[key@] == tags_map(
                full.subrange(0, i as int),
            )[key@],
        decreases i,
    {
        i = i - 1;
        proof {
            assert(full.subrange(0, i + 1).drop_last() =~= full.subrange(0, i as int));
            assert(full.subrange(0, i + 1).last() == full[i as int]);
        }
        if str_eq(entries[i].0.as_str(), key) {
            return Some(entries[i].1);
        }
    }
    proof {
        assert(full.subrange(0, 0) =~= Seq::<(String, u32)>::empty());
    }
    None
}

/// The field count of a variant name, scanning the later entries first.
fn lookup_count(entries: &Vec<(String, usize)>, key: &str) -> (r: Option<usize>)
{
    let mut i: usize = entries.len();
    while i > 0
        invariant
            i <= entries@.len(),
        decreases i,
    {
        i = i - 1;
        if str_eq(entries[i].0.as_str(), key) {
            return Some(entries[i].1);
        }
    }
    None
}

} // verus!

verus! {

/// Errors from code generation.
#[derive(Debug, Clone, PartialEq)]
pub enum CodegenError {
    /// A language feature the emitter does not handle.
    Unimplemented { feature: String },
    /// An internal invariant of the emitter was broken.
    InternalError(String),
    /// The downstream toolchain failed.
    LinkerError { message: String },
}

/// The result type of code generation.
pub type CodegenResult<T> = Result<T, CodegenError>;

/// Whether a path component sequence is the parent marker.
pub open spec fn is_dotdot(s: Seq<char>) -> bool {
    s == ".."@
}

/// Whether some slash-separated component of `p`, from `i` with the
/// current component starting at `cstart`, is `..`.
pub open spec fn bad_component(p: Seq<char>, i: int, cstart: int) -> bool
    decreases p.len() - i,
{
    if i < 0 || i >= p.len() {
        is_dotdot(p.subrange(cstart, i))
    } else if p[i] == '/' {
        is_dotdot(p.subrange(cstart, i)) || bad_component(p, i + 1, i + 1)
    } else {
        bad_component(p, i + 1, cstart)
    }
}

/// A path the emitter's write and link helpers accept: it does not start
/// with `-` (it would be misread as a flag) and holds no `..` component.
pub open spec fn path_ok(p: Seq<char>) -> bool {
    &&& !(p.len() > 0 && p[0] == '-')
    &&& !bad_component(p, 0, 0)
}

/// Check a file path for the emitter's write and link helpers, as
/// `path_ok` describes: a leading `-` or a `..` component is rejected.
pub fn validate_path(path: &str) -> (r: CodegenResult<()>)
    ensures
        r is Ok <==> path_ok(path@),
{
    let cs = chars_of(path);
    if cs.len() > 0 && cs[0] == '-' {
        let mut message = String::from_str("Invalid path '");
        message.append(path);
        message.append("': cannot start with '-'");
        return Err(CodegenError::LinkerError { message });
    }
    let ghost p = cs@;
    let mut i: usize = 0;
    let mut cstart: usize = 0;
    while i < cs.len()
        invariant
            cstart <= i <= cs@.len(),
            p == cs@,
            cs@ == path@,
            bad_component(p, 0, 0) == bad_component(p, i as int, cstart as int),
        decreases cs@.len() - i,
    {
        if cs[i] == '/' {
            let isdd = i - cstart == 2 && cs[cstart] == '.' && cs[cstart + 1] == '.';
            proof {
                reveal_strlit("..");
                assert(".."@.len() == 2 && ".."@[0] == '.' && ".."@[1] == '.');
                let sub = p.subrange(cstart as int, i as int);
                if isdd {
                    assert(sub =~= ".."@);
                } else {
                    if i - cstart == 2 {
                        assert(sub[0] == p[cstart as int] && sub[1] == p[cstart as int + 1]);
                    }
                    assert(sub != ".."@);
                }
            }
            if isdd {
                let mut message = String::from_str("Invalid path '");
                message.append(path);
                message.append("': cannot contain '..'");
                return Err(CodegenError::LinkerError { message });
            }
            cstart = i + 1;
        }
        i = i + 1;
    }
    let isdd = i - cstart == 2 && cs[cstart] == '.' && cs[cstart + 1] == '.';
    proof {
        reveal_strlit("..");
        assert(".."@.len() == 2 && ".."@[0] == '.' && ".."@[1] == '.');
        let sub = p.subrange(cstart as int, i as int);
        if isdd {
            assert(sub =~= ".."@);
        } else {
            if i - cstart == 2 {
                assert(sub[0] == p[cstart as int] && sub[1] == p[cstart as int + 1]);
            }
            assert(sub != ".."@);
        }
    }
    if isdd {
        let mut message = String::from_str("Invalid path '");
        message.append(path);
        message.append("': cannot contain '..'");
        return Err(CodegenError::LinkerError { message });
    }
    Ok(())
}

impl CodeGen {
    /// Whether the expression, in tail position, ends every path with a
    /// guaranteed tail call, as `spec_paths_ret` describes. Such an
    /// expression needs the surrounding function to emit the `ret`.
    fn check_all_paths_returned(&self, expr: &Expr) -> (r: bool)
        ensures
            r == spec_paths_ret(self.tags(), expr@),
        decreases *expr, 0int,
    {
        match expr {
            Expr::WordCall(name, _) => {
                let tagged = lookup_tag(&self.variant_tags, name.as_str());
                let is_b = is_runtime_builtin(name.as_str());
                tagged.is_none() && !is_b
            },
            Expr::Match { branches, .. } => self.branches_return(branches),
            Expr::If { then_branch, else_branch, .. } => {
                let t = self.quot_returns(then_branch);
                let e = self.quot_returns(else_branch);
                proof {
                    assert(expr@ matches ExprV::If { then_branch: tb, else_branch: eb, .. }
                        && tb.len() == 1 && eb.len() == 1);
                }
                t && e
            },
            _ => false,
        }
    }

    /// Whether every branch body ends with a tail call.
    fn branches_return(&self, branches: &Vec<MatchBranch>) -> (r: bool)
        ensures
            r == spec_branches_ret(self.tags(), branches_v(branches@)),
        decreases branches@, branches@.len() + 1,
    {
        let ghost bs_v = branches_v(branches@);
        proof {
            lemma_branches_v_len(branches@);
            assert(bs_v.skip(0) =~= bs_v);
        }
        let mut i: usize = 0;
        while i < branches.len()
            invariant
                i <= branches@.len(),
                bs_v == branches_v(branches@),
                bs_v.len() == branches@.len(),
                forall|j: int|
                    0 <= j < branches@.len() ==> bs_v[j] == crate::ast::branch_v(branches@[j]),
                spec_branches_ret(self.tags(), bs_v) == spec_branches_ret(
                    self.tags(),
                    bs_v.skip(i as int),
                ),
            decreases branches@.len() - i,
        {
            proof {
                assert(bs_v.skip(i as int)[0] == bs_v[i as int]);
                assert(bs_v.skip(i as int).drop_first() =~= bs_v.skip(i + 1));
            }
            let ok = self.branch_returns(&branches[i]);
            proof {
                assert(branches@[i as int]@ == bs_v[i as int]);
                assert(ok == spec_branch_ret(self.tags(), bs_v[i as int]));
            }
            if !ok {
                proof {
                    assert(!spec_branches_ret(self.tags(), bs_v.skip(i as int)));
                }
                return false;
            }
            i = i + 1;
        }
        proof {
            assert(bs_v.skip(branches@.len() as int).len() == 0);
        }
        true
    }

    /// Whether one branch body ends with a tail call.
    fn branch_returns(&self, b: &MatchBranch) -> (r: bool)
        ensures
            r == spec_body_ret(self.tags(), b@.body),
        decreases *b, 1int,
    {
        self.body_returns(&b.body)
    }

    /// Whether a nonempty body ends with a tail call.
    fn body_returns(&self, body: &Vec<Expr>) -> (r: bool)
        ensures
            r == spec_body_ret(self.tags(), exprs_v(body@)),
        decreases body@, 0int,
    {
        proof {
            lemma_exprs_v_len(body@);
        }
        if body.len() == 0 {
            return false;
        }
        self.check_all_paths_returned(&body[body.len() - 1])
    }

    /// Whether an `if` branch (a quotation) ends with a tail call.
    fn quot_returns(&self, q: &Expr) -> (r: bool)
        ensures
            r == spec_quots_ret(self.tags(), seq![q@]),
        decreases *q, 2int,
    {
        proof {
            assert(seq![q@][0] == q@);
        }
        match q {
            Expr::Quotation(es, _) => self.body_returns(es),
            _ => false,
        }
    }

    /// Whether the last expression of a terminal match or `if` has
    /// already emitted a return on every path (so the word emits no
    /// trailing `ret`).
    fn check_all_branches_already_returned(&self, expr: &Expr) -> (r: bool)
        ensures
            r == spec_already_ret(self.tags(), expr@),
        decreases *expr, 3int,
    {
        match expr {
            Expr::Match { branches, .. } => self.branches_return(branches),
            Expr::If { then_branch, else_branch, .. } => {
                let t = self.quot_returns(then_branch);
                let e = self.quot_returns(else_branch);
                proof {
                    assert(expr@ matches ExprV::If { then_branch: tb, else_branch: eb, .. }
                        && tb.len() == 1 && eb.len() == 1);
                }
                t && e
            },
            _ => false,
        }
    }

    /// Compile a whole program to one LLVM module (without an entry).
    pub fn compile_program(&mut self, program: &Program) -> (r: CodegenResult<String>)
        requires
            old(self).wf(),
        ensures
            final(self).wf(),
            r matches Ok(ir) ==> ir@ == final(self).globals() + final(self).quots() + final(self).out(),
    {
        self.compile_program_with_main(program, None)
    }

    /// Compile a whole program to one LLVM module. With an entry word, a
    /// `main` function wiring up the scheduler is emitted. The module is
    /// the string globals, then the quotation functions, then the word
    /// functions; no target triple is ever emitted, so the downstream
    /// driver picks its native default.
    pub fn compile_program_with_main(&mut self, program: &Program, entry_word: Option<&str>) -> (r:
        CodegenResult<String>)
        requires
            old(self).wf(),
        ensures
            final(self).wf(),
            r matches Ok(ir) ==> ir@ == final(self).globals() + final(self).quots() + final(self).out(),
            // The main output opens with the module header and the
            // runtime declarations; no target triple is ever written.
            r is Ok ==> exists|t: Seq<char>|
                final(self).out() == old(self).out() + ("; Cem Compiler - Generated LLVM IR"@
                    + "\n"@ + ""@ + "\n"@ + runtime_decls_text()) + t,
    {
        self.out_line("; Cem Compiler - Generated LLVM IR");
        self.out_line("");
        self.emit_runtime_declarations();
        let ghost o_hdr = self.output@;
        proof {
            assert(o_hdr =~= old(self).out() + ("; Cem Compiler - Generated LLVM IR"@ + "\n"@
                + ""@ + "\n"@ + runtime_decls_text()));
        }

        // Variant layout: each variant's tag is its index within its
        // type's variant list, and its field count is recorded.
        let mut ti: usize = 0;
        while ti < program.type_defs.len()
            invariant
                self.wf(),
                self.output@ == o_hdr,
            decreases program.type_defs@.len() - ti,
        {
            let td = &program.type_defs[ti];
            let mut vi: usize = 0;
            while vi < td.variants.len()
                invariant
                    self.wf(),
                    self.output@ == o_hdr,
                    vi <= td.variants@.len(),
                decreases td.variants@.len() - vi,
            {
                let vname = &td.variants[vi].name;
                let tag: u32 = if vi <= u32::MAX as usize {
                    vi as u32
                } else {
                    u32::MAX
                };
                self.variant_tags.push((clone_string(vname), tag));
                self.variant_field_counts.push((clone_string(vname), td.variants[vi].fields.len()));
                vi = vi + 1;
            }
            ti = ti + 1;
        }

        self.emit_debug_info_header(program);

        let mut wi: usize = 0;
        while wi < program.word_defs.len()
            invariant
                self.wf(),
                text_extends(o_hdr, self.output@),
            decreases program.word_defs@.len() - wi,
        {
            let ghost ow = self.output@;
            let cr = self.compile_word(&program.word_defs[wi]);
            proof {
                lemma_extends_trans(o_hdr, ow, self.output@);
            }
            match cr {
                Ok(_) => {},
                Err(e) => {
                    return Err(e);
                },
            }
            wi = wi + 1;
        }

        match entry_word {
            Some(w) => {
                self.emit_main_function(w);
            },
            None => {},
        }

        self.emit_debug_info_footer();

        proof {
            lemma_prefix_split(
                old(self).out(),
                o_hdr,
                self.output@,
                "; Cem Compiler - Generated LLVM IR"@ + "\n"@ + ""@ + "\n"@
                    + runtime_decls_text(),
            );
        }
        let mut final_output = clone_string(&self.string_globals);
        final_output.append(self.quotation_functions.as_str());
        final_output.append(self.output.as_str());
        Ok(final_output)
    }

    /// Compile one word to a function from stack pointer to stack
    /// pointer. The Cem word `main` is emitted as `cem_main`. When the
    /// body's last expression already returns on every path, no trailing
    /// `ret` is emitted; otherwise the function closes with a `ret` of
    /// its final stack.
    fn compile_word(&mut self, word: &WordDef) -> (r: CodegenResult<()>)
        requires
            old(self).wf(),
        ensures
            final(self).wf(),
            text_extends(old(self).out(), final(self).out()),
            text_extends(old(self).globals(), final(self).globals()),
            text_extends(old(self).quots(), final(self).quots()),
            final(self).tags() == old(self).tags(),
            // One function definition, under the word's emitted name.
            r is Ok ==> exists|sub: Seq<char>, t: Seq<char>|
                final(self).out() == old(self).out() + ("define ptr @"@ + emitted_fn_name(
                    word@.name,
                ) + "(ptr %stack) !dbg !"@ + sub + " {"@ + "\n"@ + "entry:"@ + "\n"@) + t,
            // Unless every path of a terminal match or conditional has
            // already returned, the function ends by returning its final
            // stack.
            r is Ok && (word.body@.len() == 0 || !spec_already_ret(
                old(self).tags(),
                exprs_v(word.body@).last(),
            )) ==> exists|a: Seq<char>, sname: Seq<char>|
                final(self).out() == a + ("  ret ptr %"@ + sname + "\n"@ + "}"@ + "\n"@ + ""@
                    + "\n"@),
    {
        self.temp_counter = 0;
        self.current_block = String::from_str("entry");
        let subprogram_id = self.register_word_subprogram(word);
        self.current_subprogram_id = Some(subprogram_id);

        let function_name = if str_eq(word.name.as_str(), "main") {
            String::from_str("cem_main")
        } else {
            map_operator_to_function(word.name.as_str())
        };

        self.out_text("define ptr @");
        self.out_text(function_name.as_str());
        self.out_text("(ptr %stack) !dbg !");
        let sps = u64_to_dec(subprogram_id);
        self.out_text(sps.as_str());
        self.out_line(" {");
        self.out_line("entry:");
        let ghost o_def = self.output@;
        proof {
            reveal_strlit("");
            assert(function_name@ == emitted_fn_name(word@.name));
            assert(o_def =~= old(self).out() + ("define ptr @"@ + emitted_fn_name(word@.name)
                + "(ptr %stack) !dbg !"@ + sps@ + " {"@ + "\n"@ + "entry:"@ + "\n"@));
        }

        let stack_name = String::from_str("stack");
        let ghost ob = self.output@;
        let compiled = self.compile_expr_sequence(&word.body, &stack_name, true);
        proof {
            lemma_extends_trans(old(self).out(), ob, self.output@);
        }
        let final_stack = match compiled {
            Ok((s, _)) => s,
            Err(e) => {
                return Err(e);
            },
        };

        let all_paths_already_terminated = if word.body.len() > 0 {
            proof {
                lemma_exprs_v_len(word.body@);
            }
            self.check_all_branches_already_returned(&word.body[word.body.len() - 1])
        } else {
            false
        };

        if !all_paths_already_terminated {
            let ghost o_ret = self.output@;
            self.out_text("  ret ptr %");
            self.out_line(final_stack.as_str());
            self.out_line("}");
            self.out_line("");
            proof {
                reveal_strlit("");
                assert(self.output@ =~= o_ret + ("  ret ptr %"@ + final_stack@ + "\n"@ + "}"@
                    + "\n"@ + ""@ + "\n"@));
                lemma_prefix_split_out(old(self).out(), o_def, self.output@);
            }
        } else {
            self.out_line("}");
            self.out_line("");
            proof {
                lemma_prefix_split_out(old(self).out(), o_def, self.output@);
            }
        }
        self.current_subprogram_id = None;
        Ok(())
    }

    /// Compile a sequence of expressions; the last one may sit in tail
    /// position. The returned flag says whether the sequence ended with a
    /// guaranteed tail call to a user-defined word.
    fn compile_expr_sequence(&mut self, exprs: &Vec<Expr>, initial_stack: &String, in_tail: bool)
        -> (r: CodegenResult<(String, bool)>)
        requires
            old(self).wf(),
        ensures
            final(self).wf(),
            text_extends(old(self).out(), final(self).out()),
            text_extends(old(self).globals(), final(self).globals()),
            text_extends(old(self).quots(), final(self).quots()),
            final(self).tags() == old(self).tags(),
        decreases exprs@, 4int,
    {
        let mut stack_var = clone_string(initial_stack);
        let len = exprs.len();
        if len == 0 {
            return Ok((stack_var, false));
        }
        let mut ends_with_musttail = false;
        let mut i: usize = 0;
        while i < len
            invariant
                self.wf(),
                len == exprs@.len(),
                text_extends(old(self).out(), self.output@),
                text_extends(old(self).globals(), self.globals()),
                text_extends(old(self).quots(), self.quots()),
                self.tags() == old(self).tags(),
            decreases exprs@.len() - i,
        {
            let is_tail = in_tail && i == len - 1;
            let ghost ob = self.output@;
            let cr = self.compile_expr_with_context(&exprs[i], &stack_var, is_tail);
            proof {
                lemma_extends_trans(old(self).out(), ob, self.output@);
            }
            match cr {
                Ok(s) => {
                    stack_var = s;
                },
                Err(e) => {
                    return Err(e);
                },
            }
            if is_tail {
                let is_user_call = match &exprs[i] {
                    Expr::WordCall(name, _) => {
                        let tagged = lookup_tag(&self.variant_tags, name.as_str());
                        tagged.is_none() && !is_runtime_builtin(name.as_str())
                    },
                    _ => false,
                };
                if is_user_call {
                    ends_with_musttail = true;
                }
            }
            i = i + 1;
        }
        Ok((stack_var, ends_with_musttail))
    }

    /// Compile one expression; a user-defined word call in tail position
    /// becomes a guaranteed tail call.
    fn compile_expr_with_context(&mut self, expr: &Expr, stack: &String, in_tail_position: bool)
        -> (r: CodegenResult<String>)
        requires
            old(self).wf(),
        ensures
            final(self).wf(),
            text_extends(old(self).out(), final(self).out()),
            text_extends(old(self).globals(), final(self).globals()),
            text_extends(old(self).quots(), final(self).quots()),
            final(self).tags() == old(self).tags(),
            ({
                // A user-defined word call in tail position is emitted
                // exactly as one guaranteed tail call of its mangled name.
                &&& in_tail_position
                &&& expr@ matches ExprV::WordCall(n, _)
                &&& !old(self).tags().contains_key(expr@->WordCall_0)
                &&& !builtin_name(expr@->WordCall_0)
            }) ==> exists|tmp: Seq<char>, dbg: Seq<char>|
                final(self).out() == old(self).out() + "  %"@ + tmp
                    + " = musttail call ptr @"@ + mangled(expr@->WordCall_0) + "(ptr %"@ + stack@
                    + ")"@ + dbg + "\n"@,
        decreases *expr, 6int,
    {
        let tail_user_call = match expr {
            Expr::WordCall(name, _) => {
                if in_tail_position {
                    let tagged = lookup_tag(&self.variant_tags, name.as_str());
                    tagged.is_none() && !is_runtime_builtin(name.as_str())
                } else {
                    false
                }
            },
            _ => false,
        };
        if tail_user_call {
            match expr {
                Expr::WordCall(name, loc) => {
                    let result = self.fresh_temp();
                    let dbg = self.dbg_annotation(loc);
                    let func_name = map_operator_to_function(name.as_str());
                    let ghost o0 = self.output@;
                    self.out_text("  %");
                    self.out_text(result.as_str());
                    self.out_text(" = musttail call ptr @");
                    self.out_text(func_name.as_str());
                    self.out_text("(ptr %");
                    self.out_text(stack.as_str());
                    self.out_text(")");
                    self.out_text(dbg.as_str());
                    self.out_line("");
                    proof {
                        reveal_strlit("");
                        assert(self.output@ =~= o0 + "  %"@ + result@ + " = musttail call ptr @"@
                            + mangled(name@) + "(ptr %"@ + stack@ + ")"@ + dbg@ + "\n"@);
                    }
                    Ok(result)
                },
                _ => Err(CodegenError::InternalError(String::from_str("unreachable"))),
            }
        } else {
            self.compile_expr(expr, stack, in_tail_position)
        }
    }

    /// Compile one expression, returning the new stack variable name.
    fn compile_expr(&mut self, expr: &Expr, stack: &String, in_tail_position: bool) -> (r:
        CodegenResult<String>)
        requires
            old(self).wf(),
        ensures
            final(self).wf(),
            text_extends(old(self).out(), final(self).out()),
            text_extends(old(self).globals(), final(self).globals()),
            text_extends(old(self).quots(), final(self).quots()),
            final(self).tags() == old(self).tags(),
            // An integer literal is one push of exactly its value.
            expr@ is IntLit && r is Ok ==> exists|tmp: Seq<char>, dbg: Seq<char>|
                final(self).out() == old(self).out() + ("  %"@ + tmp
                    + " = call ptr @push_int(ptr %"@ + stack@ + ", i64 "@ + crate::numtext::dec_i64(
                    expr@->IntLit_0,
                ) + ")"@ + dbg + "\n"@),
            // A true literal is one push of 1.
            expr@ is BoolLit && expr@->BoolLit_0 && r is Ok ==> exists|
                tmp: Seq<char>,
                dbg: Seq<char>,
            |
                final(self).out() == old(self).out() + ("  %"@ + tmp
                    + " = call ptr @push_bool(ptr %"@ + stack@ + ", i1 1)"@ + dbg + "\n"@),
            // A false literal is one push of 0.
            expr@ is BoolLit && !expr@->BoolLit_0 && r is Ok ==> exists|
                tmp: Seq<char>,
                dbg: Seq<char>,
            |
                final(self).out() == old(self).out() + ("  %"@ + tmp
                    + " = call ptr @push_bool(ptr %"@ + stack@ + ", i1 0)"@ + dbg + "\n"@),
            // A word call that names no variant is one call of the word's
            // emitted name.
            expr@ is WordCall && !old(self).tags().contains_key(expr@->WordCall_0)
                && r is Ok ==> exists|tmp: Seq<char>, dbg: Seq<char>|
                final(self).out() == old(self).out() + ("  %"@ + tmp + " = call ptr @"@
                    + mangled(expr@->WordCall_0) + "(ptr %"@ + stack@ + ")"@ + dbg + "\n"@),
            // Every compiled match carries the default arm that reports a
            // runtime error and is unreachable.
            expr@ is Match && r is Ok ==> exists|
                pre: Seq<char>,
                id: Seq<char>,
                post: Seq<char>,
            |
                final(self).out() == old(self).out() + pre + ("match_default_"@ + id + ":"@
                    + "\n"@ + "  call void @runtime_error(ptr @.str.match_error)"@ + "\n"@
                    + "  unreachable"@ + "\n"@) + post,
        decreases *expr, 5int,
    {
        match expr {
            Expr::IntLit(n, loc) => {
                let result = self.fresh_temp();
                let dbg = self.dbg_annotation(loc);
                let ghost o0 = self.output@;
                self.out_text("  %");
                self.out_text(result.as_str());
                self.out_text(" = call ptr @push_int(ptr %");
                self.out_text(stack.as_str());
                self.out_text(", i64 ");
                let ns = crate::numtext::i64_to_dec(*n);
                self.out_text(ns.as_str());
                self.out_text(")");
                self.out_text(dbg.as_str());
                self.out_line("");
                proof {
                    reveal_strlit("");
                    assert(self.output@ =~= o0 + ("  %"@ + result@
                        + " = call ptr @push_int(ptr %"@ + stack@ + ", i64 "@ + crate::numtext::dec_i64(
                        *n as int,
                    ) + ")"@ + dbg@ + "\n"@));
                    assert(self.output@ == old(self).out() + ("  %"@ + result@
                        + " = call ptr @push_int(ptr %"@ + stack@ + ", i64 "@ + crate::numtext::dec_i64(
                        expr@->IntLit_0,
                    ) + ")"@ + dbg@ + "\n"@));
                }
                Ok(result)
            },
            Expr::BoolLit(b, loc) => {
                let result = self.fresh_temp();
                let dbg = self.dbg_annotation(loc);
                let ghost o0 = self.output@;
                self.out_text("  %");
                self.out_text(result.as_str());
                self.out_text(" = call ptr @push_bool(ptr %");
                self.out_text(stack.as_str());
                self.out_text(if *b {
                    ", i1 1)"
                } else {
                    ", i1 0)"
                });
                self.out_text(dbg.as_str());
                self.out_line("");
                proof {
                    reveal_strlit("");
                    if *b {
                        assert(self.output@ =~= o0 + ("  %"@ + result@
                            + " = call ptr @push_bool(ptr %"@ + stack@ + ", i1 1)"@ + dbg@
                            + "\n"@));
                        assert(self.output@ == old(self).out() + ("  %"@ + result@
                            + " = call ptr @push_bool(ptr %"@ + stack@ + ", i1 1)"@ + dbg@
                            + "\n"@));
                    } else {
                        assert(self.output@ =~= o0 + ("  %"@ + result@
                            + " = call ptr @push_bool(ptr %"@ + stack@ + ", i1 0)"@ + dbg@
                            + "\n"@));
                        assert(self.output@ == old(self).out() + ("  %"@ + result@
                            + " = call ptr @push_bool(ptr %"@ + stack@ + ", i1 0)"@ + dbg@
                            + "\n"@));
                    }
                }
                Ok(result)
            },
            Expr::StringLit(s, loc) => {
                let str_global = self.intern_string(s.as_str());
                let byte_len = byte_len_sat(s.as_str());
                let str_len = if byte_len < usize::MAX {
                    byte_len + 1
                } else {
                    byte_len
                };
                let len_s = u64_to_dec(str_len as u64);
                let ptr_temp = self.fresh_temp();
                let result = self.fresh_temp();
                let dbg = self.dbg_annotation(loc);
                self.out_text("  %");
                self.out_text(ptr_temp.as_str());
                self.out_text(" = getelementptr inbounds [");
                self.out_text(len_s.as_str());
                self.out_text(" x i8], ptr ");
                self.out_text(str_global.as_str());
                self.out_text(", i32 0, i32 0");
                self.out_text(dbg.as_str());
                self.out_line("");
                self.out_text("  %");
                self.out_text(result.as_str());
                self.out_text(" = call ptr @push_string(ptr %");
                self.out_text(stack.as_str());
                self.out_text(", ptr %");
                self.out_text(ptr_temp.as_str());
                self.out_text(")");
                self.out_text(dbg.as_str());
                self.out_line("");
                Ok(result)
            },
            Expr::WordCall(name, loc) => {
                let tagged = lookup_tag(&self.variant_tags, name.as_str());
                match tagged {
                    Some(tag) => self.compile_variant_construction(name, loc, tag, stack),
                    None => {
                        let result = self.fresh_temp();
                        let dbg = self.dbg_annotation(loc);
                        let func_name = map_operator_to_function(name.as_str());
                        let ghost o0 = self.output@;
                        self.out_text("  %");
                        self.out_text(result.as_str());
                        self.out_text(" = call ptr @");
                        self.out_text(func_name.as_str());
                        self.out_text("(ptr %");
                        self.out_text(stack.as_str());
                        self.out_text(")");
                        self.out_text(dbg.as_str());
                        self.out_line("");
                        proof {
                            reveal_strlit("");
                            assert(self.output@ =~= o0 + ("  %"@ + result@ + " = call ptr @"@
                                + mangled(name@) + "(ptr %"@ + stack@ + ")"@ + dbg@ + "\n"@));
                            assert(self.output@ == old(self).out() + ("  %"@ + result@
                                + " = call ptr @"@ + mangled(expr@->WordCall_0) + "(ptr %"@
                                + stack@ + ")"@ + dbg@ + "\n"@));
                        }
                        Ok(result)
                    },
                }
            },
            Expr::Quotation(exprs, _loc) => self.compile_quotation(exprs, stack),
            Expr::Match { branches, loc: _ } => self.compile_match(branches, stack,
                in_tail_position),
            Expr::If { .. } => self.compile_if(expr, stack, in_tail_position),
        }
    }
}

} // verus!

verus! {

impl CodeGen {
    /// Emit construction of a variant value: a zero-field variant pushes
    /// a null payload; one field moves the top cell into a fresh payload
    /// cell; more fields are moved into a linked chain, the first-listed
    /// field first.
    fn compile_variant_construction(
        &mut self,
        name: &String,
        loc: &SourceLoc,
        tag: u32,
        stack: &String,
    ) -> (r: CodegenResult<String>)
        requires
            old(self).wf(),
        ensures
            final(self).wf(),
            text_extends(old(self).out(), final(self).out()),
            final(self).globals() == old(self).globals(),
            final(self).quots() == old(self).quots(),
            final(self).tags() == old(self).tags(),
    {
        let field_count: usize = match lookup_count(&self.variant_field_counts, name.as_str()) {
            Some(c) => c,
            None => 0,
        };
        let dbg = self.dbg_annotation(loc);
        let tag_s = u64_to_dec(tag as u64);

        if field_count == 0 {
            let result = self.fresh_temp();
            self.out_text("  %");
            self.out_text(result.as_str());
            self.out_text(" = call ptr @push_variant(ptr %");
            self.out_text(stack.as_str());
            self.out_text(", i32 ");
            self.out_text(tag_s.as_str());
            self.out_text(", ptr null)");
            self.out_text(dbg.as_str());
            self.out_line("");
            return Ok(result);
        }

        if field_count == 1 {
            let field_cell = self.fresh_temp();
            self.out_text("  %");
            self.out_text(field_cell.as_str());
            self.out_text(" = call ptr @alloc_cell()");
            self.out_text(dbg.as_str());
            self.out_line("");
            self.out_text("  call void @llvm.memcpy.p0.p0.i64(ptr align 8 %");
            self.out_text(field_cell.as_str());
            self.out_text(", ptr align 8 %");
            self.out_text(stack.as_str());
            self.out_line(", i64 32, i1 false)");
            let next_ptr = self.fresh_temp();
            self.out_text("  %");
            self.out_text(next_ptr.as_str());
            self.out_text(
                " = getelementptr inbounds { i32, [4 x i8], [16 x i8], ptr }, ptr %",
            );
            self.out_text(field_cell.as_str());
            self.out_line(", i32 0, i32 3");
            self.out_text("  store ptr null, ptr %");
            self.out_line(next_ptr.as_str());
            let rest_ptr = self.fresh_temp();
            self.out_text("  %");
            self.out_text(rest_ptr.as_str());
            self.out_text(
                " = getelementptr inbounds { i32, [4 x i8], [16 x i8], ptr }, ptr %",
            );
            self.out_text(stack.as_str());
            self.out_line(", i32 0, i32 3");
            let rest = self.fresh_temp();
            self.out_text("  %");
            self.out_text(rest.as_str());
            self.out_text(" = load ptr, ptr %");
            self.out_line(rest_ptr.as_str());
            let result = self.fresh_temp();
            self.out_text("  %");
            self.out_text(result.as_str());
            self.out_text(" = call ptr @push_variant(ptr %");
            self.out_text(rest.as_str());
            self.out_text(", i32 ");
            self.out_text(tag_s.as_str());
            self.out_text(", ptr %");
            self.out_text(field_cell.as_str());
            self.out_text(")");
            self.out_text(dbg.as_str());
            self.out_line("");
            return Ok(result);
        }

        // Two or more fields: pop each field into a fresh cell, in
        // source order, then link the cells into the payload chain.
        let mut field_cells: Vec<String> = Vec::new();
        let mut current_stack = clone_string(stack);
        let mut i: usize = 0;
        while i < field_count
            invariant
                self.wf(),
                field_cells@.len() == i,
                text_extends(old(self).out(), self.output@),
                self.string_globals@ == old(self).string_globals@,
                self.quotation_functions@ == old(self).quotation_functions@,
                self.tags() == old(self).tags(),
            decreases field_count - i,
        {
            let field_cell = self.fresh_temp();
            let dbg2 = self.dbg_annotation(loc);
            self.out_text("  %");
            self.out_text(field_cell.as_str());
            self.out_text(" = call ptr @alloc_cell()");
            self.out_text(dbg2.as_str());
            self.out_line("");
            self.out_text("  call void @llvm.memcpy.p0.p0.i64(ptr align 8 %");
            self.out_text(field_cell.as_str());
            self.out_text(", ptr align 8 %");
            self.out_text(current_stack.as_str());
            self.out_line(", i64 32, i1 false)");
            field_cells.push(field_cell);
            let rest_ptr = self.fresh_temp();
            self.out_text("  %");
            self.out_text(rest_ptr.as_str());
            self.out_text(
                " = getelementptr inbounds { i32, [4 x i8], [16 x i8], ptr }, ptr %",
            );
            self.out_text(current_stack.as_str());
            self.out_line(", i32 0, i32 3");
            let rest = self.fresh_temp();
            self.out_text("  %");
            self.out_text(rest.as_str());
            self.out_text(" = load ptr, ptr %");
            self.out_line(rest_ptr.as_str());
            current_stack = rest;
            i = i + 1;
        }

        let mut k: usize = 0;
        while k < field_cells.len()
            invariant
                self.wf(),
                text_extends(old(self).out(), self.output@),
                self.string_globals@ == old(self).string_globals@,
                self.quotation_functions@ == old(self).quotation_functions@,
                self.tags() == old(self).tags(),
            decreases field_cells@.len() - k,
        {
            let next_ptr = self.fresh_temp();
            self.out_text("  %");
            self.out_text(next_ptr.as_str());
            self.out_text(
                " = getelementptr inbounds { i32, [4 x i8], [16 x i8], ptr }, ptr %",
            );
            self.out_text(field_cells[k].as_str());
            self.out_line(", i32 0, i32 3");
            if k + 1 < field_cells.len() {
                self.out_text("  store ptr %");
                self.out_text(field_cells[k + 1].as_str());
                self.out_text(", ptr %");
                self.out_line(next_ptr.as_str());
            } else {
                self.out_text("  store ptr null, ptr %");
                self.out_line(next_ptr.as_str());
            }
            k = k + 1;
        }

        let result = self.fresh_temp();
        let dbg3 = self.dbg_annotation(loc);
        self.out_text("  %");
        self.out_text(result.as_str());
        self.out_text(" = call ptr @push_variant(ptr %");
        self.out_text(current_stack.as_str());
        self.out_text(", i32 ");
        self.out_text(tag_s.as_str());
        self.out_text(", ptr %");
        self.out_text(field_cells[0].as_str());
        self.out_text(")");
        self.out_text(dbg3.as_str());
        self.out_line("");
        Ok(result)
    }

    /// Compile a quotation: its body becomes a fresh top-level `quot_N`
    /// function, accumulated before the words, and the use site pushes
    /// that function's address.
    fn compile_quotation(&mut self, exprs: &Vec<Expr>, stack: &String) -> (r: CodegenResult<
        String,
    >)
        requires
            old(self).wf(),
        ensures
            final(self).wf(),
            text_extends(old(self).out(), final(self).out()),
            text_extends(old(self).globals(), final(self).globals()),
            text_extends(old(self).quots(), final(self).quots()),
            final(self).tags() == old(self).tags(),
        decreases exprs@, 7int,
    {
        let mut quot_name = String::from_str("quot_");
        push_dec_u64(&mut quot_name, self.temp_counter);
        let saved_counter = self.temp_counter;
        if self.temp_counter < u64::MAX {
            self.temp_counter = self.temp_counter + 1;
        }

        // The quotation body is emitted into a fresh buffer and then
        // moved into the quotation area, before its users.
        let saved_output = clone_string(&self.output);
        self.output = String::new();

        self.out_text("define ptr @");
        self.out_text(quot_name.as_str());
        self.out_line("(ptr %stack) {");
        self.out_line("entry:");

        let mut stack_var = String::from_str("stack");
        let len = exprs.len();
        let mut i: usize = 0;
        let mut returned = false;
        while i < len
            invariant
                self.wf(),
                len == exprs@.len(),
                saved_output@ == old(self).out(),
                text_extends(old(self).globals(), self.globals()),
                text_extends(old(self).quots(), self.quots()),
                self.tags() == old(self).tags(),
            decreases exprs@.len() - i,
        {
            let is_tail = i == len - 1;
            let cr = self.compile_expr_with_context(&exprs[i], &stack_var, is_tail);
            match cr {
                Ok(s) => {
                    stack_var = s;
                },
                Err(e) => {
                    // Restore the word's own output before failing.
                    self.output = saved_output;
                    return Err(e);
                },
            }
            if is_tail {
                let is_call = match &exprs[i] {
                    Expr::WordCall(_, _) => true,
                    _ => false,
                };
                if is_call {
                    self.out_text("  ret ptr %");
                    self.out_line(stack_var.as_str());
                    returned = true;
                }
            }
            i = i + 1;
        }
        if !returned {
            self.out_text("  ret ptr %");
            self.out_line(stack_var.as_str());
        }
        self.out_line("}");
        self.out_line("");

        let body = clone_string(&self.output);
        self.quotation_functions.append(body.as_str());
        self.output = saved_output;
        self.temp_counter = if saved_counter < u64::MAX {
            saved_counter + 1
        } else {
            saved_counter
        };

        let result = self.fresh_temp();
        self.out_text("  %");
        self.out_text(result.as_str());
        self.out_text(" = call ptr @push_quotation(ptr %");
        self.out_text(stack.as_str());
        self.out_text(", ptr @");
        self.out_text(quot_name.as_str());
        self.out_line(")");
        proof {
            lemma_extends_concat(
                old(self).quots(),
                self.quotation_functions@.subrange(
                    old(self).quots().len() as int,
                    self.quotation_functions@.len() as int,
                ),
            );
            assert(old(self).quots() + self.quotation_functions@.subrange(
                old(self).quots().len() as int,
                self.quotation_functions@.len() as int,
            ) =~= self.quotation_functions@);
        }
        Ok(result)
    }

    /// Compile a pattern match: switch on the variant tag, one case per
    /// branch, and a default case that calls the runtime error reporter
    /// and is unreachable. When every branch ends in a guaranteed tail
    /// call, no join block is emitted; otherwise the branch results merge
    /// in a phi. A match not in tail position always reaches a
    /// well-formed continuation block.
    fn compile_match(&mut self, branches: &Vec<MatchBranch>, stack: &String, in_tail_position:
        bool) -> (r: CodegenResult<String>)
        requires
            old(self).wf(),
        ensures
            final(self).wf(),
            text_extends(old(self).out(), final(self).out()),
            text_extends(old(self).globals(), final(self).globals()),
            text_extends(old(self).quots(), final(self).quots()),
            final(self).tags() == old(self).tags(),
            // The default arm of the emitted switch ends with a call to
            // the runtime error reporter followed by `unreachable`.
            r is Ok ==> exists|pre: Seq<char>, id: Seq<char>, post: Seq<char>|
                final(self).out() == old(self).out() + pre + ("match_default_"@ + id + ":"@ + "\n"@
                    + "  call void @runtime_error(ptr @.str.match_error)"@ + "\n"@
                    + "  unreachable"@ + "\n"@) + post,
        decreases branches@, branches@.len() + 2,
    {
        if branches.len() == 0 {
            return Err(CodegenError::InternalError(String::from_str("Empty match expression")));
        }

        let match_id = u64_to_dec(self.temp_counter);
        let mut merge_label = String::from_str("match_merge_");
        merge_label.append(match_id.as_str());
        let mut default_label = String::from_str("match_default_");
        default_label.append(match_id.as_str());

        // Scrutinee: variant tag, rest of stack, and payload pointer.
        let variant_tag_ptr = self.fresh_temp();
        self.out_text("  %");
        self.out_text(variant_tag_ptr.as_str());
        self.out_text(
            " = getelementptr inbounds { i32, [4 x i8], [16 x i8], ptr }, ptr %",
        );
        self.out_text(stack.as_str());
        self.out_line(", i32 0, i32 2, i32 0");
        let variant_tag = self.fresh_temp();
        self.out_text("  %");
        self.out_text(variant_tag.as_str());
        self.out_text(" = load i32, ptr %");
        self.out_line(variant_tag_ptr.as_str());
        let rest_ptr = self.fresh_temp();
        self.out_text("  %");
        self.out_text(rest_ptr.as_str());
        self.out_text(
            " = getelementptr inbounds { i32, [4 x i8], [16 x i8], ptr }, ptr %",
        );
        self.out_text(stack.as_str());
        self.out_line(", i32 0, i32 3");
        let rest_var = self.fresh_temp();
        self.out_text("  %");
        self.out_text(rest_var.as_str());
        self.out_text(" = load ptr, ptr %");
        self.out_line(rest_ptr.as_str());
        let variant_data_ptr = self.fresh_temp();
        self.out_text("  %");
        self.out_text(variant_data_ptr.as_str());
        self.out_text(
            " = getelementptr inbounds { i32, [4 x i8], [16 x i8], ptr }, ptr %",
        );
        self.out_text(stack.as_str());
        self.out_line(", i32 0, i32 2, i32 8");
        let variant_data = self.fresh_temp();
        self.out_text("  %");
        self.out_text(variant_data.as_str());
        self.out_text(" = load ptr, ptr %");
        self.out_line(variant_data_ptr.as_str());

        // The switch, one case per branch.
        self.out_text("  switch i32 %");
        self.out_text(variant_tag.as_str());
        self.out_text(", label %");
        self.out_text(default_label.as_str());
        self.out_text(" [");
        let mut bi: usize = 0;
        while bi < branches.len()
            invariant
                self.wf(),
                text_extends(old(self).out(), self.output@),
                text_extends(old(self).globals(), self.globals()),
                text_extends(old(self).quots(), self.quots()),
                self.tags() == old(self).tags(),
            decreases branches@.len() - bi,
        {
            let bname: &String = match &branches[bi].pattern {
                Pattern::Variant { name } => name,
            };
            let tag_value: u32 = match lookup_tag(&self.variant_tags, bname.as_str()) {
                Some(t) => t,
                None => {
                    let mut message = String::from_str("Unknown variant: ");
                    message.append(bname.as_str());
                    return Err(CodegenError::InternalError(message));
                },
            };
            self.out_line("");
            self.out_text("    i32 ");
            let ts = u64_to_dec(tag_value as u64);
            self.out_text(ts.as_str());
            self.out_text(", label %match_case_");
            self.out_text(match_id.as_str());
            self.out_text("_");
            let bis = u64_to_dec(bi as u64);
            self.out_text(bis.as_str());
            bi = bi + 1;
        }
        self.out_line("");
        self.out_line("  ]");

        // The branches.
        let mut branch_results: Vec<String> = Vec::new();
        let mut branch_predecessors: Vec<String> = Vec::new();
        let mut all_branches_musttail = true;
        let mut idx: usize = 0;
        while idx < branches.len()
            invariant
                self.wf(),
                branch_results@.len() == branch_predecessors@.len(),
                text_extends(old(self).out(), self.output@),
                text_extends(old(self).globals(), self.globals()),
                text_extends(old(self).quots(), self.quots()),
                self.tags() == old(self).tags(),
            decreases branches@.len() - idx,
        {
            self.out_text("match_case_");
            self.out_text(match_id.as_str());
            self.out_text("_");
            let idxs = u64_to_dec(idx as u64);
            self.out_text(idxs.as_str());
            self.out_line(":");
            let mut case_label = String::from_str("match_case_");
            case_label.append(match_id.as_str());
            case_label.append("_");
            case_label.append(idxs.as_str());
            self.current_block = case_label;

            let ghost ob = self.output@;
            let cr = self.compile_match_branch(
                &branches[idx],
                &rest_var,
                &variant_data,
                in_tail_position,
            );
            proof {
                lemma_extends_trans(old(self).out(), ob, self.output@);
            }
            let (branch_stack, ends_with_musttail) = match cr {
                Ok(p) => p,
                Err(e) => {
                    return Err(e);
                },
            };
            let predecessor = clone_string(&self.current_block);
            let branch_terminates = ends_with_musttail || {
                let lb = branches[idx].body.len();
                if lb > 0 {
                    self.check_all_paths_returned(&branches[idx].body[lb - 1])
                } else {
                    false
                }
            };
            if branch_terminates {
                if ends_with_musttail {
                    self.out_text("  ret ptr %");
                    self.out_line(branch_stack.as_str());
                }
            } else {
                all_branches_musttail = false;
                self.out_text("  br label %");
                self.out_line(merge_label.as_str());
                branch_results.push(branch_stack);
                branch_predecessors.push(predecessor);
            }
            idx = idx + 1;
        }

        // The default case reports a runtime error and never returns.
        let ghost out_before_default = self.output@;
        self.out_text(default_label.as_str());
        self.out_line(":");
        self.out_line("  call void @runtime_error(ptr @.str.match_error)");
        self.out_line("  unreachable");
        let ghost out_after_default = self.output@;
        proof {
            reveal_strlit("");
            assert(default_label@ == "match_default_"@ + match_id@);
            assert(out_after_default =~= out_before_default + ("match_default_"@ + match_id@
                + ":"@ + "\n"@ + "  call void @runtime_error(ptr @.str.match_error)"@ + "\n"@
                + "  unreachable"@ + "\n"@));
        }

        // The reserved error message global, emitted once on first use.
        let have_err = lookup_str(&self.string_constants, "match_error");
        match have_err {
            Some(_) => {},
            None => {
                let escaped = escape_llvm_string("match: non-exhaustive pattern (internal error)");
                let ghost g0 = self.string_globals@;
                self.string_globals.append(
                    "@.str.match_error = private unnamed_addr constant [47 x i8] c\"",
                );
                self.string_globals.append(escaped.as_str());
                self.string_globals.append("\\00\"\n");
                let ghost before = self.string_constants@;
                self.string_constants.push(
                    (String::from_str("match_error"), String::from_str("@.str.match_error")),
                );
                proof {
                    assert(forall|j: int|
                        0 <= j < before.len() ==> (#[trigger] before[j]).0@ != "match_error"@);
                    assert(self.string_constants@.drop_last() =~= before);
                    assert(keys_distinct(self.string_constants@));
                    lemma_extends_concat(
                        g0,
                        self.string_globals@.subrange(g0.len() as int, self.string_globals@.len() as int),
                    );
                    assert(g0 + self.string_globals@.subrange(
                        g0.len() as int,
                        self.string_globals@.len() as int,
                    ) =~= self.string_globals@);
                }
            },
        }

        if !all_branches_musttail {
            // Merge the branches that did not return.
            self.out_text(merge_label.as_str());
            self.out_line(":");
            self.current_block = merge_label;
            let result = self.fresh_temp();
            self.out_text("  %");
            self.out_text(result.as_str());
            self.out_text(" = phi ptr");
            let mut pi: usize = 0;
            let mut first = true;
            while pi < branch_results.len() && pi < branch_predecessors.len()
                invariant
                    self.wf(),
                    text_extends(old(self).globals(), self.globals()),
                    text_extends(old(self).quots(), self.quots()),
                    text_extends(out_after_default, self.output@),
                    self.tags() == old(self).tags(),
                decreases branch_results@.len() - pi,
            {
                if !first {
                    self.out_text(",");
                }
                first = false;
                self.out_text(" [ %");
                self.out_text(branch_results[pi].as_str());
                self.out_text(", %");
                self.out_text(branch_predecessors[pi].as_str());
                self.out_text(" ]");
                pi = pi + 1;
            }
            self.out_line("");
            proof {
                lemma_match_default_split(
                    old(self).out(),
                    out_before_default,
                    out_after_default,
                    self.output@,
                    match_id@,
                );
            }
            Ok(result)
        } else {
            // Every branch returned in place. Outside tail position the
            // code after the match still needs a well-formed block.
            if !in_tail_position {
                let mut continuation_label = String::from_str("match_continuation_");
                continuation_label.append(match_id.as_str());
                self.out_text(continuation_label.as_str());
                self.out_line(":");
                self.current_block = continuation_label;
            }
            proof {
                lemma_match_default_split(
                    old(self).out(),
                    out_before_default,
                    out_after_default,
                    self.output@,
                    match_id@,
                );
            }
            Ok(rest_var)
        }
    }

    /// Compile one match branch body from its reconstructed stack.
    fn compile_match_branch(
        &mut self,
        branch: &MatchBranch,
        rest_var: &String,
        variant_data: &String,
        in_tail_position: bool,
    ) -> (r: CodegenResult<(String, bool)>)
        requires
            old(self).wf(),
        ensures
            final(self).wf(),
            text_extends(old(self).out(), final(self).out()),
            text_extends(old(self).globals(), final(self).globals()),
            text_extends(old(self).quots(), final(self).quots()),
            final(self).tags() == old(self).tags(),
        decreases *branch, branch.body@.len() + 8,
    {
        let bname: &String = match &branch.pattern {
            Pattern::Variant { name } => name,
        };
        let field_count: usize = match lookup_count(&self.variant_field_counts, bname.as_str()) {
            Some(c) => c,
            None => 0,
        };

        let initial_stack: String = if field_count == 0 {
            clone_string(rest_var)
        } else if field_count == 1 {
            // Copy the payload cell so the variant keeps sole ownership
            // of its data, then link the copy onto the rest.
            let field_copy = self.fresh_temp();
            self.out_text("  %");
            self.out_text(field_copy.as_str());
            self.out_text(" = call ptr @copy_cell(ptr %");
            self.out_text(variant_data.as_str());
            self.out_line(")");
            let field_next_ptr = self.fresh_temp();
            self.out_text("  %");
            self.out_text(field_next_ptr.as_str());
            self.out_text(
                " = getelementptr inbounds { i32, [4 x i8], [16 x i8], ptr }, ptr %",
            );
            self.out_text(field_copy.as_str());
            self.out_line(", i32 0, i32 3");
            self.out_text("  store ptr %");
            self.out_text(rest_var.as_str());
            self.out_text(", ptr %");
            self.out_line(field_next_ptr.as_str());
            field_copy
        } else {
            // Copy the payload chain, then link the copies onto the rest.
            let mut field_copies: Vec<String> = Vec::new();
            let mut current_original = clone_string(variant_data);
            let mut i: usize = 0;
            while i < field_count
                invariant
                    self.wf(),
                    field_copies@.len() == i,
                    text_extends(old(self).out(), self.output@),
                    text_extends(old(self).globals(), self.globals()),
                    text_extends(old(self).quots(), self.quots()),
                    self.tags() == old(self).tags(),
                decreases field_count - i,
            {
                let field_copy = self.fresh_temp();
                self.out_text("  %");
                self.out_text(field_copy.as_str());
                self.out_text(" = call ptr @copy_cell(ptr %");
                self.out_text(current_original.as_str());
                self.out_line(")");
                field_copies.push(field_copy);
                if i + 1 < field_count {
                    let next_ptr = self.fresh_temp();
                    self.out_text("  %");
                    self.out_text(next_ptr.as_str());
                    self.out_text(
                        " = getelementptr inbounds { i32, [4 x i8], [16 x i8], ptr }, ptr %",
                    );
                    self.out_text(current_original.as_str());
                    self.out_line(", i32 0, i32 3");
                    let next_field = self.fresh_temp();
                    self.out_text("  %");
                    self.out_text(next_field.as_str());
                    self.out_text(" = load ptr, ptr %");
                    self.out_line(next_ptr.as_str());
                    current_original = next_field;
                }
                i = i + 1;
            }
            let mut k: usize = 0;
            while k < field_copies.len()
                invariant
                    self.wf(),
                    text_extends(old(self).out(), self.output@),
                    text_extends(old(self).globals(), self.globals()),
                    text_extends(old(self).quots(), self.quots()),
                    self.tags() == old(self).tags(),
                decreases field_copies@.len() - k,
            {
                let next_ptr = self.fresh_temp();
                self.out_text("  %");
                self.out_text(next_ptr.as_str());
                self.out_text(
                    " = getelementptr inbounds { i32, [4 x i8], [16 x i8], ptr }, ptr %",
                );
                self.out_text(field_copies[k].as_str());
                self.out_line(", i32 0, i32 3");
                if k + 1 < field_copies.len() {
                    self.out_text("  store ptr %");
                    self.out_text(field_copies[k + 1].as_str());
                    self.out_text(", ptr %");
                    self.out_line(next_ptr.as_str());
                } else {
                    self.out_text("  store ptr %");
                    self.out_text(rest_var.as_str());
                    self.out_text(", ptr %");
                    self.out_line(next_ptr.as_str());
                }
                k = k + 1;
            }
            if field_copies.len() > 0 {
                clone_string(&field_copies[0])
            } else {
                clone_string(rest_var)
            }
        };

        let ghost ob = self.output@;
        let r = self.compile_expr_sequence(&branch.body, &initial_stack, in_tail_position);
        proof {
            lemma_extends_trans(old(self).out(), ob, self.output@);
        }
        r
    }

    /// Compile an `if`: pop the boolean and the rest of the stack, branch
    /// to the two quotation bodies, and merge through a phi unless both
    /// arms returned with guaranteed tail calls.
    fn compile_if(&mut self, expr: &Expr, stack: &String, in_tail_position: bool) -> (r:
        CodegenResult<String>)
        requires
            old(self).wf(),
        ensures
            final(self).wf(),
            text_extends(old(self).out(), final(self).out()),
            text_extends(old(self).globals(), final(self).globals()),
            text_extends(old(self).quots(), final(self).quots()),
            final(self).tags() == old(self).tags(),
        decreases *expr, 4int,
    {
        let (then_branch, else_branch): (&Expr, &Expr) = match expr {
            Expr::If { then_branch, else_branch, .. } => (then_branch, else_branch),
            _ => {
                return Err(CodegenError::InternalError(String::from_str(
                    "conditional lowering needs an if expression",
                )));
            },
        };
        let if_id = u64_to_dec(self.temp_counter);
        let mut then_label = String::from_str("then_");
        then_label.append(if_id.as_str());
        let mut else_label = String::from_str("else_");
        else_label.append(if_id.as_str());
        let mut merge_label = String::from_str("merge_");
        merge_label.append(if_id.as_str());
        if self.temp_counter < u64::MAX {
            self.temp_counter = self.temp_counter + 1;
        }

        let bool_ptr = self.fresh_temp();
        self.out_text("  %");
        self.out_text(bool_ptr.as_str());
        self.out_text(
            " = getelementptr inbounds { i32, [4 x i8], [16 x i8], ptr }, ptr %",
        );
        self.out_text(stack.as_str());
        self.out_line(", i32 0, i32 2, i32 0");
        let bool_val = self.fresh_temp();
        self.out_text("  %");
        self.out_text(bool_val.as_str());
        self.out_text(" = load i8, ptr %");
        self.out_line(bool_ptr.as_str());
        let cond_var = self.fresh_temp();
        self.out_text("  %");
        self.out_text(cond_var.as_str());
        self.out_text(" = trunc i8 %");
        self.out_text(bool_val.as_str());
        self.out_line(" to i1");
        let rest_ptr = self.fresh_temp();
        self.out_text("  %");
        self.out_text(rest_ptr.as_str());
        self.out_text(
            " = getelementptr inbounds { i32, [4 x i8], [16 x i8], ptr }, ptr %",
        );
        self.out_text(stack.as_str());
        self.out_line(", i32 0, i32 3");
        let rest_var = self.fresh_temp();
        self.out_text("  %");
        self.out_text(rest_var.as_str());
        self.out_text(" = load ptr, ptr %");
        self.out_line(rest_ptr.as_str());
        self.out_text("  br i1 %");
        self.out_text(cond_var.as_str());
        self.out_text(", label %");
        self.out_text(then_label.as_str());
        self.out_text(", label %");
        self.out_line(else_label.as_str());

        // Then arm.
        self.out_text(then_label.as_str());
        self.out_line(":");
        self.current_block = clone_string(&then_label);
        let ghost ob_then = self.output@;
        let tr = self.compile_branch_quotation(then_branch, &rest_var, in_tail_position);
        proof {
            lemma_extends_trans(old(self).out(), ob_then, self.output@);
        }
        let (then_stack, then_is_musttail) = match tr {
            Ok(p) => p,
            Err(e) => {
                return Err(e);
            },
        };
        let then_predecessor = clone_string(&self.current_block);
        if then_is_musttail {
            self.out_text("  ret ptr %");
            self.out_line(then_stack.as_str());
        } else {
            self.out_text("  br label %");
            self.out_line(merge_label.as_str());
        }

        // Else arm.
        self.out_text(else_label.as_str());
        self.out_line(":");
        self.current_block = clone_string(&else_label);
        let ghost ob_else = self.output@;
        let er = self.compile_branch_quotation(else_branch, &rest_var, in_tail_position);
        proof {
            lemma_extends_trans(old(self).out(), ob_else, self.output@);
        }
        let (else_stack, else_is_musttail) = match er {
            Ok(p) => p,
            Err(e) => {
                return Err(e);
            },
        };
        let else_predecessor = clone_string(&self.current_block);
        if else_is_musttail {
            self.out_text("  ret ptr %");
            self.out_line(else_stack.as_str());
        } else {
            self.out_text("  br label %");
            self.out_line(merge_label.as_str());
        }

        if !then_is_musttail || !else_is_musttail {
            self.out_text(merge_label.as_str());
            self.out_line(":");
            self.current_block = clone_string(&merge_label);
            let result = self.fresh_temp();
            self.out_text("  %");
            self.out_text(result.as_str());
            self.out_text(" = phi ptr");
            if !then_is_musttail {
                self.out_text(" [ %");
                self.out_text(then_stack.as_str());
                self.out_text(", %");
                self.out_text(then_predecessor.as_str());
                self.out_text(" ]");
                if !else_is_musttail {
                    self.out_text(",");
                }
            }
            if !else_is_musttail {
                self.out_text(" [ %");
                self.out_text(else_stack.as_str());
                self.out_text(", %");
                self.out_text(else_predecessor.as_str());
                self.out_text(" ]");
            }
            self.out_line("");
            Ok(result)
        } else {
            if !in_tail_position {
                self.out_text(merge_label.as_str());
                self.out_line(":");
                self.current_block = clone_string(&merge_label);
            }
            Ok(rest_var)
        }
    }

    /// Compile an `if` arm, which is always a quotation.
    fn compile_branch_quotation(&mut self, quot: &Expr, initial_stack: &String, in_tail: bool)
        -> (r: CodegenResult<(String, bool)>)
        requires
            old(self).wf(),
        ensures
            final(self).wf(),
            text_extends(old(self).out(), final(self).out()),
            text_extends(old(self).globals(), final(self).globals()),
            text_extends(old(self).quots(), final(self).quots()),
            final(self).tags() == old(self).tags(),
        decreases *quot, 9int,
    {
        match quot {
            Expr::Quotation(exprs, _loc) => self.compile_expr_sequence(exprs, initial_stack,
                in_tail),
            _ => Err(CodegenError::InternalError(String::from_str(
                "If branches must be quotations",
            ))),
        }
    }

    /// The main output emitted so far.
    pub fn emit_ir(&self) -> (r: String)
        ensures
            r@ == self.out(),
    {
        clone_string(&self.output)
    }
}

} // verus!
