//! The bidirectional stack-effect type checker.
//!
//! `spec_check_program` gives the meaning of checking exactly: each word
//! body is folded over the declared input stack, word calls consume and
//! produce through unification against their effects, matches are checked
//! for exhaustiveness and branch agreement, and the first failure is
//! reported.

use vstd::prelude::*;
use crate::types::{Type, TypeV, Effect, EffectV, StackType, StackTypeV, ty_v, eff_v, stk_v,
    tys_v, lemma_tys_v_len, lemma_tys_v_push, clone_string};
use crate::ast::{Expr, ExprV, MatchBranch, BranchV, Pattern, Program, WordDef, WordDefV,
    VariantV, Variant, TypeDefV, ProgramV, expr_v, exprs_v, branch_v, branches_v,
    lemma_exprs_v_len, lemma_branches_v_len, lemma_variants_v_len, lemma_strings_v_len,
    worddef_v, typedef_v, variants_v, strings_v, clone_typedef, clone_variant};
use crate::environment::{Environment, EnvV, spec_add_type};
use crate::errors::{TypeError, TypeResult, ErrV};
use crate::unification::{Substitution, unify_types, unify_types_with_subst, unify_stack_types,
    spec_unify, spec_unify_stacks, UNIFY_FUEL};
use crate::shim::str_eq;

verus! {

/// A length clamped to the machine word; a stack of more elements than
/// the machine can address cannot exist.
pub open spec fn sat_len(n: int) -> int {
    if n > usize::MAX {
        usize::MAX as int
    } else {
        n
    }
}

/// The depth a word call sees: the number of items when the stack has no
/// row tail, and zero when it does (depth is undefined below a row
/// variable).
pub open spec fn used_depth(s: StackTypeV) -> int {
    if s.row is None {
        sat_len(s.tys.len() as int)
    } else {
        0
    }
}

/// A type with a substitution applied: bound variables are replaced,
/// named types are mapped over their arguments, and quotation effects are
/// left as they are.
pub open spec fn apply_ty(t: TypeV, ts: Map<Seq<char>, TypeV>) -> TypeV
    decreases t,
{
    match t {
        TypeV::Var(n) => if ts.contains_key(n) {
            ts[n]
        } else {
            t
        },
        TypeV::Named { name, args } => TypeV::Named { name, args: apply_tys(args, ts) },
        _ => t,
    }
}

/// A type sequence with a substitution applied.
pub open spec fn apply_tys(ts0: Seq<TypeV>, ts: Map<Seq<char>, TypeV>) -> Seq<TypeV>
    decreases ts0,
{
    if ts0.len() == 0 {
        Seq::empty()
    } else {
        seq![apply_ty(ts0[0], ts)] + apply_tys(ts0.drop_first(), ts)
    }
}

/// A stack type with a type substitution applied; row variables stay.
pub open spec fn apply_stack(s: StackTypeV, ts: Map<Seq<char>, TypeV>) -> StackTypeV {
    StackTypeV { row: s.row, tys: apply_tys(s.tys, ts) }
}

/// Unifying the popped stack items with the effect's inputs, one pair at
/// a time from the top, under one growing substitution; a failure reports
/// the index of the first offending pair (counted from the top).
pub open spec fn spec_unify_pairs(
    stys: Seq<TypeV>,
    itys: Seq<TypeV>,
    n: int,
    j: int,
    s: Map<Seq<char>, TypeV>,
) -> Result<Map<Seq<char>, TypeV>, int>
    decreases n - j,
{
    if j < 0 || j >= n {
        Ok(s)
    } else {
        match spec_unify(
            stys[stys.len() - 1 - j],
            itys[itys.len() - 1 - j],
            s,
            UNIFY_FUEL as nat,
        ) {
            Ok(s2) => spec_unify_pairs(stys, itys, n, j + 1, s2),
            Err(_) => Err(j),
        }
    }
}

/// What a word call does to the stack: the top `depth(inputs)` items are
/// split off and unified pairwise with the effect's inputs, and the
/// outputs, under the resulting substitution, take their place. Too few
/// items is a stack underflow; an argument whose type does not unify with
/// the input it feeds is a type mismatch naming both types.
pub open spec fn spec_apply_effect(eff: EffectV, stack: StackTypeV, wname: Seq<char>) -> Result<
    StackTypeV,
    ErrV,
> {
    let ind = used_depth(eff.ins);
    let have = used_depth(stack);
    if have < ind {
        Err(ErrV::StackUnderflow { word: wname, required: ind, available: have })
    } else if eff.ins.row is None {
        match spec_unify_pairs(stack.tys, eff.ins.tys, ind, 0, Map::empty()) {
            Err(j) => Err(ErrV::TypeMismatch {
                expected: eff.ins.tys[eff.ins.tys.len() - 1 - j],
                actual: stack.tys[stack.tys.len() - 1 - j],
            }),
            Ok(ts) => Ok(
                StackTypeV {
                    row: stack.row,
                    tys: stack.tys.take(stack.tys.len() - ind) + apply_tys(eff.outs.tys, ts),
                },
            ),
        }
    } else {
        // Inputs ending in a row variable (never produced by the parser):
        // unify the stacks whole.
        let consumed = StackTypeV { row: None, tys: stack.tys.skip(stack.tys.len() - ind) };
        match spec_unify_stacks(consumed, eff.ins, Map::empty(), Map::empty(), UNIFY_FUEL as nat) {
            Err(_) => Err(ErrV::Other),
            Ok((ts, _)) => Ok(
                StackTypeV {
                    row: stack.row,
                    tys: stack.tys.take(stack.tys.len() - ind) + apply_tys(eff.outs.tys, ts),
                },
            ),
        }
    }
}

/// The stack a match branch starts from: the scrutinee's fields pushed
/// onto the rest of the stack, first field deepest.
pub open spec fn push_fields(rest: StackTypeV, fields: Seq<TypeV>) -> StackTypeV {
    StackTypeV { row: rest.row, tys: rest.tys + fields }
}

/// The first variant with this name, from `i` on, or -1.
pub open spec fn find_variant(variants: Seq<VariantV>, name: Seq<char>, i: int) -> int
    decreases variants.len() - i,
{
    if i < 0 || i >= variants.len() {
        -1
    } else if variants[i].name == name {
        i
    } else {
        find_variant(variants, name, i + 1)
    }
}

/// Whether some branch covers the variant name.
pub open spec fn covered(branches: Seq<BranchV>, name: Seq<char>) -> bool {
    exists|i: int| 0 <= i < branches.len() && (#[trigger] branches[i]).pattern == name
}

/// The names of the variants, from `i` on, that no branch covers.
pub open spec fn spec_missing(variants: Seq<VariantV>, branches: Seq<BranchV>, i: int) -> Seq<
    Seq<char>,
>
    decreases variants.len() - i,
{
    if i < 0 || i >= variants.len() {
        Seq::empty()
    } else if covered(branches, variants[i].name) {
        spec_missing(variants, branches, i + 1)
    } else {
        seq![variants[i].name] + spec_missing(variants, branches, i + 1)
    }
}

/// Checking one expression against a stack.
pub open spec fn spec_check_expr(env: EnvV, e: ExprV, stack: StackTypeV) -> Result<
    StackTypeV,
    ErrV,
>
    decreases e, 0int,
{
    match e {
        ExprV::IntLit(_, _) => Ok(stack.push(TypeV::Int)),
        ExprV::BoolLit(_, _) => Ok(stack.push(TypeV::Bool)),
        ExprV::StringLit(_, _) => Ok(stack.push(TypeV::Str)),
        ExprV::WordCall(name, _) => if !env.words.contains_key(name) {
            Err(ErrV::UndefinedWord { name })
        } else {
            spec_apply_effect(env.words[name], stack, name)
        },
        ExprV::Quotation(_, _) => Ok(
            stack.push(
                TypeV::Quot(EffectV { ins: StackTypeV::empty(), outs: StackTypeV::empty() }),
            ),
        ),
        ExprV::Match { branches, .. } => spec_check_match(env, branches, stack),
        ExprV::If { then_branch, else_branch, .. } => {
            if stack.tys.len() == 0 {
                Err(ErrV::StackUnderflow { word: "if"@, required: 1, available: 0 })
            } else {
                let cond = stack.tys.last();
                let rest = StackTypeV { row: stack.row, tys: stack.tys.drop_last() };
                if spec_unify(cond, TypeV::Bool, Map::empty(), UNIFY_FUEL as nat) is Err {
                    Err(ErrV::TypeMismatch { expected: TypeV::Bool, actual: cond })
                } else {
                    match spec_check_exprs(env, then_branch, rest) {
                        Err(e1) => Err(e1),
                        Ok(then_stack) => match spec_check_exprs(env, else_branch, rest) {
                            Err(e2) => Err(e2),
                            Ok(else_stack) => {
                                if spec_unify_stacks(
                                    then_stack,
                                    else_stack,
                                    Map::empty(),
                                    Map::empty(),
                                    UNIFY_FUEL as nat,
                                ) is Err {
                                    Err(ErrV::Other)
                                } else {
                                    Ok(then_stack)
                                }
                            },
                        },
                    }
                }
            }
        },
    }
}

/// Checking a one-expression sequence is checking the expression.
pub proof fn lemma_check_exprs_one(env: EnvV, x: ExprV, s: StackTypeV)
    ensures
        spec_check_exprs(env, seq![x], s) == spec_check_expr(env, x, s),
{
    let one = seq![x];
    assert(one[0] == x);
    assert(one.drop_first() =~= Seq::<ExprV>::empty());
    match spec_check_expr(env, x, s) {
        Ok(s2) => {
            assert(spec_check_exprs(env, one.drop_first(), s2) == Ok::<_, ErrV>(s2));
        },
        Err(_) => {},
    }
}

/// Checking a sequence of expressions, folding the stack through.
pub open spec fn spec_check_exprs(env: EnvV, es: Seq<ExprV>, stack: StackTypeV) -> Result<
    StackTypeV,
    ErrV,
>
    decreases es, 0int,
{
    if es.len() == 0 {
        Ok(stack)
    } else {
        match spec_check_expr(env, es[0], stack) {
            Ok(s2) => spec_check_exprs(env, es.drop_first(), s2),
            Err(e) => Err(e),
        }
    }
}

/// The stack a branch produces: its variant's fields pushed onto the
/// rest, then its body checked.
pub open spec fn spec_branch_stack(
    env: EnvV,
    b: BranchV,
    variants: Seq<VariantV>,
    rest: StackTypeV,
) -> Result<StackTypeV, ErrV>
    decreases b, 0int,
{
    let vi = find_variant(variants, b.pattern, 0);
    if vi < 0 {
        Err(ErrV::Other)
    } else {
        spec_check_exprs(env, b.body, push_fields(rest, variants[vi].fields))
    }
}

/// The stacks the branches from `i` on produce, in order; the first
/// failure wins.
pub open spec fn spec_branch_results(
    env: EnvV,
    branches: Seq<BranchV>,
    variants: Seq<VariantV>,
    rest: StackTypeV,
    i: int,
) -> Result<Seq<StackTypeV>, ErrV>
    decreases branches, branches.len() - i,
{
    if i < 0 || i >= branches.len() {
        Ok(Seq::empty())
    } else {
        match spec_branch_stack(env, branches[i], variants, rest) {
            Err(e) => Err(e),
            Ok(s) => match spec_branch_results(env, branches, variants, rest, i + 1) {
                Err(e) => Err(e),
                Ok(ss) => Ok(seq![s] + ss),
            },
        }
    }
}

/// The stacks of branches `lo` to `hi`, all assumed to succeed.
pub open spec fn branch_oks(
    env: EnvV,
    branches: Seq<BranchV>,
    variants: Seq<VariantV>,
    rest: StackTypeV,
    lo: int,
    hi: int,
) -> Seq<StackTypeV> {
    Seq::new((hi - lo) as nat, |j: int| spec_branch_stack(env, branches[lo + j], variants, rest)->Ok_0)
}

/// When the branches before `i` all succeed, the full result is their
/// stacks followed by whatever the rest produces.
#[verifier::rlimit(50)]
proof fn lemma_branch_results_split(
    env: EnvV,
    branches: Seq<BranchV>,
    variants: Seq<VariantV>,
    rest: StackTypeV,
    lo: int,
    i: int,
)
    requires
        0 <= lo <= i <= branches.len(),
        forall|j: int| lo <= j < i ==> spec_branch_stack(env, #[trigger] branches[j], variants,
            rest) is Ok,
    ensures
        match spec_branch_results(env, branches, variants, rest, i) {
            Ok(suffix) => spec_branch_results(env, branches, variants, rest, lo) == Ok::<_, ErrV>(
                branch_oks(env, branches, variants, rest, lo, i) + suffix,
            ),
            Err(e) => spec_branch_results(env, branches, variants, rest, lo) == Err::<
                Seq<StackTypeV>,
                _,
            >(e),
        },
    decreases i - lo,
{
    if lo == i {
        match spec_branch_results(env, branches, variants, rest, i) {
            Ok(suffix) => {
                assert(branch_oks(env, branches, variants, rest, lo, i) + suffix =~= suffix);
            },
            Err(_) => {},
        }
    } else {
        lemma_branch_results_split(env, branches, variants, rest, lo + 1, i);
        let s0 = spec_branch_stack(env, branches[lo], variants, rest)->Ok_0;
        match spec_branch_results(env, branches, variants, rest, i) {
            Ok(suffix) => {
                assert(seq![s0] + (branch_oks(env, branches, variants, rest, lo + 1, i) + suffix)
                    =~= branch_oks(env, branches, variants, rest, lo, i) + suffix);
            },
            Err(_) => {},
        }
    }
}

/// The first branch, from `i` on, whose stack does not unify with the
/// first branch's, or -1 when they all agree.
pub open spec fn first_disagreement(results: Seq<StackTypeV>, i: int) -> int
    decreases results.len() - i,
{
    if i < 1 || i >= results.len() {
        -1
    } else if spec_unify_stacks(
        results[0],
        results[i],
        Map::empty(),
        Map::empty(),
        UNIFY_FUEL as nat,
    ) is Err {
        i
    } else {
        first_disagreement(results, i + 1)
    }
}

/// Checking a pattern match: pop the scrutinee, which must be a named
/// type with a definition; every variant must be covered by a branch,
/// else the missing names are reported; every branch starts from the rest
/// of the stack with its variant's fields pushed; and all branches must
/// produce stacks that unify with the first branch's, which is the
/// result.
pub open spec fn spec_check_match(env: EnvV, branches: Seq<BranchV>, stack: StackTypeV) -> Result<
    StackTypeV,
    ErrV,
>
    decreases branches, branches.len() + 1,
{
    if branches.len() == 0 {
        Err(ErrV::Other)
    } else if stack.tys.len() == 0 {
        Err(ErrV::StackUnderflow { word: "match"@, required: 1, available: 0 })
    } else {
        let scrut = stack.tys.last();
        let rest = StackTypeV { row: stack.row, tys: stack.tys.drop_last() };
        match scrut {
            TypeV::Named { name: tn, args: _ } => {
                if !env.types.contains_key(tn) {
                    Err(ErrV::UndefinedType { name: tn })
                } else {
                    let variants = env.types[tn].variants;
                    let missing = spec_missing(variants, branches, 0);
                    if missing.len() > 0 {
                        Err(ErrV::NonExhaustiveMatch { ty_name: tn, missing_variants: missing })
                    } else {
                        match spec_branch_results(env, branches, variants, rest, 0) {
                            Err(e) => Err(e),
                            Ok(results) => {
                                let d = first_disagreement(results, 1);
                                if d >= 0 {
                                    Err(ErrV::InconsistentBranchEffects {
                                        ty_name: tn,
                                        expected: EffectV { ins: rest, outs: results[0] },
                                        actual: EffectV { ins: rest, outs: results[d] },
                                    })
                                } else {
                                    Ok(results[0])
                                }
                            },
                        }
                    }
                }
            },
            _ => Err(ErrV::Other),
        }
    }
}

/// Checking one word definition: the body folded from the declared
/// inputs must unify with the declared outputs.
pub open spec fn spec_check_word(env: EnvV, w: WordDefV) -> Result<(), ErrV> {
    match spec_check_exprs(env, w.body, w.effect.ins) {
        Err(e) => Err(e),
        Ok(final_stack) => {
            if spec_unify_stacks(
                final_stack,
                w.effect.outs,
                Map::empty(),
                Map::empty(),
                UNIFY_FUEL as nat,
            ) is Err {
                Err(ErrV::EffectMismatch {
                    expected: w.effect,
                    actual: EffectV { ins: w.effect.ins, outs: final_stack },
                    word: w.name,
                })
            } else {
                Ok(())
            }
        },
    }
}

/// Checking the words from `i` on, each added to the environment after
/// it checks.
pub open spec fn spec_check_words(env: EnvV, words: Seq<WordDefV>, i: int) -> Result<EnvV, ErrV>
    decreases words.len() - i,
{
    if i < 0 || i >= words.len() {
        Ok(env)
    } else {
        match spec_check_word(env, words[i]) {
            Err(e) => Err(e),
            Ok(_) => spec_check_words(
                EnvV { words: env.words.insert(words[i].name, words[i].effect), types: env.types },
                words,
                i + 1,
            ),
        }
    }
}

/// The environment after registering the type definitions from `i` on.
pub open spec fn spec_add_types(env: EnvV, tds: Seq<TypeDefV>, i: int) -> EnvV
    decreases tds.len() - i,
{
    if i < 0 || i >= tds.len() {
        env
    } else {
        spec_add_types(spec_add_type(env, tds[i]), tds, i + 1)
    }
}

/// Checking a program: all type definitions are registered first, then
/// every word definition is checked in order.
pub open spec fn spec_check_program(env: EnvV, p: ProgramV) -> Result<EnvV, ErrV> {
    spec_check_words(spec_add_types(env, p.type_defs, 0), p.word_defs, 0)
}

/// The clamped depth of a stack type, or `None` below a row variable.
fn sat_depth(st: &StackType) -> (r: Option<usize>)
    ensures
        match r {
            Some(d) => st@.row is None && d as int == sat_len(st@.tys.len() as int),
            None => st@.row is Some,
        },
    decreases *st,
{
    match st {
        StackType::Empty => Some(0),
        StackType::RowVar(_) => None,
        StackType::Cons { rest, .. } => match sat_depth(rest) {
            None => None,
            Some(d) => {
                if d < usize::MAX {
                    Some(d + 1)
                } else {
                    Some(d)
                }
            },
        },
    }
}

/// The top `n` types of a stack type, topmost first.
fn top_types(st: &StackType, n: usize) -> (r: Vec<Type>)
    requires
        n as int <= st@.tys.len(),
    ensures
        r@.len() == n,
        forall|j: int| 0 <= j < n ==> ty_v(#[trigger] r@[j]) == st@.tys[st@.tys.len() - 1 - j],
{
    let mut r: Vec<Type> = Vec::new();
    let mut cur: &StackType = st;
    let mut j: usize = 0;
    proof {
        assert(st@.tys.take(st@.tys.len() as int) =~= st@.tys);
    }
    while j < n
        invariant
            j <= n,
            n as int <= st@.tys.len(),
            r@.len() == j,
            forall|m: int| 0 <= m < j ==> ty_v(#[trigger] r@[m]) == st@.tys[st@.tys.len() - 1 - m],
            cur@.tys == st@.tys.take(st@.tys.len() - j),
        decreases n - j,
    {
        match cur {
            StackType::Cons { rest, top } => {
                proof {
                    assert(cur@.tys == rest@.tys.push(ty_v(*top)));
                    assert(rest@.tys =~= st@.tys.take(st@.tys.len() - (j + 1)));
                    assert(cur@.tys.last() == ty_v(*top));
                    assert(st@.tys.take(st@.tys.len() - j).last() == st@.tys[st@.tys.len() - 1
                        - j]);
                }
                r.push(top.clone_deep());
                cur = rest;
            },
            StackType::Empty => {
                proof {
                    assert(cur@.tys.len() == 0);
                    assert(false);
                }
                return r;
            },
            StackType::RowVar(_) => {
                proof {
                    assert(cur@.tys.len() == 0);
                    assert(false);
                }
                return r;
            },
        }
        j = j + 1;
    }
    r
}

/// The first variant with this name.
fn find_variant_idx(variants: &Vec<Variant>, name: &str) -> (r: Option<usize>)
    ensures
        match r {
            Some(i) => i < variants@.len() && find_variant(variants_v(variants@), name@, 0)
                == i as int,
            None => find_variant(variants_v(variants@), name@, 0) == -1,
        },
{
    let ghost vs_v = variants_v(variants@);
    proof {
        lemma_variants_v_len(variants@);
    }
    let mut i: usize = 0;
    while i < variants.len()
        invariant
            i <= variants@.len(),
            vs_v == variants_v(variants@),
            vs_v.len() == variants@.len(),
            forall|j: int| 0 <= j < variants@.len() ==> vs_v[j] == variants@[j]@,
            find_variant(vs_v, name@, 0) == find_variant(vs_v, name@, i as int),
        decreases variants@.len() - i,
    {
        if str_eq(variants[i].name.as_str(), name) {
            return Some(i);
        }
        i = i + 1;
    }
    None
}

/// Whether some branch names this variant.
fn branch_covers(branches: &Vec<MatchBranch>, name: &str) -> (r: bool)
    ensures
        r == covered(branches_v(branches@), name@),
{
    let ghost bs_v = branches_v(branches@);
    proof {
        lemma_branches_v_len(branches@);
    }
    let mut b: usize = 0;
    while b < branches.len()
        invariant
            b <= branches@.len(),
            bs_v == branches_v(branches@),
            bs_v.len() == branches@.len(),
            forall|j: int| 0 <= j < branches@.len() ==> bs_v[j] == branch_v(branches@[j]),
            forall|j: int| 0 <= j < b ==> (#[trigger] bs_v[j]).pattern != name@,
        decreases branches@.len() - b,
    {
        let bname: &String = match &branches[b].pattern {
            Pattern::Variant { name: n } => n,
        };
        if str_eq(bname.as_str(), name) {
            proof {
                assert(bs_v[b as int].pattern == name@);
            }
            return true;
        }
        b = b + 1;
    }
    proof {
        assert(!covered(bs_v, name@));
    }
    false
}

/// The names of the variants no branch covers, in declaration order.
fn missing_variants(variants: &Vec<Variant>, branches: &Vec<MatchBranch>) -> (r: Vec<String>)
    ensures
        strings_v(r@) == spec_missing(variants_v(variants@), branches_v(branches@), 0),
{
    let ghost vs_v = variants_v(variants@);
    let ghost bs_v = branches_v(branches@);
    proof {
        lemma_variants_v_len(variants@);
    }
    let mut r: Vec<String> = Vec::new();
    let mut i: usize = 0;
    proof {
        lemma_strings_v_len(r@);
        assert(strings_v(r@) + spec_missing(vs_v, bs_v, 0) =~= spec_missing(vs_v, bs_v, 0));
    }
    while i < variants.len()
        invariant
            i <= variants@.len(),
            vs_v == variants_v(variants@),
            bs_v == branches_v(branches@),
            vs_v.len() == variants@.len(),
            forall|j: int| 0 <= j < variants@.len() ==> vs_v[j] == variants@[j]@,
            spec_missing(vs_v, bs_v, 0) == strings_v(r@) + spec_missing(vs_v, bs_v, i as int),
        decreases variants@.len() - i,
    {
        let cov = branch_covers(branches, variants[i].name.as_str());
        if !cov {
            let ghost before = r@;
            r.push(clone_string(&variants[i].name));
            proof {
                lemma_strings_v_len(before);
                lemma_strings_v_len(r@);
                assert(strings_v(r@) =~= strings_v(before).push(vs_v[i as int].name));
                assert(strings_v(before) + spec_missing(vs_v, bs_v, i as int) =~= strings_v(r@)
                    + spec_missing(vs_v, bs_v, i + 1));
            }
        }
        i = i + 1;
    }
    proof {
        assert(strings_v(r@) + spec_missing(vs_v, bs_v, variants@.len() as int) =~= strings_v(r@));
    }
    r
}

/// Deep copies of the variants.
fn clone_variants(vs: &Vec<Variant>) -> (r: Vec<Variant>)
    ensures
        variants_v(r@) == variants_v(vs@),
{
    proof {
        lemma_variants_v_len(vs@);
    }
    let mut r: Vec<Variant> = Vec::new();
    let mut i: usize = 0;
    while i < vs.len()
        invariant
            i <= vs@.len(),
            r@.len() == i,
            forall|j: int| 0 <= j < i ==> (#[trigger] r@[j])@ == vs@[j]@,
        decreases vs@.len() - i,
    {
        r.push(clone_variant(&vs[i]));
        i = i + 1;
    }
    proof {
        lemma_variants_v_len(r@);
        lemma_variants_v_len(vs@);
        assert(variants_v(r@) =~= variants_v(vs@));
    }
    r
}

/// A stack type with a type substitution applied, as `apply_stack`
/// describes.
fn apply_type_substitution(stack: &StackType, subst: &Substitution) -> (r: StackType)
    ensures
        r@ == apply_stack(stack@, subst@),
    decreases *stack,
{
    match stack {
        StackType::Empty => StackType::Empty,
        StackType::RowVar(name) => StackType::RowVar(clone_string(name)),
        StackType::Cons { rest, top } => {
            let new_rest = apply_type_substitution(rest, subst);
            let new_top = apply_type_subst_to_type(top, subst);
            proof {
                lemma_apply_tys_len(rest@.tys, subst@);
                lemma_apply_tys_len(stack@.tys, subst@);
                assert(apply_stack(stack@, subst@).tys =~= apply_stack(rest@, subst@).tys.push(
                    apply_ty(ty_v(*top), subst@),
                ));
            }
            new_rest.push(new_top)
        },
    }
}

/// A type with a type substitution applied, as `apply_ty` describes.
fn apply_type_subst_to_type(ty: &Type, subst: &Substitution) -> (r: Type)
    ensures
        r@ == apply_ty(ty@, subst@),
    decreases *ty,
{
    match ty {
        Type::Var(name) => {
            let found: Option<Type> = match subst.get(name.as_str()) {
                Some(t) => Some(t.clone_deep()),
                None => None,
            };
            match found {
                Some(t) => t,
                None => Type::Var(clone_string(name)),
            }
        },
        Type::Named { name, args } => {
            let new_args = apply_subst_to_args(args, subst);
            Type::Named { name: clone_string(name), args: new_args }
        },
        Type::Quotation(e) => Type::Quotation(Box::new(e.clone_deep())),
        Type::Int => Type::Int,
        Type::Bool => Type::Bool,
        Type::String => Type::String,
    }
}

/// Each type argument with the substitution applied.
fn apply_subst_to_args(args: &Vec<Type>, subst: &Substitution) -> (r: Vec<Type>)
    ensures
        tys_v(r@) == apply_tys(tys_v(args@), subst@),
    decreases args@,
{
    let mut new_args: Vec<Type> = Vec::new();
    let mut i: usize = 0;
    proof {
        lemma_tys_v_len(args@);
    }
    while i < args.len()
        invariant
            i <= args@.len(),
            tys_v(args@).len() == args@.len(),
            forall|j: int| 0 <= j < args@.len() ==> tys_v(args@)[j] == ty_v(args@[j]),
            new_args@.len() == i,
            forall|j: int|
                0 <= j < i ==> ty_v(#[trigger] new_args@[j]) == apply_ty(
                    tys_v(args@)[j],
                    subst@,
                ),
        decreases args@.len() - i,
    {
        let a = apply_type_subst_to_type(&args[i], subst);
        new_args.push(a);
        i = i + 1;
    }
    proof {
        lemma_tys_v_len(new_args@);
        lemma_apply_tys_len(tys_v(args@), subst@);
        assert(tys_v(new_args@) =~= apply_tys(tys_v(args@), subst@));
    }
    new_args
}

/// Facts about `apply_tys`: length and elements.
pub proof fn lemma_apply_tys_len(ts0: Seq<TypeV>, ts: Map<Seq<char>, TypeV>)
    ensures
        apply_tys(ts0, ts).len() == ts0.len(),
        forall|i: int| 0 <= i < ts0.len() ==> apply_tys(ts0, ts)[i] == apply_ty(ts0[i], ts),
    decreases ts0,
{
    if ts0.len() > 0 {
        lemma_apply_tys_len(ts0.drop_first(), ts);
    }
}

/// The main type checker: an environment seeded with the built-ins.
pub struct TypeChecker {
    env: Environment,
}

impl TypeChecker {
    /// The checker's environment model.
    pub closed spec fn view(&self) -> EnvV {
        self.env@
    }

    /// A checker over the built-in environment.
    pub fn new() -> (r: TypeChecker)
        ensures
            r@ == crate::environment::builtin_env(),
    {
        TypeChecker { env: Environment::new() }
    }

    /// Type check a complete program, as `spec_check_program` describes:
    /// type definitions are registered first, then each word is checked
    /// and added to the environment.
    pub fn check_program(&mut self, program: &Program) -> (r: TypeResult<()>)
        ensures
            match r {
                Ok(_) => spec_check_program(old(self)@, program@) == Ok::<_, ErrV>(final(self)@),
                Err(e) => spec_check_program(old(self)@, program@) == Err::<EnvV, _>(e@),
            },
    {
        let ghost env0 = self@;
        let ghost tds_v = program@.type_defs;
        let ghost ws_v = program@.word_defs;
        let mut i: usize = 0;
        while i < program.type_defs.len()
            invariant
                i <= program.type_defs@.len(),
                tds_v == program@.type_defs,
                tds_v.len() == program.type_defs@.len(),
                forall|j: int|
                    0 <= j < program.type_defs@.len() ==> tds_v[j] == typedef_v(
                        #[trigger] program.type_defs@[j],
                    ),
                env0 == old(self)@,
                spec_add_types(env0, tds_v, 0) == spec_add_types(self@, tds_v, i as int),
            decreases program.type_defs@.len() - i,
        {
            let td = clone_typedef(&program.type_defs[i]);
            self.env.add_type(td);
            i = i + 1;
        }

        let ghost env1 = self@;
        proof {
            assert(spec_add_types(self@, tds_v, tds_v.len() as int) == self@);
        }
        let mut k: usize = 0;
        while k < program.word_defs.len()
            invariant
                k <= program.word_defs@.len(),
                ws_v == program@.word_defs,
                ws_v.len() == program.word_defs@.len(),
                forall|j: int|
                    0 <= j < program.word_defs@.len() ==> ws_v[j] == worddef_v(
                        #[trigger] program.word_defs@[j],
                    ),
                env1 == spec_add_types(env0, program@.type_defs, 0),
                env0 == old(self)@,
                tds_v == program@.type_defs,
                spec_check_words(env1, ws_v, 0) == spec_check_words(self@, ws_v, k as int),
            decreases program.word_defs@.len() - k,
        {
            let word = &program.word_defs[k];
            match self.check_word_def(word) {
                Ok(_) => {},
                Err(e) => {
                    return Err(e);
                },
            }
            k = k + 1;
        }
        Ok(())
    }

    /// Check one word definition and add it to the environment.
    fn check_word_def(&mut self, word: &WordDef) -> (r: TypeResult<()>)
        ensures
            match r {
                Ok(_) => spec_check_word(old(self)@, word@) is Ok && final(self)@ == (EnvV {
                    words: old(self)@.words.insert(word@.name, word@.effect),
                    types: old(self)@.types,
                }),
                Err(e) => spec_check_word(old(self)@, word@) == Err::<(), _>(e@) && final(self)@
                    == old(self)@,
            },
    {
        let current_stack = word.effect.inputs.clone_deep();
        let folded = self.check_exprs(&word.body, current_stack);
        let final_stack = match folded {
            Ok(s) => s,
            Err(e) => {
                return Err(e);
            },
        };

        let unified = unify_stack_types(&final_stack, &word.effect.outputs);
        match unified {
            Ok(_) => {},
            Err(_) => {
                return Err(Box::new(TypeError::EffectMismatch {
                    expected: word.effect.clone_deep(),
                    actual: Effect {
                        inputs: word.effect.inputs.clone_deep(),
                        outputs: final_stack,
                    },
                    word: clone_string(&word.name),
                }));
            },
        }

        self.env.add_word(clone_string(&word.name), word.effect.clone_deep());
        Ok(())
    }

    /// Fold a sequence of expressions over a stack, as `spec_check_exprs`
    /// describes.
    fn check_exprs(&self, exprs: &Vec<Expr>, stack: StackType) -> (r: TypeResult<StackType>)
        ensures
            match r {
                Ok(s) => spec_check_exprs(self@, exprs_v(exprs@), stack@) == Ok::<_, ErrV>(s@),
                Err(e) => spec_check_exprs(self@, exprs_v(exprs@), stack@) == Err::<StackTypeV, _>(
                    e@,
                ),
            },
        decreases exprs@, 0int,
    {
        let ghost es_v = exprs_v(exprs@);
        let ghost s0 = stack@;
        proof {
            lemma_exprs_v_len(exprs@);
            assert(es_v.skip(0) =~= es_v);
        }
        let mut cur = stack;
        let mut i: usize = 0;
        while i < exprs.len()
            invariant
                i <= exprs@.len(),
                es_v == exprs_v(exprs@),
                es_v.len() == exprs@.len(),
                forall|j: int| 0 <= j < exprs@.len() ==> es_v[j] == expr_v(exprs@[j]),
                s0 == stack@,
                spec_check_exprs(self@, es_v, s0) == spec_check_exprs(
                    self@,
                    es_v.skip(i as int),
                    cur@,
                ),
            decreases exprs@.len() - i,
        {
            proof {
                assert(es_v.skip(i as int)[0] == es_v[i as int]);
                assert(es_v.skip(i as int).drop_first() =~= es_v.skip(i + 1));
            }
            let next = self.check_expr(&exprs[i], cur);
            match next {
                Ok(s) => {
                    cur = s;
                },
                Err(e) => {
                    return Err(e);
                },
            }
            i = i + 1;
        }
        proof {
            assert(es_v.skip(exprs@.len() as int).len() == 0);
        }
        Ok(cur)
    }

    /// Type check one expression against a stack, as `spec_check_expr`
    /// describes.
    pub fn check_expr(&self, expr: &Expr, stack: StackType) -> (r: TypeResult<StackType>)
        ensures
            match r {
                Ok(s) => spec_check_expr(self@, expr@, stack@) == Ok::<_, ErrV>(s@),
                Err(e) => spec_check_expr(self@, expr@, stack@) == Err::<StackTypeV, _>(e@),
            },
        decreases *expr, 0int,
    {
        match expr {
            Expr::IntLit(_, _) => Ok(stack.push(Type::Int)),
            Expr::BoolLit(_, _) => Ok(stack.push(Type::Bool)),
            Expr::StringLit(_, _) => Ok(stack.push(Type::String)),
            Expr::WordCall(name, _) => {
                let found: Option<Effect> = match self.env.lookup_word(name.as_str()) {
                    Some(e) => Some(e.clone_deep()),
                    None => None,
                };
                match found {
                    None => Err(Box::new(TypeError::UndefinedWord { name: clone_string(name) })),
                    Some(effect) => self.apply_effect(&effect, stack, name),
                }
            },
            Expr::Quotation(_, _) => {
                let quotation_effect = Effect::new(StackType::empty(), StackType::empty());
                let r = stack.push(Type::Quotation(Box::new(quotation_effect)));
                Ok(r)
            },
            Expr::Match { branches, .. } => self.check_match(branches, stack),
            Expr::If { then_branch, else_branch, .. } => {
                let popped = stack.pop();
                match popped {
                    None => Err(Box::new(TypeError::StackUnderflow {
                        word: String::from_str("if"),
                        required: 1,
                        available: 0,
                    })),
                    Some((stack_after_cond, cond_type)) => {
                        let cond_ok = unify_types(&cond_type, &Type::Bool);
                        match cond_ok {
                            Err(_) => Err(Box::new(TypeError::TypeMismatch {
                                expected: Type::Bool,
                                actual: cond_type,
                                context: String::from_str("if condition"),
                            })),
                            Ok(_) => {
                                proof {
                                    lemma_check_exprs_one(self@, then_branch@, stack_after_cond@);
                                    lemma_check_exprs_one(self@, else_branch@, stack_after_cond@);
                                }
                                let then_r = self.check_expr(
                                    then_branch,
                                    stack_after_cond.clone_deep(),
                                );
                                match then_r {
                                    Err(e) => Err(e),
                                    Ok(then_stack) => {
                                        let else_r = self.check_expr(else_branch, stack_after_cond);
                                        match else_r {
                                            Err(e) => Err(e),
                                            Ok(else_stack) => {
                                                let agree = unify_stack_types(
                                                    &then_stack,
                                                    &else_stack,
                                                );
                                                match agree {
                                                    Err(_) => Err(Box::new(TypeError::Other {
                                                        message: String::from_str(
                                                            "if branches produce incompatible stack effects",
                                                        ),
                                                    })),
                                                    Ok(_) => Ok(then_stack),
                                                }
                                            },
                                        }
                                    },
                                }
                            },
                        }
                    },
                }
            },
        }
    }

    /// Apply a word's effect to the stack, as `spec_apply_effect`
    /// describes.
    fn apply_effect(&self, effect: &Effect, stack: StackType, word_name: &String) -> (r: TypeResult<
        StackType,
    >)
        ensures
            match r {
                Ok(s) => spec_apply_effect(effect@, stack@, word_name@) == Ok::<_, ErrV>(s@),
                Err(e) => spec_apply_effect(effect@, stack@, word_name@) == Err::<StackTypeV, _>(
                    e@,
                ),
            },
    {
        let ins_sat = sat_depth(&effect.inputs);
        let input_depth: usize = match ins_sat {
            Some(d) => d,
            None => 0,
        };
        let stack_depth: usize = match sat_depth(&stack) {
            Some(d) => d,
            None => 0,
        };
        if stack_depth < input_depth {
            return Err(Box::new(TypeError::StackUnderflow {
                word: clone_string(word_name),
                required: input_depth,
                available: stack_depth,
            }));
        }

        // Split the top `input_depth` items off the stack.
        let ghost stack0 = stack@;
        proof {
            if stack0.row is Some {
                assert(used_depth(stack0) == 0);
            }
            assert(input_depth as int <= stack0.tys.len());
        }
        let mut remaining_stack = stack;
        let mut consumed: Vec<Type> = Vec::new();
        let mut i: usize = 0;
        while i < input_depth
            invariant
                i <= input_depth,
                input_depth as int <= stack0.tys.len(),
                remaining_stack@.row == stack0.row,
                remaining_stack@.tys == stack0.tys.take(stack0.tys.len() - i),
                consumed@.len() == i,
                forall|j: int|
                    0 <= j < i ==> ty_v(#[trigger] consumed@[j]) == stack0.tys[stack0.tys.len() - 1
                        - j],
            decreases input_depth - i,
        {
            let popped = remaining_stack.pop();
            match popped {
                Some((rest, top)) => {
                    consumed.push(top);
                    remaining_stack = rest;
                    proof {
                        assert(stack0.tys.take(stack0.tys.len() - i as int).drop_last()
                            =~= stack0.tys.take(stack0.tys.len() - (i + 1)));
                    }
                },
                None => {
                    proof {
                        assert(false);
                    }
                    return Err(Box::new(TypeError::StackUnderflow {
                        word: clone_string(word_name),
                        required: input_depth,
                        available: i,
                    }));
                },
            }
            i = i + 1;
        }

        let type_subst: Substitution;
        if ins_sat.is_some() {
            // The inputs are a plain type list: unify each popped item
            // with the input it feeds, topmost pair first; the first
            // failure is a type mismatch naming both types.
            proof {
                assert(effect@.ins.row is None);
                assert(input_depth as int <= effect@.ins.tys.len());
            }
            let ins_tops = top_types(&effect.inputs, input_depth);
            let ghost iv = effect@.ins.tys;
            let mut s = Substitution::new();
            let mut j: usize = 0;
            proof {
                assert(spec_unify_pairs(stack0.tys, iv, input_depth as int, 0, Map::empty())
                    == spec_unify_pairs(stack0.tys, iv, input_depth as int, 0, s@));
            }
            while j < input_depth
                invariant
                    j <= input_depth,
                    stack0 == stack@,
                    iv == effect@.ins.tys,
                    effect@.ins.row is None,
                    used_depth(stack0) >= input_depth,
                    input_depth as int == used_depth(effect@.ins),
                    input_depth as int <= stack0.tys.len(),
                    input_depth as int <= iv.len(),
                    consumed@.len() == input_depth,
                    forall|m: int|
                        0 <= m < input_depth ==> ty_v(#[trigger] consumed@[m])
                            == stack0.tys[stack0.tys.len() - 1 - m],
                    ins_tops@.len() == input_depth,
                    forall|m: int|
                        0 <= m < input_depth ==> ty_v(#[trigger] ins_tops@[m]) == iv[iv.len() - 1
                            - m],
                    spec_unify_pairs(stack0.tys, iv, input_depth as int, 0, Map::empty())
                        == spec_unify_pairs(stack0.tys, iv, input_depth as int, j as int, s@),
                decreases input_depth - j,
            {
                let rr = unify_types_with_subst(&consumed[j], &ins_tops[j], &mut s, UNIFY_FUEL);
                match rr {
                    Ok(_) => {},
                    Err(_) => {
                        proof {
                            assert(spec_unify_pairs(
                                stack0.tys,
                                iv,
                                input_depth as int,
                                0,
                                Map::empty(),
                            ) == Err::<Map<Seq<char>, TypeV>, int>(j as int));
                        }
                        let mut context = String::from_str("argument of '");
                        context.append(word_name.as_str());
                        context.append("'");
                        return Err(Box::new(TypeError::TypeMismatch {
                            expected: ins_tops[j].clone_deep(),
                            actual: consumed[j].clone_deep(),
                            context,
                        }));
                    },
                }
                j = j + 1;
            }
            type_subst = s;
        } else {
            // Inputs ending in a row variable (never produced by the
            // parser): rebuild the consumed prefix and unify the stacks
            // whole.
            let mut consumed_stack = StackType::Empty;
            let mut k: usize = consumed.len();
            while k > 0
                invariant
                    k <= consumed@.len(),
                    consumed@.len() == input_depth,
                    input_depth as int <= stack0.tys.len(),
                    forall|j: int|
                        0 <= j < input_depth ==> ty_v(#[trigger] consumed@[j])
                            == stack0.tys[stack0.tys.len() - 1 - j],
                    consumed_stack@.row is None,
                    consumed_stack@.tys == stack0.tys.skip(stack0.tys.len() - input_depth).take(
                        input_depth - k as int,
                    ),
                decreases k,
            {
                k = k - 1;
                let t = consumed[k].clone_deep();
                proof {
                    assert(stack0.tys.skip(stack0.tys.len() - input_depth).take(
                        input_depth - k as int,
                    ) =~= stack0.tys.skip(stack0.tys.len() - input_depth).take(
                        input_depth - (k + 1),
                    ).push(stack0.tys[stack0.tys.len() - 1 - k]));
                }
                consumed_stack = consumed_stack.push(t);
            }
            proof {
                assert(stack0.tys.skip(stack0.tys.len() - input_depth).take(input_depth as int)
                    =~= stack0.tys.skip(stack0.tys.len() - input_depth));
                assert(consumed_stack@ == (StackTypeV {
                    row: None,
                    tys: stack0.tys.skip(stack0.tys.len() - input_depth),
                }));
            }

            let unified = unify_stack_types(&consumed_stack, &effect.inputs);
            match unified {
                Ok((ts, _)) => {
                    type_subst = ts;
                },
                Err(_) => {
                    let mut message = String::from_str("Cannot apply '");
                    message.append(word_name.as_str());
                    message.append("': input type mismatch");
                    return Err(Box::new(TypeError::Other { message }));
                },
            };
        }

        // Apply the substitution to the outputs, then move them over.
        let new_outputs = apply_type_substitution(&effect.outputs, &type_subst);
        let ghost outs_applied = apply_stack(effect@.outs, type_subst@);
        let mut outputs_vec: Vec<Type> = Vec::new();
        let mut temp = new_outputs;
        proof {
            assert(outs_applied.tys =~= temp@.tys + rev_tys(outputs_vec@));
        }
        while temp.has_top()
            invariant
                outs_applied.tys == temp@.tys + rev_tys(outputs_vec@),
            ensures
                temp@.tys.len() == 0,
                outs_applied.tys == temp@.tys + rev_tys(outputs_vec@),
            decreases temp@.tys.len(),
        {
            let popped = temp.pop();
            match popped {
                Some((rest, top)) => {
                    proof {
                        lemma_rev_tys_push(outputs_vec@, top);
                        assert(temp@.tys + rev_tys(outputs_vec@) =~= rest@.tys + rev_tys(
                            outputs_vec@.push(top),
                        ));
                    }
                    outputs_vec.push(top);
                    temp = rest;
                },
                None => {
                    proof {
                        assert(false);
                    }
                    break;
                },
            }
        }
        proof {
            assert(temp@.tys =~= Seq::<TypeV>::empty());
            assert(outs_applied.tys =~= rev_tys(outputs_vec@));
        }

        let mut result = remaining_stack;
        let mut m: usize = outputs_vec.len();
        proof {
            lemma_rev_tys_len(outputs_vec@);
            assert(result@.tys =~= stack0.tys.take(stack0.tys.len() - input_depth as int)
                + rev_tys(outputs_vec@).take(outputs_vec@.len() - m as int));
        }
        while m > 0
            invariant
                m <= outputs_vec@.len(),
                rev_tys(outputs_vec@).len() == outputs_vec@.len(),
                forall|j: int|
                    0 <= j < outputs_vec@.len() ==> #[trigger] rev_tys(outputs_vec@)[j] == ty_v(
                        outputs_vec@[outputs_vec@.len() - 1 - j],
                    ),
                input_depth as int <= stack0.tys.len(),
                result@.row == stack0.row,
                result@.tys == stack0.tys.take(stack0.tys.len() - input_depth as int) + rev_tys(
                    outputs_vec@,
                ).take(outputs_vec@.len() - m as int),
            decreases m,
        {
            m = m - 1;
            let t = outputs_vec[m].clone_deep();
            proof {
                assert(rev_tys(outputs_vec@)[outputs_vec@.len() - 1 - m as int] == ty_v(
                    outputs_vec@[m as int],
                ));
                assert(rev_tys(outputs_vec@).take(outputs_vec@.len() - m as int) =~= rev_tys(
                    outputs_vec@,
                ).take(outputs_vec@.len() - (m + 1)).push(
                    rev_tys(outputs_vec@)[outputs_vec@.len() - 1 - m],
                ));
            }
            result = result.push(t);
        }
        proof {
            lemma_rev_tys_len(outputs_vec@);
            assert(rev_tys(outputs_vec@).take(outputs_vec@.len() as int) =~= rev_tys(
                outputs_vec@,
            ));
            assert(result@.tys =~= stack0.tys.take(stack0.tys.len() - input_depth as int)
                + outs_applied.tys);
        }
        Ok(result)
    }

    /// Type check a pattern match, as `spec_check_match` describes.
    fn check_match(&self, branches: &Vec<MatchBranch>, stack: StackType) -> (r: TypeResult<
        StackType,
    >)
        ensures
            match r {
                Ok(s) => spec_check_match(self@, branches_v(branches@), stack@) == Ok::<_, ErrV>(
                    s@,
                ),
                Err(e) => spec_check_match(self@, branches_v(branches@), stack@) == Err::<
                    StackTypeV,
                    _,
                >(e@),
            },
        decreases branches@, branches@.len() + 1,
    {
        proof {
            lemma_branches_v_len(branches@);
        }
        if branches.len() == 0 {
            return Err(Box::new(TypeError::Other {
                message: String::from_str("Empty pattern match"),
            }));
        }

        let popped = stack.pop();
        let (stack_after_pop, scrutinee_type) = match popped {
            Some(p) => p,
            None => {
                return Err(Box::new(TypeError::StackUnderflow {
                    word: String::from_str("match"),
                    required: 1,
                    available: 0,
                }));
            },
        };

        let ty_name: String = match &scrutinee_type {
            Type::Named { name, .. } => clone_string(name),
            _ => {
                return Err(Box::new(TypeError::Other {
                    message: String::from_str("Cannot pattern match on non-ADT type"),
                }));
            },
        };

        let variants: Vec<Variant> = match self.env.get_variants(ty_name.as_str()) {
            Some(vs) => clone_variants(vs),
            None => {
                return Err(Box::new(TypeError::UndefinedType { name: ty_name }));
            },
        };
        let ghost vs_v = variants_v(variants@);
        let ghost bs_v = branches_v(branches@);
        let ghost rest_v = stack_after_pop@;
        let ghost scrut_v = stack@.tys.last();

        // Exhaustiveness: every variant must be covered by some branch.
        let missing = missing_variants(&variants, branches);
        if missing.len() > 0 {
            proof {
                lemma_strings_v_len(missing@);
            }
            return Err(Box::new(TypeError::NonExhaustiveMatch {
                ty_name,
                missing_variants: missing,
            }));
        }
        proof {
            lemma_strings_v_len(missing@);
        }

        // Check each branch from the rest of the stack with its
        // variant's fields pushed.
        let mut branch_results: Vec<StackType> = Vec::new();
        let mut i: usize = 0;
        while i < branches.len()
            invariant
                i <= branches@.len(),
                bs_v == branches_v(branches@),
                vs_v == variants_v(variants@),
                rest_v == stack_after_pop@,
                bs_v.len() == branches@.len(),
                bs_v.len() > 0,
                forall|j: int| 0 <= j < branches@.len() ==> bs_v[j] == branch_v(branches@[j]),
                stack@.tys.len() > 0,
                rest_v == (StackTypeV { row: stack@.row, tys: stack@.tys.drop_last() }),
                scrut_v == stack@.tys.last(),
                scrut_v matches TypeV::Named { name: n2, args: _ } && n2 == ty_name@,
                self@.types.contains_key(ty_name@),
                self@.types[ty_name@].variants == vs_v,
                spec_missing(vs_v, bs_v, 0).len() == 0,
                branch_results@.len() == i,
                forall|j: int|
                    0 <= j < i ==> spec_branch_stack(self@, bs_v[j], vs_v, rest_v) == Ok::<
                        _,
                        ErrV,
                    >((#[trigger] branch_results@[j])@),
            decreases branches@.len() - i,
        {
            let br = self.check_branch(&branches[i], &variants, &stack_after_pop);
            match br {
                Ok(s) => {
                    branch_results.push(s);
                },
                Err(e) => {
                    proof {
                        assert forall|j: int| 0 <= j < i implies spec_branch_stack(
                            self@,
                            #[trigger] bs_v[j],
                            vs_v,
                            rest_v,
                        ) is Ok by {
                            assert(spec_branch_stack(self@, bs_v[j], vs_v, rest_v) == Ok::<
                                _,
                                ErrV,
                            >(branch_results@[j]@));
                        }
                        lemma_branch_results_split(self@, bs_v, vs_v, rest_v, 0, i as int);
                        assert(spec_branch_results(self@, bs_v, vs_v, rest_v, i as int) == Err::<
                            Seq<StackTypeV>,
                            _,
                        >(e@));
                    }
                    return Err(e);
                },
            }
            i = i + 1;
        }
        proof {
            assert forall|j: int| 0 <= j < bs_v.len() implies spec_branch_stack(
                self@,
                #[trigger] bs_v[j],
                vs_v,
                rest_v,
            ) is Ok by {
                assert(spec_branch_stack(self@, bs_v[j], vs_v, rest_v) == Ok::<_, ErrV>(
                    branch_results@[j]@,
                ));
            }
            lemma_branch_results_split(self@, bs_v, vs_v, rest_v, 0, bs_v.len() as int);
        }
        let ghost all_results = branch_oks(self@, bs_v, vs_v, rest_v, 0, bs_v.len() as int);
        proof {
            assert(all_results + Seq::<StackTypeV>::empty() =~= all_results);
            assert(spec_branch_results(self@, bs_v, vs_v, rest_v, 0) == Ok::<_, ErrV>(
                all_results,
            ));
            assert forall|j: int| 0 <= j < branch_results@.len() implies (
            #[trigger] branch_results@[j])@ == all_results[j] by {
                assert(spec_branch_stack(self@, bs_v[j], vs_v, rest_v) == Ok::<_, ErrV>(
                    branch_results@[j]@,
                ));
            }
        }

        // All branches must produce the same stack as the first.
        let mut k: usize = 1;
        while k < branch_results.len()
            invariant
                1 <= k,
                k <= branch_results@.len() || branch_results@.len() == 0,
                bs_v == branches_v(branches@),
                vs_v == variants_v(variants@),
                rest_v == stack_after_pop@,
                bs_v.len() == branches@.len(),
                bs_v.len() > 0,
                forall|j: int| 0 <= j < branches@.len() ==> bs_v[j] == branch_v(branches@[j]),
                stack@.tys.len() > 0,
                rest_v == (StackTypeV { row: stack@.row, tys: stack@.tys.drop_last() }),
                scrut_v == stack@.tys.last(),
                scrut_v matches TypeV::Named { name: n2, args: _ } && n2 == ty_name@,
                self@.types.contains_key(ty_name@),
                self@.types[ty_name@].variants == vs_v,
                spec_missing(vs_v, bs_v, 0).len() == 0,
                branch_results@.len() == all_results.len(),
                all_results.len() == bs_v.len(),
                spec_branch_results(self@, bs_v, vs_v, rest_v, 0) == Ok::<_, ErrV>(all_results),
                forall|j: int|
                    0 <= j < branch_results@.len() ==> (#[trigger] branch_results@[j])@
                        == all_results[j],
                first_disagreement(all_results, 1) == first_disagreement(all_results, k as int),
            decreases branch_results@.len() - k,
        {
            let agree = unify_stack_types(&branch_results[0], &branch_results[k]);
            match agree {
                Ok(_) => {},
                Err(_) => {
                    proof {
                        assert(first_disagreement(all_results, k as int) == k);
                    }
                    let mut branch_label = String::from_str("branch ");
                    let ks = crate::numtext::u64_to_dec(k as u64);
                    branch_label.append(ks.as_str());
                    return Err(Box::new(TypeError::InconsistentBranchEffects {
                        ty_name,
                        expected: Effect {
                            inputs: stack_after_pop.clone_deep(),
                            outputs: branch_results[0].clone_deep(),
                        },
                        actual: Effect {
                            inputs: stack_after_pop.clone_deep(),
                            outputs: branch_results[k].clone_deep(),
                        },
                        branch: branch_label,
                    }));
                },
            }
            k = k + 1;
        }
        proof {
            assert(first_disagreement(all_results, branch_results@.len() as int) == -1);
        }
        let first = branch_results[0].clone_deep();
        Ok(first)
    }

    /// Check one match branch, as `spec_branch_stack` describes: find its
    /// variant, push the fields, check the body.
    fn check_branch(&self, branch: &MatchBranch, variants: &Vec<Variant>, rest: &StackType) -> (r:
        TypeResult<StackType>)
        ensures
            match r {
                Ok(s) => spec_branch_stack(self@, branch@, variants_v(variants@), rest@) == Ok::<
                    _,
                    ErrV,
                >(s@),
                Err(e) => spec_branch_stack(self@, branch@, variants_v(variants@), rest@) == Err::<
                    StackTypeV,
                    _,
                >(e@),
            },
        decreases *branch, 0int,
    {
        proof {
            lemma_variants_v_len(variants@);
        }
        let ghost vs_v = variants_v(variants@);
        let bname: &String = match &branch.pattern {
            Pattern::Variant { name } => name,
        };
        let vi: usize = match find_variant_idx(variants, bname.as_str()) {
            Some(i) => i,
            None => {
                return Err(Box::new(TypeError::Other {
                    message: String::from_str("Unknown variant in pattern"),
                }));
            },
        };

        // Push the variant's fields, first field deepest.
        let fields = &variants[vi].fields;
        proof {
            lemma_tys_v_len(fields@);
        }
        let mut branch_stack = rest.clone_deep();
        let mut j: usize = 0;
        proof {
            assert(rest@.tys + tys_v(fields@).take(0) =~= rest@.tys);
        }
        while j < fields.len()
            invariant
                j <= fields@.len(),
                tys_v(fields@).len() == fields@.len(),
                forall|m: int| 0 <= m < fields@.len() ==> tys_v(fields@)[m] == ty_v(fields@[m]),
                branch_stack@.row == rest@.row,
                branch_stack@.tys == rest@.tys + tys_v(fields@).take(j as int),
            decreases fields@.len() - j,
        {
            let f = fields[j].clone_deep();
            proof {
                assert(rest@.tys + tys_v(fields@).take(j + 1) =~= (rest@.tys + tys_v(
                    fields@,
                ).take(j as int)).push(tys_v(fields@)[j as int]));
            }
            branch_stack = branch_stack.push(f);
            j = j + 1;
        }
        proof {
            assert(tys_v(fields@).take(fields@.len() as int) =~= tys_v(fields@));
            assert(branch_stack@ == push_fields(rest@, vs_v[vi as int].fields));
        }

        // Check the branch body from there.
        self.check_exprs(&branch.body, branch_stack)
    }
}

/// The types of the entries, reversed: the first entry of `s` is the last
/// of the result.
pub open spec fn rev_tys(s: Seq<Type>) -> Seq<TypeV>
    decreases s,
{
    if s.len() == 0 {
        Seq::empty()
    } else {
        seq![ty_v(s.last())] + rev_tys(s.drop_last())
    }
}

proof fn lemma_rev_tys_len(s: Seq<Type>)
    ensures
        rev_tys(s).len() == s.len(),
        forall|i: int| 0 <= i < s.len() ==> rev_tys(s)[i] == ty_v(s[s.len() - 1 - i]),
    decreases s,
{
    if s.len() > 0 {
        lemma_rev_tys_len(s.drop_last());
    }
}

proof fn lemma_rev_tys_push(s: Seq<Type>, t: Type)
    ensures
        rev_tys(s.push(t)) == seq![ty_v(t)] + rev_tys(s),
{
    assert(s.push(t).drop_last() =~= s);
    assert(s.push(t).last() == t);
}

} // verus!
