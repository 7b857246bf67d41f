//! Unification of types and of stack types, with substitutions for type
//! variables and row variables.
//!
//! `spec_unify` and `spec_unify_stacks` give the meaning of the two
//! executable entry points exactly, fuel included: following a chain of
//! existing bindings consumes fuel, and exhausting it is a unification
//! failure with the distinct reason "Unification too deep". A chain only
//! grows when a variable is bound to another variable, so its length is
//! bounded by the number of distinct variable names in the two types
//! being unified — for any effect a program can declare, that is far
//! below the fuel; only a cyclic chain (one that the bindings lead back
//! into) could reach it, and on such chains unification has no result to
//! give.

use vstd::prelude::*;
use crate::types::{Type, TypeV, StackType, StackTypeV, ty_v, stk_v, tys_v, lemma_tys_v_len,
    clone_string};
use crate::errors::{TypeError, TypeResult};
use crate::shim::str_eq;

verus! {

/// The bound on binding-chain chasing during unification.
pub const UNIFY_FUEL: u32 = 4096;

/// A substitution from type variable names to types.
pub struct Substitution {
    entries: Vec<(String, Type)>,
}

/// A substitution from row variable names to stack types.
pub struct StackSubstitution {
    entries: Vec<(String, StackType)>,
}

/// The map denoted by an association list, later entries winning.
pub open spec fn ty_subst_map(s: Seq<(String, Type)>) -> Map<Seq<char>, TypeV>
    decreases s,
{
    if s.len() == 0 {
        Map::empty()
    } else {
        ty_subst_map(s.drop_last()).insert(s.last().0@, ty_v(s.last().1))
    }
}

/// The map denoted by an association list of stack types.
pub open spec fn stk_subst_map(s: Seq<(String, StackType)>) -> Map<Seq<char>, StackTypeV>
    decreases s,
{
    if s.len() == 0 {
        Map::empty()
    } else {
        stk_subst_map(s.drop_last()).insert(s.last().0@, stk_v(s.last().1))
    }
}

impl View for Substitution {
    type V = Map<Seq<char>, TypeV>;

    closed spec fn view(&self) -> Map<Seq<char>, TypeV> {
        ty_subst_map(self.entries@)
    }
}

impl View for StackSubstitution {
    type V = Map<Seq<char>, StackTypeV>;

    closed spec fn view(&self) -> Map<Seq<char>, StackTypeV> {
        stk_subst_map(self.entries@)
    }
}

impl Substitution {
    /// The empty substitution.
    pub fn new() -> (r: Substitution)
        ensures
            r@ == Map::<Seq<char>, TypeV>::empty(),
    {
        Substitution { entries: Vec::new() }
    }

    /// The binding of `name`, when there is one.
    pub fn get(&self, name: &str) -> (r: Option<&Type>)
        ensures
            match r {
                Some(t) => self@.contains_key(name@) && ty_v(*t) == self@[name@],
                None => !self@.contains_key(name@),
            },
    {
        let ghost full = self.entries@;
        let mut i: usize = self.entries.len();
        proof {
            assert(full.subrange(0, full.len() as int) =~= full);
        }
        while i > 0
            invariant
                i <= self.entries@.len(),
                full == self.entries@,
                ty_subst_map(full).contains_key(name@) == ty_subst_map(
                    full.subrange(0, i as int),
                ).contains_key(name@),
                ty_subst_map(full).contains_key(name@) ==> ty_subst_map(full)[name@]
                    == ty_subst_map(full.subrange(0, i as int))[name@],
            decreases i,
        {
            i = i - 1;
            proof {
                assert(full.subrange(0, i + 1).drop_last() =~= full.subrange(0, i as int));
                assert(full.subrange(0, i + 1).last() == full[i as int]);
            }
            if str_eq(self.entries[i].0.as_str(), name) {
                return Some(&self.entries[i].1);
            }
        }
        proof {
            assert(full.subrange(0, 0) =~= Seq::<(String, Type)>::empty());
        }
        None
    }

    /// Bind `name` to `ty`.
    pub fn insert(&mut self, name: String, ty: Type)
        ensures
            final(self)@ == old(self)@.insert(name@, ty_v(ty)),
    {
        let ghost before = self.entries@;
        self.entries.push((name, ty));
        proof {
            assert(self.entries@.drop_last() =~= before);
        }
    }
}

impl StackSubstitution {
    /// The empty substitution.
    pub fn new() -> (r: StackSubstitution)
        ensures
            r@ == Map::<Seq<char>, StackTypeV>::empty(),
    {
        StackSubstitution { entries: Vec::new() }
    }

    /// The binding of `name`, when there is one.
    pub fn get(&self, name: &str) -> (r: Option<&StackType>)
        ensures
            match r {
                Some(t) => self@.contains_key(name@) && stk_v(*t) == self@[name@],
                None => !self@.contains_key(name@),
            },
    {
        let ghost full = self.entries@;
        let mut i: usize = self.entries.len();
        proof {
            assert(full.subrange(0, full.len() as int) =~= full);
        }
        while i > 0
            invariant
                i <= self.entries@.len(),
                full == self.entries@,
                stk_subst_map(full).contains_key(name@) == stk_subst_map(
                    full.subrange(0, i as int),
                ).contains_key(name@),
                stk_subst_map(full).contains_key(name@) ==> stk_subst_map(full)[name@]
                    == stk_subst_map(full.subrange(0, i as int))[name@],
            decreases i,
        {
            i = i - 1;
            proof {
                assert(full.subrange(0, i + 1).drop_last() =~= full.subrange(0, i as int));
                assert(full.subrange(0, i + 1).last() == full[i as int]);
            }
            if str_eq(self.entries[i].0.as_str(), name) {
                return Some(&self.entries[i].1);
            }
        }
        proof {
            assert(full.subrange(0, 0) =~= Seq::<(String, StackType)>::empty());
        }
        None
    }

    /// Bind `name` to `stack`.
    pub fn insert(&mut self, name: String, stack: StackType)
        ensures
            final(self)@ == old(self)@.insert(name@, stk_v(stack)),
    {
        let ghost before = self.entries@;
        self.entries.push((name, stack));
        proof {
            assert(self.entries@.drop_last() =~= before);
        }
    }
}

/// The meaning of type unification: equal primitives unify; a type
/// variable follows its existing binding or binds; named types unify
/// componentwise under the same name; quotation types unify
/// unconditionally; anything else fails. `Err` also stands for running
/// out of fuel while chasing bindings.
pub open spec fn spec_unify(t1: TypeV, t2: TypeV, s: Map<Seq<char>, TypeV>, fuel: nat) -> Result<
    Map<Seq<char>, TypeV>,
    (),
>
    decreases fuel, 2int,
{
    if fuel == 0 {
        Err(())
    } else {
        match (t1, t2) {
            (TypeV::Int, TypeV::Int) => Ok(s),
            (TypeV::Bool, TypeV::Bool) => Ok(s),
            (TypeV::Str, TypeV::Str) => Ok(s),
            (TypeV::Var(n), _) => spec_bind(n, t2, s, fuel),
            (_, TypeV::Var(n)) => spec_bind(n, t1, s, fuel),
            (TypeV::Named { name: n1, args: a1 }, TypeV::Named { name: n2, args: a2 }) => {
                if n1 != n2 || a1.len() != a2.len() {
                    Err(())
                } else {
                    spec_unify_args(a1, a2, s, (fuel - 1) as nat)
                }
            },
            (TypeV::Quot(_), TypeV::Quot(_)) => Ok(s),
            _ => Err(()),
        }
    }
}

/// Binding a type variable: chase an existing binding, or record the new
/// one.
pub open spec fn spec_bind(n: Seq<char>, t: TypeV, s: Map<Seq<char>, TypeV>, fuel: nat) -> Result<
    Map<Seq<char>, TypeV>,
    (),
>
    decreases fuel, 1int,
{
    if fuel == 0 {
        Err(())
    } else if s.contains_key(n) {
        spec_unify(s[n], t, s, (fuel - 1) as nat)
    } else {
        Ok(s.insert(n, t))
    }
}

/// Componentwise unification of type argument lists of equal length.
pub open spec fn spec_unify_args(
    a1: Seq<TypeV>,
    a2: Seq<TypeV>,
    s: Map<Seq<char>, TypeV>,
    fuel: nat,
) -> Result<Map<Seq<char>, TypeV>, ()>
    decreases fuel, a1.len() + 3,
{
    if a1.len() == 0 {
        Ok(s)
    } else {
        match spec_unify(a1[0], a2[0], s, fuel) {
            Ok(s2) => spec_unify_args(a1.drop_first(), a2.drop_first(), s2, fuel),
            Err(e) => Err(e),
        }
    }
}

/// The meaning of stack unification: empty unifies with empty, tops then
/// rests unify, and a row variable follows its binding or binds to the
/// whole other stack.
pub open spec fn spec_unify_stacks(
    s1: StackTypeV,
    s2: StackTypeV,
    ts: Map<Seq<char>, TypeV>,
    ss: Map<Seq<char>, StackTypeV>,
    fuel: nat,
) -> Result<(Map<Seq<char>, TypeV>, Map<Seq<char>, StackTypeV>), ()>
    decreases fuel, s1.tys.len(), 1int,
{
    if fuel == 0 {
        Err(())
    } else if s1.row is None && s1.tys.len() == 0 && s2.row is None && s2.tys.len() == 0 {
        Ok((ts, ss))
    } else if s1.tys.len() > 0 && s2.tys.len() > 0 {
        match spec_unify(s1.tys.last(), s2.tys.last(), ts, UNIFY_FUEL as nat) {
            Ok(ts2) => spec_unify_stacks(
                StackTypeV { row: s1.row, tys: s1.tys.drop_last() },
                StackTypeV { row: s2.row, tys: s2.tys.drop_last() },
                ts2,
                ss,
                fuel,
            ),
            Err(e) => Err(e),
        }
    } else if s1.tys.len() == 0 && s1.row is Some {
        spec_bind_row(s1.row->0, s2, ts, ss, fuel)
    } else if s2.tys.len() == 0 && s2.row is Some {
        spec_bind_row(s2.row->0, s1, ts, ss, fuel)
    } else {
        Err(())
    }
}

/// Binding a row variable: chase an existing binding, or record the new
/// one.
pub open spec fn spec_bind_row(
    n: Seq<char>,
    stack: StackTypeV,
    ts: Map<Seq<char>, TypeV>,
    ss: Map<Seq<char>, StackTypeV>,
    fuel: nat,
) -> Result<(Map<Seq<char>, TypeV>, Map<Seq<char>, StackTypeV>), ()>
    decreases fuel, 0int, 0int,
{
    if fuel == 0 {
        Err(())
    } else if ss.contains_key(n) {
        spec_unify_stacks(ss[n], stack, ts, ss, (fuel - 1) as nat)
    } else {
        Ok((ts, ss.insert(n, stack)))
    }
}

/// Unify two types, returning the substitution that makes them match, as
/// `spec_unify` describes from the empty substitution.
pub fn unify_types(ty1: &Type, ty2: &Type) -> (r: TypeResult<Substitution>)
    ensures
        match r {
            Ok(s) => spec_unify(ty1@, ty2@, Map::empty(), UNIFY_FUEL as nat) == Ok::<_, ()>(s@),
            Err(_) => spec_unify(ty1@, ty2@, Map::empty(), UNIFY_FUEL as nat) is Err,
        },
{
    let mut subst = Substitution::new();
    match unify_types_with_subst(ty1, ty2, &mut subst, UNIFY_FUEL) {
        Ok(_) => Ok(subst),
        Err(e) => Err(e),
    }
}

/// Unify two types under an existing substitution.
pub fn unify_types_with_subst(
    ty1: &Type,
    ty2: &Type,
    subst: &mut Substitution,
    fuel: u32,
) -> (r: TypeResult<()>)
    ensures
        match r {
            Ok(_) => spec_unify(ty1@, ty2@, old(subst)@, fuel as nat) == Ok::<_, ()>(
                final(subst)@,
            ),
            Err(_) => spec_unify(ty1@, ty2@, old(subst)@, fuel as nat) is Err,
        },
    decreases fuel, 1int,
{
    if fuel == 0 {
        return Err(Box::new(TypeError::UnificationError {
            ty1: ty1.clone_deep(),
            ty2: ty2.clone_deep(),
            reason: String::from_str("Unification too deep"),
        }));
    }
    match (ty1, ty2) {
        (Type::Int, Type::Int) => Ok(()),
        (Type::Bool, Type::Bool) => Ok(()),
        (Type::String, Type::String) => Ok(()),
        (Type::Var(name), _) => unify_bind(name, ty2, subst, fuel),
        (_, Type::Var(name)) => unify_bind(name, ty1, subst, fuel),
        (Type::Named { name: n1, args: a1 }, Type::Named { name: n2, args: a2 }) => {
            if !str_eq(n1.as_str(), n2.as_str()) {
                let mut reason = String::from_str("Type names don't match: ");
                reason.append(n1.as_str());
                reason.append(" vs ");
                reason.append(n2.as_str());
                return Err(Box::new(TypeError::UnificationError {
                    ty1: ty1.clone_deep(),
                    ty2: ty2.clone_deep(),
                    reason,
                }));
            }
            proof {
                lemma_tys_v_len(a1@);
                lemma_tys_v_len(a2@);
            }
            if a1.len() != a2.len() {
                return Err(Box::new(TypeError::UnificationError {
                    ty1: ty1.clone_deep(),
                    ty2: ty2.clone_deep(),
                    reason: String::from_str("Different number of type arguments"),
                }));
            }
            let ghost a1v = tys_v(a1@);
            let ghost a2v = tys_v(a2@);
            let ghost s0 = subst@;
            let mut i: usize = 0;
            proof {
                assert(a1v.skip(0) =~= a1v);
                assert(a2v.skip(0) =~= a2v);
            }
            while i < a1.len()
                invariant
                    i <= a1@.len(),
                    a1@.len() == a2@.len(),
                    fuel >= 1,
                    ty1@ == (TypeV::Named { name: n1@, args: a1v }),
                    ty2@ == (TypeV::Named { name: n2@, args: a2v }),
                    n1@ == n2@,
                    a1v == tys_v(a1@) && a2v == tys_v(a2@),
                    a1v.len() == a1@.len() && a2v.len() == a2@.len(),
                    forall|j: int| 0 <= j < a1@.len() ==> a1v[j] == ty_v(a1@[j]),
                    forall|j: int| 0 <= j < a2@.len() ==> a2v[j] == ty_v(a2@[j]),
                    s0 == old(subst)@,
                    spec_unify_args(a1v, a2v, s0, (fuel - 1) as nat) == spec_unify_args(
                        a1v.skip(i as int),
                        a2v.skip(i as int),
                        subst@,
                        (fuel - 1) as nat,
                    ),
                decreases a1@.len() - i,
            {
                proof {
                    assert(a1v.skip(i as int)[0] == a1v[i as int]);
                    assert(a1v.skip(i as int).drop_first() =~= a1v.skip(i + 1));
                    assert(a2v.skip(i as int).drop_first() =~= a2v.skip(i + 1));
                }
                let rr = unify_types_with_subst(&a1[i], &a2[i], subst, fuel - 1);
                match rr {
                    Ok(_) => {},
                    Err(e) => {
                        proof {
                            assert(spec_unify_args(a1v, a2v, s0, (fuel - 1) as nat) is Err);
                        }
                        return Err(e);
                    },
                }
                i = i + 1;
            }
            proof {
                assert(a1v.skip(a1@.len() as int).len() == 0);
            }
            Ok(())
        },
        (Type::Quotation(_), Type::Quotation(_)) => Ok(()),
        _ => Err(Box::new(TypeError::UnificationError {
            ty1: ty1.clone_deep(),
            ty2: ty2.clone_deep(),
            reason: String::from_str("Types are incompatible"),
        })),
    }
}

/// Bind a type variable to a type, chasing any existing binding.
fn unify_bind(name: &String, ty: &Type, subst: &mut Substitution, fuel: u32) -> (r: TypeResult<()>)
    requires
        fuel >= 1,
    ensures
        match r {
            Ok(_) => spec_bind(name@, ty@, old(subst)@, fuel as nat) == Ok::<_, ()>(
                final(subst)@,
            ),
            Err(_) => spec_bind(name@, ty@, old(subst)@, fuel as nat) is Err,
        },
    decreases fuel, 0int,
{
    let existing: Option<Type> = match subst.get(name.as_str()) {
        Some(t) => Some(t.clone_deep()),
        None => None,
    };
    match existing {
        Some(ex) => unify_types_with_subst(&ex, ty, subst, fuel - 1),
        None => {
            subst.insert(clone_string(name), ty.clone_deep());
            Ok(())
        },
    }
}

/// Unify two stack types, returning the substitutions for type variables
/// and row variables, as `spec_unify_stacks` describes from empty
/// substitutions.
pub fn unify_stack_types(stack1: &StackType, stack2: &StackType) -> (r: TypeResult<
    (Substitution, StackSubstitution),
>)
    ensures
        match r {
            Ok(p) => spec_unify_stacks(
                stack1@,
                stack2@,
                Map::empty(),
                Map::empty(),
                UNIFY_FUEL as nat,
            ) == Ok::<_, ()>((p.0@, p.1@)),
            Err(_) => spec_unify_stacks(
                stack1@,
                stack2@,
                Map::empty(),
                Map::empty(),
                UNIFY_FUEL as nat,
            ) is Err,
        },
{
    let mut type_subst = Substitution::new();
    let mut stack_subst = StackSubstitution::new();
    match unify_stack_types_with_subst(stack1, stack2, &mut type_subst, &mut stack_subst,
        UNIFY_FUEL) {
        Ok(_) => Ok((type_subst, stack_subst)),
        Err(e) => Err(e),
    }
}

/// Unify two stack types under existing substitutions.
pub fn unify_stack_types_with_subst(
    stack1: &StackType,
    stack2: &StackType,
    type_subst: &mut Substitution,
    stack_subst: &mut StackSubstitution,
    fuel: u32,
) -> (r: TypeResult<()>)
    ensures
        match r {
            Ok(_) => spec_unify_stacks(
                stack1@,
                stack2@,
                old(type_subst)@,
                old(stack_subst)@,
                fuel as nat,
            ) == Ok::<_, ()>((final(type_subst)@, final(stack_subst)@)),
            Err(_) => spec_unify_stacks(
                stack1@,
                stack2@,
                old(type_subst)@,
                old(stack_subst)@,
                fuel as nat,
            ) is Err,
        },
    decreases fuel, stack1@.tys.len(), 1int,
{
    if fuel == 0 {
        return Err(Box::new(TypeError::StackUnificationError {
            stack1: stack1.clone_deep(),
            stack2: stack2.clone_deep(),
            reason: String::from_str("Unification too deep"),
        }));
    }
    match (stack1, stack2) {
        (StackType::Empty, StackType::Empty) => Ok(()),
        (StackType::Cons { rest: r1, top: t1 }, StackType::Cons { rest: r2, top: t2 }) => {
            proof {
                assert(stack1@.tys.drop_last() =~= r1@.tys);
                assert(stack2@.tys.drop_last() =~= r2@.tys);
                assert((StackTypeV { row: stack1@.row, tys: stack1@.tys.drop_last() }) == r1@);
                assert((StackTypeV { row: stack2@.row, tys: stack2@.tys.drop_last() }) == r2@);
            }
            let rr = unify_types_with_subst(t1, t2, type_subst, UNIFY_FUEL);
            match rr {
                Ok(_) => {},
                Err(e) => {
                    return Err(e);
                },
            }
            unify_stack_types_with_subst(r1, r2, type_subst, stack_subst, fuel)
        },
        (StackType::RowVar(name), _) => bind_row(name, stack2, type_subst, stack_subst, fuel),
        (_, StackType::RowVar(name)) => bind_row(name, stack1, type_subst, stack_subst, fuel),
        _ => Err(Box::new(TypeError::StackUnificationError {
            stack1: stack1.clone_deep(),
            stack2: stack2.clone_deep(),
            reason: String::from_str("Stack shapes are incompatible"),
        })),
    }
}

/// Bind a row variable to a stack, chasing any existing binding.
fn bind_row(
    name: &String,
    stack: &StackType,
    type_subst: &mut Substitution,
    stack_subst: &mut StackSubstitution,
    fuel: u32,
) -> (r: TypeResult<()>)
    requires
        fuel >= 1,
    ensures
        match r {
            Ok(_) => spec_bind_row(
                name@,
                stack@,
                old(type_subst)@,
                old(stack_subst)@,
                fuel as nat,
            ) == Ok::<_, ()>((final(type_subst)@, final(stack_subst)@)),
            Err(_) => spec_bind_row(
                name@,
                stack@,
                old(type_subst)@,
                old(stack_subst)@,
                fuel as nat,
            ) is Err,
        },
    decreases fuel, 0int, 0int,
{
    let existing: Option<StackType> = match stack_subst.get(name.as_str()) {
        Some(t) => Some(t.clone_deep()),
        None => None,
    };
    match existing {
        Some(ex) => unify_stack_types_with_subst(&ex, stack, type_subst, stack_subst, fuel - 1),
        None => {
            stack_subst.insert(clone_string(name), stack.clone_deep());
            Ok(())
        },
    }
}

} // verus!
