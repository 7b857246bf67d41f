//! The Cem type system: types, stack types with row polymorphism, and
//! stack effects.
//!
//! The mathematical model of a stack type is a sequence of type models
//! (bottom to top) together with an optional row variable standing for an
//! unknown rest-of-stack below them.

use vstd::prelude::*;

verus! {

/// Mathematical model of a Cem type.
pub enum TypeV {
    Int,
    Bool,
    Str,
    Var(Seq<char>),
    Named { name: Seq<char>, args: Seq<TypeV> },
    Quot(EffectV),
}

/// Mathematical model of a stack type: `tys` bottom-to-top, below them
/// either the empty stack (`row` is `None`) or an unknown tail named by a
/// row variable.
pub struct StackTypeV {
    pub row: Option<Seq<char>>,
    pub tys: Seq<TypeV>,
}

/// Mathematical model of a stack effect.
pub struct EffectV {
    pub ins: StackTypeV,
    pub outs: StackTypeV,
}

impl StackTypeV {
    /// The empty stack model.
    pub open spec fn empty() -> StackTypeV {
        StackTypeV { row: None, tys: Seq::empty() }
    }

    /// The model with one more type on top.
    pub open spec fn push(self, t: TypeV) -> StackTypeV {
        StackTypeV { row: self.row, tys: self.tys.push(t) }
    }

    /// Depth is defined only on stacks without a row tail.
    pub open spec fn spec_depth(self) -> Option<int> {
        if self.row is None {
            Some(self.tys.len() as int)
        } else {
            None
        }
    }
}

/// A type in the Cem type system.
#[derive(Debug, PartialEq, Eq)]
pub enum Type {
    /// Integer type (copyable).
    Int,
    /// Boolean type (copyable).
    Bool,
    /// String type (linear: duplication needs an explicit clone).
    String,
    /// Type variable, for polymorphism.
    Var(String),
    /// Named type: a user-defined ADT applied to type arguments.
    Named { name: String, args: Vec<Type> },
    /// Quotation type (first-class code block), carrying its effect.
    Quotation(Box<Effect>),
}

/// Stack effect signature: what a word consumes and produces.
#[derive(Debug, PartialEq, Eq)]
pub struct Effect {
    /// Types consumed from the stack (bottom to top).
    pub inputs: StackType,
    /// Types produced onto the stack (bottom to top).
    pub outputs: StackType,
}

/// A stack type, with row polymorphism for an unknown rest of stack.
#[derive(Debug, PartialEq, Eq)]
pub enum StackType {
    /// The empty stack.
    Empty,
    /// A type on top of another stack.
    Cons { rest: Box<StackType>, top: Type },
    /// A row variable: an unknown rest of stack.
    RowVar(String),
}

/// Model of a type.
pub open spec fn ty_v(t: Type) -> TypeV
    decreases t,
{
    match t {
        Type::Int => TypeV::Int,
        Type::Bool => TypeV::Bool,
        Type::String => TypeV::Str,
        Type::Var(s) => TypeV::Var(s@),
        Type::Named { name, args } => TypeV::Named { name: name@, args: tys_v(args@) },
        Type::Quotation(e) => TypeV::Quot(eff_v(*e)),
    }
}

/// Model of a sequence of types.
pub open spec fn tys_v(ts: Seq<Type>) -> Seq<TypeV>
    decreases ts,
{
    if ts.len() == 0 {
        Seq::empty()
    } else {
        seq![ty_v(ts[0])] + tys_v(ts.drop_first())
    }
}

/// Model of a stack type.
pub open spec fn stk_v(s: StackType) -> StackTypeV
    decreases s,
{
    match s {
        StackType::Empty => StackTypeV { row: None, tys: Seq::empty() },
        StackType::RowVar(r) => StackTypeV { row: Some(r@), tys: Seq::empty() },
        StackType::Cons { rest, top } => stk_v(*rest).push(ty_v(top)),
    }
}

/// Model of an effect.
pub open spec fn eff_v(e: Effect) -> EffectV
    decreases e,
{
    EffectV { ins: stk_v(e.inputs), outs: stk_v(e.outputs) }
}

impl View for Type {
    type V = TypeV;

    open spec fn view(&self) -> TypeV {
        ty_v(*self)
    }
}

impl View for StackType {
    type V = StackTypeV;

    open spec fn view(&self) -> StackTypeV {
        stk_v(*self)
    }
}

impl View for Effect {
    type V = EffectV;

    open spec fn view(&self) -> EffectV {
        eff_v(*self)
    }
}

/// Facts about `tys_v`: length, elements, and how it maps `push`.
pub proof fn lemma_tys_v_len(ts: Seq<Type>)
    ensures
        tys_v(ts).len() == ts.len(),
        forall|i: int| 0 <= i < ts.len() ==> tys_v(ts)[i] == ty_v(ts[i]),
    decreases ts,
{
    if ts.len() > 0 {
        lemma_tys_v_len(ts.drop_first());
    }
}

pub proof fn lemma_tys_v_push(ts: Seq<Type>, t: Type)
    ensures
        tys_v(ts.push(t)) == tys_v(ts).push(ty_v(t)),
    decreases ts,
{
    if ts.len() == 0 {
        let p = ts.push(t);
        assert(p[0] == t);
        assert(p.drop_first() =~= Seq::<Type>::empty());
        assert(tys_v(p.drop_first()) =~= Seq::<TypeV>::empty());
        assert(tys_v(p) == seq![ty_v(p[0])] + tys_v(p.drop_first()));
        assert(tys_v(p) =~= seq![ty_v(t)]);
        assert(tys_v(ts) =~= Seq::<TypeV>::empty());
        assert(tys_v(ts).push(ty_v(t)) =~= seq![ty_v(t)]);
    } else {
        assert(ts.push(t).drop_first() =~= ts.drop_first().push(t));
        lemma_tys_v_push(ts.drop_first(), t);
        assert(tys_v(ts.push(t)) =~= tys_v(ts).push(ty_v(t)));
    }
}

impl StackType {
    /// Create an empty stack type.
    pub fn empty() -> (r: Self)
        ensures
            r@ == StackTypeV::empty(),
    {
        StackType::Empty
    }

    /// Push a type onto the stack type.
    pub fn push(self, ty: Type) -> (r: Self)
        ensures
            r@ == self@.push(ty@),
    {
        StackType::Cons { rest: Box::new(self), top: ty }
    }

    /// Create a stack type from a vector of types (first is bottommost).
    pub fn from_vec(types: Vec<Type>) -> (r: Self)
        ensures
            r@ == (StackTypeV { row: None, tys: tys_v(types@) }),
    {
        let mut stack = StackType::Empty;
        let mut i: usize = 0;
        proof {
            assert(types@.subrange(0, 0) =~= Seq::<Type>::empty());
        }
        while i < types.len()
            invariant
                i <= types.len(),
                stack@ == (StackTypeV { row: None, tys: tys_v(types@.subrange(0, i as int)) }),
            decreases types.len() - i,
        {
            let ty = types[i].clone_deep();
            proof {
                assert(types@.subrange(0, i + 1) =~= types@.subrange(0, i as int).push(types@[i as int]));
                lemma_tys_v_push(types@.subrange(0, i as int), types@[i as int]);
            }
            stack = stack.push(ty);
            i = i + 1;
        }
        proof {
            assert(types@.subrange(0, types.len() as int) =~= types@);
        }
        stack
    }

    /// Pop the top type, returning the rest and the top, or `None` when the
    /// stack is empty or ends in a row variable.
    pub fn pop(self) -> (r: Option<(StackType, Type)>)
        ensures
            match r {
                Some(p) => {
                    &&& self@.tys.len() > 0
                    &&& p.0@ == (StackTypeV { row: self@.row, tys: self@.tys.drop_last() })
                    &&& p.1@ == self@.tys.last()
                },
                None => self@.tys.len() == 0,
            },
    {
        match self {
            StackType::Cons { rest, top } => {
                proof {
                    assert(self@.tys == stk_v(*rest).tys.push(ty_v(top)));
                    assert(stk_v(*rest).tys =~= self@.tys.drop_last());
                }
                Some((*rest, top))
            },
            StackType::Empty => None,
            StackType::RowVar(_) => None,
        }
    }

    /// The stack's depth, when it is known (no row variable at the tail).
    pub fn depth(&self) -> (r: Option<usize>)
        requires
            self@.tys.len() <= usize::MAX,
        ensures
            match r {
                Some(d) => self@.spec_depth() == Some(d as int),
                None => self@.spec_depth() is None,
            },
        decreases self,
    {
        match self {
            StackType::Empty => Some(0),
            StackType::Cons { rest, .. } => match rest.depth() {
                Some(d) => Some(d + 1),
                None => None,
            },
            StackType::RowVar(_) => None,
        }
    }

    /// Whether the stack type has at least one item on top.
    pub fn has_top(&self) -> (r: bool)
        ensures
            r == (self@.tys.len() > 0),
    {
        match self {
            StackType::Cons { .. } => true,
            _ => false,
        }
    }

    /// Whether this stack type is a bare row variable.
    pub fn is_row_var(&self) -> (r: bool)
        ensures
            r == (self@.tys.len() == 0 && self@.row is Some),
    {
        match self {
            StackType::RowVar(_) => true,
            _ => false,
        }
    }

    /// Structural deep copy.
    pub fn clone_deep(&self) -> (r: Self)
        ensures
            r@ == self@,
        decreases self,
    {
        match self {
            StackType::Empty => StackType::Empty,
            StackType::RowVar(r) => StackType::RowVar(clone_string(r)),
            StackType::Cons { rest, top } => StackType::Cons {
                rest: Box::new(rest.clone_deep()),
                top: top.clone_deep(),
            },
        }
    }
}

/// Deep copies of a vector of types.
pub fn clone_tys(ts: &Vec<Type>) -> (r: Vec<Type>)
    ensures
        tys_v(r@) == tys_v(ts@),
        r@.len() == ts@.len(),
    decreases ts@,
{
    let mut r: Vec<Type> = Vec::new();
    let mut i: usize = 0;
    while i < ts.len()
        invariant
            i <= ts.len(),
            r@.len() == i,
            forall|j: int| 0 <= j < i ==> ty_v(#[trigger] r@[j]) == ty_v(ts@[j]),
        decreases ts@.len() - i,
    {
        let c = ts[i].clone_deep();
        r.push(c);
        i = i + 1;
    }
    proof {
        lemma_tys_v_len(r@);
        lemma_tys_v_len(ts@);
        assert(tys_v(r@) =~= tys_v(ts@));
    }
    r
}

/// Copy a string; the copy has the same characters.
pub fn clone_string(s: &String) -> (r: String)
    ensures
        r@ == s@,
{
    let r = s.clone();
    r
}

impl Type {
    /// Structural deep copy.
    pub fn clone_deep(&self) -> (r: Self)
        ensures
            r@ == self@,
        decreases self,
    {
        match self {
            Type::Int => Type::Int,
            Type::Bool => Type::Bool,
            Type::String => Type::String,
            Type::Var(s) => Type::Var(clone_string(s)),
            Type::Named { name, args } => {
                let new_args = clone_tys(args);
                Type::Named { name: clone_string(name), args: new_args }
            },
            Type::Quotation(e) => Type::Quotation(Box::new(e.clone_deep())),
        }
    }

    /// Whether values of this type may be duplicated freely.
    pub fn is_copy(&self) -> (r: bool)
        ensures
            r == self@.spec_is_copy(),
    {
        match self {
            Type::Int | Type::Bool => true,
            Type::String => false,
            Type::Var(_) => false,
            Type::Named { .. } => false,
            Type::Quotation(_) => true,
        }
    }

    /// Whether this type is linear (needs an explicit clone to duplicate).
    pub fn is_linear(&self) -> (r: bool)
        ensures
            r == !self@.spec_is_copy(),
    {
        !self.is_copy()
    }
}

impl TypeV {
    /// Copyability of a type: `Int`, `Bool` and quotations are copyable;
    /// strings, type variables and named types are not.
    pub open spec fn spec_is_copy(self) -> bool {
        match self {
            TypeV::Int => true,
            TypeV::Bool => true,
            TypeV::Str => false,
            TypeV::Var(_) => false,
            TypeV::Named { .. } => false,
            TypeV::Quot(_) => true,
        }
    }
}

impl Effect {
    /// Create a new effect signature.
    pub fn new(inputs: StackType, outputs: StackType) -> (r: Self)
        ensures
            r@.ins == inputs@ && r@.outs == outputs@,
    {
        Effect { inputs, outputs }
    }

    /// Create an effect from input and output type vectors.
    pub fn from_vecs(inputs: Vec<Type>, outputs: Vec<Type>) -> (r: Self)
        ensures
            r@.ins == (StackTypeV { row: None, tys: tys_v(inputs@) }),
            r@.outs == (StackTypeV { row: None, tys: tys_v(outputs@) }),
    {
        Effect {
            inputs: StackType::from_vec(inputs),
            outputs: StackType::from_vec(outputs),
        }
    }

    /// Structural deep copy.
    pub fn clone_deep(&self) -> (r: Self)
        ensures
            r@ == self@,
        decreases self,
    {
        let r = Effect { inputs: self.inputs.clone_deep(), outputs: self.outputs.clone_deep() };
        assert(r@ =~= self@);
        r
    }

    /// Compose two effects, first then second. The outputs of `first` must
    /// equal the inputs of `second` exactly (this composition is only
    /// complete on monomorphic effects; polymorphic composition goes
    /// through unification).
    pub fn compose(first: &Effect, second: &Effect) -> (r: Option<Effect>)
        ensures
            match r {
                Some(e) => {
                    &&& first@.outs == second@.ins
                    &&& e@.ins == first@.ins
                    &&& e@.outs == second@.outs
                },
                None => first@.outs != second@.ins,
            },
    {
        if stack_type_eq(&first.outputs, &second.inputs) {
            Some(Effect {
                inputs: first.inputs.clone_deep(),
                outputs: second.outputs.clone_deep(),
            })
        } else {
            None
        }
    }
}

/// Equality of types, decided structurally; two types are equal exactly
/// when their models are.
pub fn type_eq(a: &Type, b: &Type) -> (r: bool)
    ensures
        r == (a@ == b@),
    decreases a,
{
    match (a, b) {
        (Type::Int, Type::Int) => true,
        (Type::Bool, Type::Bool) => true,
        (Type::String, Type::String) => true,
        (Type::Var(x), Type::Var(y)) => {
            let r = crate::shim::str_eq(x.as_str(), y.as_str());
            r
        },
        (Type::Named { name: n1, args: a1 }, Type::Named { name: n2, args: a2 }) => {
            let names_eq = crate::shim::str_eq(n1.as_str(), n2.as_str());
            if !names_eq {
                return false;
            }
            let r = tys_eq(a1, a2);
            r
        },
        (Type::Quotation(e1), Type::Quotation(e2)) => {
            let r = effect_eq(e1, e2);
            r
        },
        _ => {
            proof {
                assert(a@ != b@);
            }
            false
        },
    }
}

/// Equality of type sequences, decided structurally.
pub fn tys_eq(a: &Vec<Type>, b: &Vec<Type>) -> (r: bool)
    ensures
        r == (tys_v(a@) == tys_v(b@)),
    decreases a@,
{
    proof {
        lemma_tys_v_len(a@);
        lemma_tys_v_len(b@);
    }
    if a.len() != b.len() {
        return false;
    }
    let mut i: usize = 0;
    while i < a.len()
        invariant
            i <= a@.len(),
            a@.len() == b@.len(),
            tys_v(a@).len() == a@.len() && tys_v(b@).len() == b@.len(),
            forall|j: int| 0 <= j < a@.len() ==> tys_v(a@)[j] == ty_v(a@[j]),
            forall|j: int| 0 <= j < b@.len() ==> tys_v(b@)[j] == ty_v(b@[j]),
            forall|j: int| 0 <= j < i ==> ty_v(a@[j]) == ty_v(b@[j]),
        decreases a@.len() - i,
    {
        if !type_eq(&a[i], &b[i]) {
            proof {
                assert(tys_v(a@)[i as int] != tys_v(b@)[i as int]);
            }
            return false;
        }
        i = i + 1;
    }
    proof {
        assert(tys_v(a@) =~= tys_v(b@));
    }
    true
}

/// Equality of stack types, decided structurally.
pub fn stack_type_eq(a: &StackType, b: &StackType) -> (r: bool)
    ensures
        r == (a@ == b@),
    decreases a,
{
    match (a, b) {
        (StackType::Empty, StackType::Empty) => true,
        (StackType::RowVar(x), StackType::RowVar(y)) => crate::shim::str_eq(x.as_str(), y.as_str()),
        (StackType::Cons { rest: r1, top: t1 }, StackType::Cons { rest: r2, top: t2 }) => {
            let te = type_eq(t1, t2);
            if !te {
                proof {
                    assert(a@.tys.last() == t1@ && b@.tys.last() == t2@);
                }
                return false;
            }
            let re = stack_type_eq(r1, r2);
            proof {
                if re {
                    assert(a@ =~= b@);
                } else {
                    if a@ == b@ {
                        assert(r1@.tys =~= a@.tys.drop_last());
                        assert(r2@.tys =~= b@.tys.drop_last());
                        assert(r1@ =~= r2@);
                    }
                }
            }
            re
        },
        _ => {
            proof {
                assert(a@ != b@);
            }
            false
        },
    }
}

/// Equality of effects, decided structurally.
pub fn effect_eq(a: &Effect, b: &Effect) -> (r: bool)
    ensures
        r == (a@ == b@),
    decreases a,
{
    let ri = stack_type_eq(&a.inputs, &b.inputs);
    let ro = stack_type_eq(&a.outputs, &b.outputs);
    proof {
        if ri && ro {
            assert(a@ =~= b@);
        }
    }
    ri && ro
}

} // verus!
