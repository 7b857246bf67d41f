//! The type checking environment: word signatures and type definitions,
//! primed with the built-in words and the built-in algebraic data types.
//!
//! Registering a type definition synthesises one constructor word per
//! variant, as `spec_add_type` states: for a variant `C` of `T` with
//! parameters `p…`, the word `C` gets the effect
//! `(fields, first field on top -- T(p…))`.

use vstd::prelude::*;
use crate::types::{Type, TypeV, Effect, EffectV, StackType, StackTypeV, ty_v, eff_v, tys_v,
    clone_string, lemma_tys_v_len};
use crate::ast::{TypeDef, TypeDefV, Variant, VariantV, typedef_v, variants_v, strings_v,
    clone_typedef};
use crate::shim::str_eq;

verus! {

/// Mathematical model of the environment: the two name-keyed maps.
pub struct EnvV {
    pub words: Map<Seq<char>, EffectV>,
    pub types: Map<Seq<char>, TypeDefV>,
}

/// The map denoted by an association list of effects.
pub open spec fn words_map(s: Seq<(String, Effect)>) -> Map<Seq<char>, EffectV>
    decreases s,
{
    if s.len() == 0 {
        Map::empty()
    } else {
        words_map(s.drop_last()).insert(s.last().0@, eff_v(s.last().1))
    }
}

/// The map denoted by an association list of type definitions.
pub open spec fn types_map(s: Seq<(String, TypeDef)>) -> Map<Seq<char>, TypeDefV>
    decreases s,
{
    if s.len() == 0 {
        Map::empty()
    } else {
        types_map(s.drop_last()).insert(s.last().0@, typedef_v(s.last().1))
    }
}

/// The type a constructor of `td` returns: the ADT applied to its
/// parameters as type variables.
pub open spec fn ctor_result(td: TypeDefV) -> TypeV {
    TypeV::Named { name: td.name, args: td.type_params.map_values(|p: Seq<char>| TypeV::Var(p)) }
}

/// The constructor word effect of a variant of `td`: the fields are
/// consumed with the first-listed field on top, and the ADT is produced.
pub open spec fn ctor_effect(td: TypeDefV, v: VariantV) -> EffectV {
    EffectV {
        ins: StackTypeV { row: None, tys: v.fields.reverse() },
        outs: StackTypeV { row: None, tys: seq![ctor_result(td)] },
    }
}

/// The words map after adding the constructor words of `td`, from
/// variant `i` on.
pub open spec fn add_ctors(words: Map<Seq<char>, EffectV>, td: TypeDefV, i: int) -> Map<
    Seq<char>,
    EffectV,
>
    decreases td.variants.len() - i,
{
    if i < 0 || i >= td.variants.len() {
        words
    } else {
        add_ctors(words.insert(td.variants[i].name, ctor_effect(td, td.variants[i])), td, i + 1)
    }
}

/// What registering a type definition does: one constructor word per
/// variant, and the definition itself stored under its name.
pub open spec fn spec_add_type(env: EnvV, td: TypeDefV) -> EnvV {
    EnvV { words: add_ctors(env.words, td, 0), types: env.types.insert(td.name, td) }
}

/// The type checking environment.
pub struct Environment {
    words: Vec<(String, Effect)>,
    types: Vec<(String, TypeDef)>,
}

impl View for Environment {
    type V = EnvV;

    closed spec fn view(&self) -> EnvV {
        EnvV { words: words_map(self.words@), types: types_map(self.types@) }
    }
}

impl Environment {
    /// Add a word definition.
    pub fn add_word(&mut self, name: String, effect: Effect)
        ensures
            final(self)@.words == old(self)@.words.insert(name@, effect@),
            final(self)@.types == old(self)@.types,
    {
        let ghost before = self.words@;
        self.words.push((name, effect));
        proof {
            assert(self.words@.drop_last() =~= before);
        }
    }

    /// Look up a word's effect signature.
    pub fn lookup_word(&self, name: &str) -> (r: Option<&Effect>)
        ensures
            match r {
                Some(e) => self@.words.contains_key(name@) && e@ == self@.words[name@],
                None => !self@.words.contains_key(name@),
            },
    {
        let ghost full = self.words@;
        let mut i: usize = self.words.len();
        proof {
            assert(full.subrange(0, full.len() as int) =~= full);
        }
        while i > 0
            invariant
                i <= self.words@.len(),
                full == self.words@,
                words_map(full).contains_key(name@) == words_map(
                    full.subrange(0, i as int),
                ).contains_key(name@),
                words_map(full).contains_key(name@) ==> words_map(full)[name@] == words_map(
                    full.subrange(0, i as int),
                )[name@],
            decreases i,
        {
            i = i - 1;
            proof {
                assert(full.subrange(0, i + 1).drop_last() =~= full.subrange(0, i as int));
                assert(full.subrange(0, i + 1).last() == full[i as int]);
            }
            if str_eq(self.words[i].0.as_str(), name) {
                return Some(&self.words[i].1);
            }
        }
        proof {
            assert(full.subrange(0, 0) =~= Seq::<(String, Effect)>::empty());
        }
        None
    }

    /// Look up a type definition.
    pub fn lookup_type(&self, name: &str) -> (r: Option<&TypeDef>)
        ensures
            match r {
                Some(t) => self@.types.contains_key(name@) && t@ == self@.types[name@],
                None => !self@.types.contains_key(name@),
            },
    {
        let ghost full = self.types@;
        let mut i: usize = self.types.len();
        proof {
            assert(full.subrange(0, full.len() as int) =~= full);
        }
        while i > 0
            invariant
                i <= self.types@.len(),
                full == self.types@,
                types_map(full).contains_key(name@) == types_map(
                    full.subrange(0, i as int),
                ).contains_key(name@),
                types_map(full).contains_key(name@) ==> types_map(full)[name@] == types_map(
                    full.subrange(0, i as int),
                )[name@],
            decreases i,
        {
            i = i - 1;
            proof {
                assert(full.subrange(0, i + 1).drop_last() =~= full.subrange(0, i as int));
                assert(full.subrange(0, i + 1).last() == full[i as int]);
            }
            if str_eq(self.types[i].0.as_str(), name) {
                return Some(&self.types[i].1);
            }
        }
        proof {
            assert(full.subrange(0, 0) =~= Seq::<(String, TypeDef)>::empty());
        }
        None
    }

    /// The variants of a sum type, for exhaustiveness checking.
    pub fn get_variants(&self, ty_name: &str) -> (r: Option<&Vec<Variant>>)
        ensures
            match r {
                Some(vs) => self@.types.contains_key(ty_name@) && variants_v(vs@)
                    == self@.types[ty_name@].variants,
                None => !self@.types.contains_key(ty_name@),
            },
    {
        match self.lookup_type(ty_name) {
            Some(td) => Some(&td.variants),
            None => None,
        }
    }

    /// Register a type definition: store it and synthesise its
    /// constructor words, as `spec_add_type` states.
    pub fn add_type(&mut self, typedef: TypeDef)
        ensures
            final(self)@ == spec_add_type(old(self)@, typedef@),
    {
        let ghost tdv = typedef_v(typedef);
        let ghost w0 = self@.words;
        let mut i: usize = 0;
        proof {
            crate::ast::lemma_variants_v_len(typedef.variants@);
            crate::ast::lemma_strings_v_len(typedef.type_params@);
        }
        while i < typedef.variants.len()
            invariant
                i <= typedef.variants@.len(),
                tdv == typedef_v(typedef),
                tdv.variants.len() == typedef.variants@.len(),
                tdv.type_params.len() == typedef.type_params@.len(),
                forall|j: int|
                    0 <= j < typedef.variants@.len() ==> tdv.variants[j] == (
                    #[trigger] typedef.variants@[j])@,
                forall|j: int|
                    0 <= j < typedef.type_params@.len() ==> tdv.type_params[j] == (
                    #[trigger] typedef.type_params@[j])@,
                w0 == old(self)@.words,
                self@.types == old(self)@.types,
                add_ctors(w0, tdv, 0) == add_ctors(self@.words, tdv, i as int),
            decreases typedef.variants@.len() - i,
        {
            // The constructor's result type: the ADT at its parameters.
            let mut args: Vec<Type> = Vec::new();
            let mut j: usize = 0;
            while j < typedef.type_params.len()
                invariant
                    j <= typedef.type_params@.len(),
                    args@.len() == j,
                    forall|k: int|
                        0 <= k < j ==> ty_v(#[trigger] args@[k]) == TypeV::Var(
                            typedef.type_params@[k]@,
                        ),
                decreases typedef.type_params@.len() - j,
            {
                args.push(Type::Var(clone_string(&typedef.type_params[j])));
                j = j + 1;
            }
            proof {
                lemma_tys_v_len(args@);
                assert(tys_v(args@) =~= tdv.type_params.map_values(|p: Seq<char>| TypeV::Var(p)));
            }
            let result_type = Type::Named { name: clone_string(&typedef.name), args };
            proof {
                assert(result_type@ == ctor_result(tdv));
            }

            // The inputs: the fields, first-listed field on top.
            let fields = &typedef.variants[i].fields;
            proof {
                lemma_tys_v_len(fields@);
            }
            let mut ins = StackType::Empty;
            let mut k: usize = fields.len();
            while k > 0
                invariant
                    k <= fields@.len(),
                    tys_v(fields@).len() == fields@.len(),
                    forall|m: int| 0 <= m < fields@.len() ==> tys_v(fields@)[m] == ty_v(fields@[m]),
                    ins@.row is None,
                    ins@.tys == tys_v(fields@).skip(k as int).reverse(),
                decreases k,
            {
                k = k - 1;
                let f = fields[k].clone_deep();
                proof {
                    assert(tys_v(fields@).skip(k as int).reverse() =~= tys_v(fields@).skip(
                        k + 1,
                    ).reverse().push(tys_v(fields@)[k as int]));
                }
                ins = ins.push(f);
            }
            proof {
                assert(tys_v(fields@).skip(0) =~= tys_v(fields@));
            }
            let outs = StackType::Empty.push(result_type);
            let effect = Effect { inputs: ins, outputs: outs };
            proof {
                assert(effect@.ins =~= ctor_effect(tdv, tdv.variants[i as int]).ins);
                assert(effect@.outs.tys =~= seq![ctor_result(tdv)]);
                assert(effect@ == ctor_effect(tdv, tdv.variants[i as int]));
            }
            let cname = clone_string(&typedef.variants[i].name);
            self.add_word(cname, effect);
            i = i + 1;
        }
        proof {
            assert(add_ctors(self@.words, tdv, typedef.variants@.len() as int) == self@.words);
        }
        let ghost types_before = self.types@;
        let tname = clone_string(&typedef.name);
        self.types.push((tname, typedef));
        proof {
            assert(self.types@.drop_last() =~= types_before);
        }
    }

    /// A fresh environment holding the built-in words and the built-in
    /// `Option`, `Result` and `List` types, as `builtin_env` states.
    pub fn new() -> (r: Environment)
        ensures
            r@ == builtin_env(),
    {
        let mut env = Environment { words: Vec::new(), types: Vec::new() };
        env.add_builtin_words();
        env.add_builtin_types();
        env
    }

    /// The built-in stack operations, arithmetic, comparisons and
    /// conversions.
    fn add_builtin_words(&mut self)
        ensures
            final(self)@.words == builtin_words_map(old(self)@.words),
            final(self)@.types == old(self)@.types,
    {
        // dup: ( A -- A A )
        self.add_word(
            String::from_str("dup"),
            Effect {
                inputs: StackType::empty().push(var_a()),
                outputs: StackType::empty().push(var_a()).push(var_a()),
            },
        );
        // drop: ( A -- )
        self.add_word(
            String::from_str("drop"),
            Effect { inputs: StackType::empty().push(var_a()), outputs: StackType::empty() },
        );
        // swap: ( A B -- B A )
        self.add_word(
            String::from_str("swap"),
            Effect {
                inputs: StackType::empty().push(var_a()).push(var_b()),
                outputs: StackType::empty().push(var_b()).push(var_a()),
            },
        );
        // over: ( A B -- A B A )
        self.add_word(
            String::from_str("over"),
            Effect {
                inputs: StackType::empty().push(var_a()).push(var_b()),
                outputs: StackType::empty().push(var_a()).push(var_b()).push(var_a()),
            },
        );
        // rot: ( A B C -- B C A )
        self.add_word(
            String::from_str("rot"),
            Effect {
                inputs: StackType::empty().push(var_a()).push(var_b()).push(var_c()),
                outputs: StackType::empty().push(var_b()).push(var_c()).push(var_a()),
            },
        );
        // nip: ( A B -- B )
        self.add_word(
            String::from_str("nip"),
            Effect {
                inputs: StackType::empty().push(var_a()).push(var_b()),
                outputs: StackType::empty().push(var_b()),
            },
        );
        // tuck: ( A B -- B A B )
        self.add_word(
            String::from_str("tuck"),
            Effect {
                inputs: StackType::empty().push(var_a()).push(var_b()),
                outputs: StackType::empty().push(var_b()).push(var_a()).push(var_b()),
            },
        );
        // Arithmetic: ( Int Int -- Int )
        self.add_word(String::from_str("+"), int_int_to_int());
        self.add_word(String::from_str("-"), int_int_to_int());
        self.add_word(String::from_str("*"), int_int_to_int());
        self.add_word(String::from_str("/"), int_int_to_int());
        // Comparisons: ( Int Int -- Bool )
        self.add_word(String::from_str("="), int_int_to_bool());
        self.add_word(String::from_str("<"), int_int_to_bool());
        self.add_word(String::from_str(">"), int_int_to_bool());
        self.add_word(String::from_str("<="), int_int_to_bool());
        self.add_word(String::from_str(">="), int_int_to_bool());
        self.add_word(String::from_str("!="), int_int_to_bool());
        // clone: ( A -- A A ), the explicit duplicate
        self.add_word(
            String::from_str("clone"),
            Effect {
                inputs: StackType::empty().push(var_a()),
                outputs: StackType::empty().push(var_a()).push(var_a()),
            },
        );
        // Conversions
        self.add_word(
            String::from_str("int-to-string"),
            Effect {
                inputs: StackType::empty().push(Type::Int),
                outputs: StackType::empty().push(Type::String),
            },
        );
        self.add_word(
            String::from_str("bool-to-string"),
            Effect {
                inputs: StackType::empty().push(Type::Bool),
                outputs: StackType::empty().push(Type::String),
            },
        );
        // exit: ( Int -- ), which never returns
        self.add_word(
            String::from_str("exit"),
            Effect { inputs: StackType::empty().push(Type::Int), outputs: StackType::empty() },
        );
    }

    /// The built-in `Option`, `Result` and `List` definitions.
    fn add_builtin_types(&mut self)
        ensures
            final(self)@ == spec_add_type(
                spec_add_type(spec_add_type(old(self)@, option_td()), result_td()),
                list_td(),
            ),
    {
        let option_def = TypeDef {
            name: String::from_str("Option"),
            type_params: vec![String::from_str("T")],
            variants: vec![
                Variant {
                    name: String::from_str("Some"),
                    fields: vec![Type::Var(String::from_str("T"))],
                },
                Variant { name: String::from_str("None"), fields: Vec::new() },
            ],
        };
        proof {
            lemma_typedef_v_small(option_def);
            assert(option_def@.type_params =~~= option_td().type_params);
            assert(option_def@.variants[0].fields =~= option_td().variants[0].fields);
            assert(option_def@.variants[1].fields =~= option_td().variants[1].fields);
            assert(option_def@.variants =~= option_td().variants);
            assert(option_def@ == option_td());
        }
        self.add_type(option_def);

        let result_def = TypeDef {
            name: String::from_str("Result"),
            type_params: vec![String::from_str("T"), String::from_str("E")],
            variants: vec![
                Variant {
                    name: String::from_str("Ok"),
                    fields: vec![Type::Var(String::from_str("T"))],
                },
                Variant {
                    name: String::from_str("Err"),
                    fields: vec![Type::Var(String::from_str("E"))],
                },
            ],
        };
        proof {
            lemma_typedef_v_small(result_def);
            assert(result_def@.type_params =~~= result_td().type_params);
            assert(result_def@.variants[0].fields =~= result_td().variants[0].fields);
            assert(result_def@.variants[1].fields =~= result_td().variants[1].fields);
            assert(result_def@.variants =~= result_td().variants);
            assert(result_def@ == result_td());
        }
        self.add_type(result_def);

        let inner = vec![Type::Var(String::from_str("T"))];
        proof {
            lemma_tys_v_len(inner@);
            assert(tys_v(inner@) =~= seq![TypeV::Var("T"@)]);
        }
        let cons_tail = Type::Named { name: String::from_str("List"), args: inner };
        proof {
            assert(cons_tail@ == (TypeV::Named { name: "List"@, args: seq![TypeV::Var("T"@)] }));
        }
        let list_def = TypeDef {
            name: String::from_str("List"),
            type_params: vec![String::from_str("T")],
            variants: vec![
                Variant {
                    name: String::from_str("Cons"),
                    fields: vec![Type::Var(String::from_str("T")), cons_tail],
                },
                Variant { name: String::from_str("Nil"), fields: Vec::new() },
            ],
        };
        proof {
            lemma_typedef_v_small(list_def);
            assert(list_def@.type_params =~~= list_td().type_params);
            assert(list_def@.variants[0].fields =~= list_td().variants[0].fields);
            assert(list_def@.variants[1].fields =~= list_td().variants[1].fields);
            assert(list_def@.variants =~= list_td().variants);
            assert(list_def@ == list_td());
        }
        self.add_type(list_def);
    }
}

/// Facts for unfolding a small type definition's model.
proof fn lemma_typedef_v_small(td: TypeDef)
    ensures
        strings_v(td.type_params@).len() == td.type_params@.len(),
        forall|i: int|
            0 <= i < td.type_params@.len() ==> strings_v(td.type_params@)[i]
                == td.type_params@[i]@,
        variants_v(td.variants@).len() == td.variants@.len(),
        forall|i: int|
            0 <= i < td.variants@.len() ==> variants_v(td.variants@)[i] == td.variants@[i]@,
        forall|i: int|
            0 <= i < td.variants@.len() ==> {
                &&& (#[trigger] variants_v(td.variants@)[i]).fields.len()
                    == td.variants@[i].fields@.len()
                &&& forall|j: int|
                    0 <= j < td.variants@[i].fields@.len() ==> variants_v(td.variants@)[i].fields[j]
                        == ty_v(#[trigger] td.variants@[i].fields@[j])
            },
{
    crate::ast::lemma_strings_v_len(td.type_params@);
    crate::ast::lemma_variants_v_len(td.variants@);
    assert forall|i: int| 0 <= i < td.variants@.len() implies {
        &&& (#[trigger] variants_v(td.variants@)[i]).fields.len() == td.variants@[i].fields@.len()
        &&& forall|j: int|
            0 <= j < td.variants@[i].fields@.len() ==> variants_v(td.variants@)[i].fields[j]
                == ty_v(#[trigger] td.variants@[i].fields@[j])
    } by {
        lemma_tys_v_len(td.variants@[i].fields@);
    }
}

/// The type variable `A`.
fn var_a() -> (r: Type)
    ensures
        r@ == TypeV::Var("A"@),
{
    Type::Var(String::from_str("A"))
}

/// The type variable `B`.
fn var_b() -> (r: Type)
    ensures
        r@ == TypeV::Var("B"@),
{
    Type::Var(String::from_str("B"))
}

/// The type variable `C`.
fn var_c() -> (r: Type)
    ensures
        r@ == TypeV::Var("C"@),
{
    Type::Var(String::from_str("C"))
}

/// The effect ( Int Int -- Int ).
fn int_int_to_int() -> (r: Effect)
    ensures
        r@ == (EffectV {
            ins: StackTypeV::empty().push(TypeV::Int).push(TypeV::Int),
            outs: StackTypeV::empty().push(TypeV::Int),
        }),
{
    Effect {
        inputs: StackType::empty().push(Type::Int).push(Type::Int),
        outputs: StackType::empty().push(Type::Int),
    }
}

/// The effect ( Int Int -- Bool ).
fn int_int_to_bool() -> (r: Effect)
    ensures
        r@ == (EffectV {
            ins: StackTypeV::empty().push(TypeV::Int).push(TypeV::Int),
            outs: StackTypeV::empty().push(TypeV::Bool),
        }),
{
    Effect {
        inputs: StackType::empty().push(Type::Int).push(Type::Int),
        outputs: StackType::empty().push(Type::Bool),
    }
}

/// The words map with every built-in word added to `w`.
pub open spec fn builtin_words_map(w: Map<Seq<char>, EffectV>) -> Map<Seq<char>, EffectV> {
    let a = TypeV::Var("A"@);
    let b = TypeV::Var("B"@);
    let c = TypeV::Var("C"@);
    let e = StackTypeV::empty();
    let ii_i = EffectV { ins: e.push(TypeV::Int).push(TypeV::Int), outs: e.push(TypeV::Int) };
    let ii_b = EffectV { ins: e.push(TypeV::Int).push(TypeV::Int), outs: e.push(TypeV::Bool) };
    w.insert("dup"@, EffectV { ins: e.push(a), outs: e.push(a).push(a) }).insert(
        "drop"@,
        EffectV { ins: e.push(a), outs: e },
    ).insert("swap"@, EffectV { ins: e.push(a).push(b), outs: e.push(b).push(a) }).insert(
        "over"@,
        EffectV { ins: e.push(a).push(b), outs: e.push(a).push(b).push(a) },
    ).insert(
        "rot"@,
        EffectV { ins: e.push(a).push(b).push(c), outs: e.push(b).push(c).push(a) },
    ).insert("nip"@, EffectV { ins: e.push(a).push(b), outs: e.push(b) }).insert(
        "tuck"@,
        EffectV { ins: e.push(a).push(b), outs: e.push(b).push(a).push(b) },
    ).insert("+"@, ii_i).insert("-"@, ii_i).insert("*"@, ii_i).insert("/"@, ii_i).insert(
        "="@,
        ii_b,
    ).insert("<"@, ii_b).insert(">"@, ii_b).insert("<="@, ii_b).insert(">="@, ii_b).insert(
        "!="@,
        ii_b,
    ).insert("clone"@, EffectV { ins: e.push(a), outs: e.push(a).push(a) }).insert(
        "int-to-string"@,
        EffectV { ins: e.push(TypeV::Int), outs: e.push(TypeV::Str) },
    ).insert(
        "bool-to-string"@,
        EffectV { ins: e.push(TypeV::Bool), outs: e.push(TypeV::Str) },
    ).insert("exit"@, EffectV { ins: e.push(TypeV::Int), outs: e })
}

/// The built-in `Option` definition.
pub open spec fn option_td() -> TypeDefV {
    TypeDefV {
        name: "Option"@,
        type_params: seq!["T"@],
        variants: seq![
            VariantV { name: "Some"@, fields: seq![TypeV::Var("T"@)] },
            VariantV { name: "None"@, fields: Seq::empty() },
        ],
    }
}

/// The built-in `Result` definition.
pub open spec fn result_td() -> TypeDefV {
    TypeDefV {
        name: "Result"@,
        type_params: seq!["T"@, "E"@],
        variants: seq![
            VariantV { name: "Ok"@, fields: seq![TypeV::Var("T"@)] },
            VariantV { name: "Err"@, fields: seq![TypeV::Var("E"@)] },
        ],
    }
}

/// The built-in `List` definition.
pub open spec fn list_td() -> TypeDefV {
    TypeDefV {
        name: "List"@,
        type_params: seq!["T"@],
        variants: seq![
            VariantV {
                name: "Cons"@,
                fields: seq![
                    TypeV::Var("T"@),
                    TypeV::Named { name: "List"@, args: seq![TypeV::Var("T"@)] },
                ],
            },
            VariantV { name: "Nil"@, fields: Seq::empty() },
        ],
    }
}

/// The whole built-in environment.
pub open spec fn builtin_env() -> EnvV {
    spec_add_type(
        spec_add_type(
            spec_add_type(
                EnvV { words: builtin_words_map(Map::empty()), types: Map::empty() },
                option_td(),
            ),
            result_td(),
        ),
        list_td(),
    )
}

} // verus!
