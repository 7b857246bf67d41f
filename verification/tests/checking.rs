use cemc::types::{Type, Effect, StackType};
use cemc::ast::{Expr, SourceLoc, TypeDef, Variant};
use cemc::checker::TypeChecker;
use cemc::environment::Environment;
use cemc::errors::TypeError;
use cemc::unification::{unify_types, unify_stack_types};
use cemc::parser::Parser;

#[test]
fn test_stack_operations() {
    let stack = StackType::empty().push(Type::Int).push(Type::Bool);

    assert_eq!(stack.depth(), Some(2));

    let (rest, top) = stack.pop().unwrap();
    assert_eq!(top, Type::Bool);
    assert_eq!(rest.depth(), Some(1));
}

#[test]
fn test_effect_composition() {
    // dup: (A -- A A)
    let dup = Effect::from_vecs(
        vec![Type::Var("A".to_string())],
        vec![Type::Var("A".to_string()), Type::Var("A".to_string())],
    );

    // +: (Int Int -- Int)
    let plus = Effect::from_vecs(vec![Type::Int, Type::Int], vec![Type::Int]);

    // Composition demands exact equality, so the polymorphic pair fails.
    assert!(Effect::compose(&dup, &plus).is_none());

    let dup_int = Effect::from_vecs(vec![Type::Int], vec![Type::Int, Type::Int]);
    let composed = Effect::compose(&dup_int, &plus);
    assert!(composed.is_some());
    let composed = composed.unwrap();
    assert_eq!(composed.inputs.depth(), Some(1));
    assert_eq!(composed.outputs.depth(), Some(1));
}

#[test]
fn test_copy_types() {
    assert!(Type::Int.is_copy());
    assert!(Type::Bool.is_copy());
    assert!(!Type::String.is_copy());
    assert!(Type::String.is_linear());
}

#[test]
fn test_check_literals() {
    let checker = TypeChecker::new();
    let stack = StackType::empty();

    let result = checker.check_expr(&Expr::IntLit(42, SourceLoc::unknown()), stack.clone_deep());
    assert!(result.is_ok());
    let stack_with_int = result.unwrap();
    assert_eq!(stack_with_int.depth(), Some(1));

    let result = checker.check_expr(&Expr::BoolLit(true, SourceLoc::unknown()), stack.clone_deep());
    assert!(result.is_ok());
}

#[test]
fn test_check_builtin_word() {
    let checker = TypeChecker::new();
    let stack = StackType::empty().push(Type::Int);

    let result = checker.check_expr(
        &Expr::WordCall("dup".to_string(), SourceLoc::unknown()),
        stack,
    );
    assert!(result.is_ok(), "Error: {:?}", result.err());
    let result_stack = result.unwrap();
    assert_eq!(result_stack.depth(), Some(2));
}

#[test]
fn test_undefined_word() {
    let checker = TypeChecker::new();
    let stack = StackType::empty();

    let result = checker.check_expr(
        &Expr::WordCall("unknown".to_string(), SourceLoc::unknown()),
        stack,
    );
    assert!(result.is_err());
    match *result.unwrap_err() {
        TypeError::UndefinedWord { name } => assert_eq!(name, "unknown"),
        _ => panic!("Expected UndefinedWord error"),
    }
}

#[test]
fn test_stack_underflow() {
    let checker = TypeChecker::new();
    let stack = StackType::empty();

    let result = checker.check_expr(
        &Expr::WordCall("+".to_string(), SourceLoc::unknown()),
        stack,
    );
    assert!(result.is_err());
    match *result.unwrap_err() {
        TypeError::StackUnderflow { .. } => (),
        e => panic!("Expected StackUnderflow, got {:?}", e),
    }
}

#[test]
fn test_dup_on_empty_stack_underflows() {
    // `dup` applied to an empty stack raises stack underflow.
    let checker = TypeChecker::new();
    let result = checker.check_expr(
        &Expr::WordCall("dup".to_string(), SourceLoc::unknown()),
        StackType::empty(),
    );
    match *result.unwrap_err() {
        TypeError::StackUnderflow { word, required, available } => {
            assert_eq!(word, "dup");
            assert_eq!(required, 1);
            assert_eq!(available, 0);
        }
        e => panic!("Expected StackUnderflow, got {:?}", e),
    }
}

#[test]
fn test_plus_on_int_bool_rejected() {
    // `+` applied to `(Int Bool)` is a type mismatch: Bool found where
    // Int is required.
    let checker = TypeChecker::new();
    let stack = StackType::empty().push(Type::Int).push(Type::Bool);
    let result = checker.check_expr(
        &Expr::WordCall("+".to_string(), SourceLoc::unknown()),
        stack,
    );
    assert!(result.is_err());
    match *result.unwrap_err() {
        TypeError::TypeMismatch { expected, actual, .. } => {
            assert_eq!(expected, Type::Int);
            assert_eq!(actual, Type::Bool);
        }
        e => panic!("Expected TypeMismatch, got {:?}", e),
    }
}

#[test]
fn test_non_exhaustive_match_lists_missing() {
    // A match missing a variant reports exactly the missing names.
    let input = "\n        type Shade | Red | Green | Blue\n        : pickone ( Shade -- Int )\n          match\n            Red => [ 1 ]\n          end ;\n    ";
    let mut parser = Parser::new(input);
    let program = parser.parse().unwrap();
    let mut checker = TypeChecker::new();
    let result = checker.check_program(&program);
    match *result.unwrap_err() {
        TypeError::NonExhaustiveMatch { ty_name, missing_variants } => {
            assert_eq!(ty_name, "Shade");
            assert_eq!(missing_variants, vec!["Green".to_string(), "Blue".to_string()]);
        }
        e => panic!("Expected NonExhaustiveMatch, got {:?}", e),
    }
}

#[test]
fn test_inconsistent_branch_effects() {
    // Branches producing different stacks are rejected.
    let input = "\n        type Flip | Heads | Tails\n        : play ( Flip -- Int )\n          match\n            Heads => [ 1 ]\n            Tails => [ ]\n          end ;\n    ";
    let mut parser = Parser::new(input);
    let program = parser.parse().unwrap();
    let mut checker = TypeChecker::new();
    let result = checker.check_program(&program);
    match *result.unwrap_err() {
        TypeError::InconsistentBranchEffects { ty_name, .. } => {
            assert_eq!(ty_name, "Flip");
        }
        e => panic!("Expected InconsistentBranchEffects, got {:?}", e),
    }
}

#[test]
fn test_constructor_synthesis() {
    // Registering `type Option(T) | Some(T) | None` synthesises
    // `Some : (T -- Option(T))` and `None : ( -- Option(T))`.
    let mut env = Environment::new();
    env.add_type(TypeDef {
        name: "Box".to_string(),
        type_params: vec!["T".to_string()],
        variants: vec![
            Variant { name: "Full".to_string(), fields: vec![Type::Var("T".to_string())] },
            Variant { name: "Hollow".to_string(), fields: vec![] },
        ],
    });

    let full = env.lookup_word("Full").unwrap();
    assert_eq!(full.inputs.depth(), Some(1));
    assert_eq!(full.outputs.depth(), Some(1));
    let (_, produced) = full.outputs.clone_deep().pop().unwrap();
    match produced {
        Type::Named { name, args } => {
            assert_eq!(name, "Box");
            assert_eq!(args, vec![Type::Var("T".to_string())]);
        }
        other => panic!("Expected the ADT result type, got {:?}", other),
    }

    let hollow = env.lookup_word("Hollow").unwrap();
    assert_eq!(hollow.inputs.depth(), Some(0));
    assert_eq!(hollow.outputs.depth(), Some(1));
}

#[test]
fn test_builtin_option_constructors() {
    let env = Environment::new();
    let some = env.lookup_word("Some").unwrap();
    assert_eq!(some.inputs.depth(), Some(1));
    assert_eq!(some.outputs.depth(), Some(1));
    let none = env.lookup_word("None").unwrap();
    assert_eq!(none.inputs.depth(), Some(0));
}

#[test]
fn test_builtin_words() {
    let env = Environment::new();

    assert!(env.lookup_word("dup").is_some());
    assert!(env.lookup_word("drop").is_some());
    assert!(env.lookup_word("swap").is_some());

    assert!(env.lookup_word("+").is_some());
    assert!(env.lookup_word("*").is_some());

    assert!(env.lookup_word("unknown").is_none());
}

#[test]
fn test_builtin_types() {
    let env = Environment::new();

    let option_def = env.lookup_type("Option");
    assert!(option_def.is_some());
    assert_eq!(option_def.unwrap().variants.len(), 2);

    let result_def = env.lookup_type("Result");
    assert!(result_def.is_some());
    assert_eq!(result_def.unwrap().variants.len(), 2);

    let list_def = env.lookup_type("List");
    assert!(list_def.is_some());
    assert_eq!(list_def.unwrap().variants.len(), 2);
}

#[test]
fn test_add_word() {
    let mut env = Environment::new();

    let square_effect = Effect::from_vecs(vec![Type::Int], vec![Type::Int]);
    env.add_word("square".to_string(), square_effect.clone_deep());

    let looked_up = env.lookup_word("square");
    assert!(looked_up.is_some());
    assert_eq!(*looked_up.unwrap(), square_effect);
}

#[test]
fn test_unify_primitives() {
    assert!(unify_types(&Type::Int, &Type::Int).is_ok());
    assert!(unify_types(&Type::Bool, &Type::Bool).is_ok());
    assert!(unify_types(&Type::Int, &Type::Bool).is_err());
}

#[test]
fn test_unify_type_variables() {
    let a = Type::Var("A".to_string());
    let int = Type::Int;

    let subst = unify_types(&a, &int).unwrap();
    assert_eq!(subst.get("A"), Some(&Type::Int));
}

#[test]
fn test_unify_named_types() {
    let opt_int1 = Type::Named { name: "Option".to_string(), args: vec![Type::Int] };
    let opt_int2 = Type::Named { name: "Option".to_string(), args: vec![Type::Int] };

    assert!(unify_types(&opt_int1, &opt_int2).is_ok());

    let opt_bool = Type::Named { name: "Option".to_string(), args: vec![Type::Bool] };
    assert!(unify_types(&opt_int1, &opt_bool).is_err());
}

#[test]
fn test_unify_stack_types() {
    let stack1 = StackType::empty().push(Type::Int);
    let stack2 = StackType::empty().push(Type::Int);

    assert!(unify_stack_types(&stack1, &stack2).is_ok());

    let stack3 = StackType::empty().push(Type::Bool);
    assert!(unify_stack_types(&stack1, &stack3).is_err());
}

#[test]
fn test_unify_bound_variable_consistency() {
    // A bound variable must stay consistent with its binding.
    let pair1 = Type::Named {
        name: "Pair".to_string(),
        args: vec![Type::Var("A".to_string()), Type::Var("A".to_string())],
    };
    let pair2 = Type::Named { name: "Pair".to_string(), args: vec![Type::Int, Type::Bool] };
    assert!(unify_types(&pair1, &pair2).is_err());

    let pair3 = Type::Named { name: "Pair".to_string(), args: vec![Type::Int, Type::Int] };
    assert!(unify_types(&pair1, &pair3).is_ok());
}

#[test]
fn test_check_whole_program() {
    let input = "\n        : double ( Int -- Int ) dup + ;\n        : quad ( Int -- Int ) double double ;\n    ";
    let mut parser = Parser::new(input);
    let program = parser.parse().unwrap();
    let mut checker = TypeChecker::new();
    assert!(checker.check_program(&program).is_ok());
}

#[test]
fn test_effect_mismatch_reported() {
    let input = ": broken ( Int -- Int ) drop ;";
    let mut parser = Parser::new(input);
    let program = parser.parse().unwrap();
    let mut checker = TypeChecker::new();
    match *checker.check_program(&program).unwrap_err() {
        TypeError::EffectMismatch { word, .. } => assert_eq!(word, "broken"),
        e => panic!("Expected EffectMismatch, got {:?}", e),
    }
}

#[test]
fn test_if_condition_must_be_bool() {
    let input = ": broken ( Int -- Int ) 1 if [ ] [ ] ;";
    let mut parser = Parser::new(input);
    let program = parser.parse().unwrap();
    let mut checker = TypeChecker::new();
    match *checker.check_program(&program).unwrap_err() {
        TypeError::TypeMismatch { expected, actual, .. } => {
            assert_eq!(expected, Type::Bool);
            assert_eq!(actual, Type::Int);
        }
        e => panic!("Expected TypeMismatch, got {:?}", e),
    }
}

#[test]
fn test_match_on_undefined_type() {
    let checker = TypeChecker::new();
    let stack = StackType::empty().push(Type::Named {
        name: "Ghostly".to_string(),
        args: vec![],
    });
    let branches = vec![cemc::ast::MatchBranch {
        pattern: cemc::ast::Pattern::Variant { name: "X".to_string() },
        body: vec![],
    }];
    let result = checker.check_expr(
        &Expr::Match { branches, loc: SourceLoc::unknown() },
        stack,
    );
    match *result.unwrap_err() {
        TypeError::UndefinedType { name } => assert_eq!(name, "Ghostly"),
        e => panic!("Expected UndefinedType, got {:?}", e),
    }
}
