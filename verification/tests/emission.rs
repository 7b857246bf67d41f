use cemc::codegen::{CodeGen, map_operator_to_function, escape_llvm_string, validate_path};
use cemc::ast::{Expr, MatchBranch, Pattern, Program, SourceLoc, TypeDef, Variant, WordDef};
use cemc::types::{Effect, StackType, Type};
use cemc::parser::Parser;
use cemc::numtext::{parse_i64, i64_to_dec, u64_to_dec};

fn compile_source(input: &str) -> String {
    let mut parser = Parser::new(input);
    let program = parser.parse().unwrap();
    let mut codegen = CodeGen::new();
    codegen.compile_program(&program).unwrap()
}

#[test]
fn test_codegen_simple() {
    let mut codegen = CodeGen::new();

    // : five ( -- Int ) 5 ;
    let word = WordDef {
        name: "five".to_string(),
        effect: Effect {
            inputs: StackType::Empty,
            outputs: StackType::Empty.push(Type::Int),
        },
        body: vec![Expr::IntLit(5, SourceLoc::unknown())],
        loc: SourceLoc::unknown(),
    };

    let program = Program { type_defs: vec![], word_defs: vec![word] };

    let ir = codegen.compile_program(&program).unwrap();

    assert!(ir.contains("define ptr @five"));
    assert!(ir.contains("call ptr @push_int"));
    assert!(ir.contains("i64 5"));
    assert!(ir.contains("ret ptr"));
}

#[test]
fn test_codegen_word_call() {
    let mut codegen = CodeGen::new();

    // : double ( Int -- Int ) dup + ;
    let word = WordDef {
        name: "double".to_string(),
        effect: Effect {
            inputs: StackType::Empty.push(Type::Int),
            outputs: StackType::Empty.push(Type::Int),
        },
        body: vec![
            Expr::WordCall("dup".to_string(), SourceLoc::unknown()),
            Expr::WordCall("add".to_string(), SourceLoc::unknown()),
        ],
        loc: SourceLoc::unknown(),
    };

    let program = Program { type_defs: vec![], word_defs: vec![word] };

    let ir = codegen.compile_program(&program).unwrap();

    assert!(ir.contains("@double"));
    assert!(ir.contains("call ptr @dup"));
    assert!(ir.contains("call ptr @add"));
}

#[test]
fn test_no_target_triple_in_generated_ir() {
    let mut codegen = CodeGen::new();

    let word = WordDef {
        name: "test".to_string(),
        effect: Effect { inputs: StackType::Empty, outputs: StackType::Empty },
        body: vec![],
        loc: SourceLoc::unknown(),
    };

    let program = Program { type_defs: vec![], word_defs: vec![word] };

    let ir = codegen.compile_program(&program).unwrap();

    assert!(
        !ir.contains("target triple"),
        "IR should not contain target triple declaration"
    );
}

#[test]
fn test_codegen_quotation() {
    let mut codegen = CodeGen::new();

    // : test ( -- Int ) [ 5 10 add ] call_quotation ;
    let word = WordDef {
        name: "test".to_string(),
        effect: Effect {
            inputs: StackType::Empty,
            outputs: StackType::Empty.push(Type::Int),
        },
        body: vec![
            Expr::Quotation(
                vec![
                    Expr::IntLit(5, SourceLoc::unknown()),
                    Expr::IntLit(10, SourceLoc::unknown()),
                    Expr::WordCall("add".to_string(), SourceLoc::unknown()),
                ],
                SourceLoc::unknown(),
            ),
            Expr::WordCall("call_quotation".to_string(), SourceLoc::unknown()),
        ],
        loc: SourceLoc::unknown(),
    };

    let program = Program { type_defs: vec![], word_defs: vec![word] };

    let ir = codegen.compile_program(&program).unwrap();

    assert!(ir.contains("define ptr @quot_"), "Should generate quotation function");
    assert!(ir.contains("call ptr @push_quotation"), "Should push quotation");
    assert!(ir.contains("call ptr @push_int"), "Quotation should push integers");
    assert!(ir.contains("call ptr @add"), "Quotation should call add");
    assert!(ir.contains("call ptr @call_quotation"), "Should call call_quotation");
}

#[test]
fn test_continuation_code_after_match() {
    let mut codegen = CodeGen::new();

    let list_type = TypeDef {
        name: "List".to_string(),
        type_params: vec!["T".to_string()],
        variants: vec![
            Variant {
                name: "Cons".to_string(),
                fields: vec![
                    Type::Var("T".to_string()),
                    Type::Named { name: "List".to_string(), args: vec![Type::Var("T".to_string())] },
                ],
            },
            Variant { name: "Nil".to_string(), fields: vec![] },
        ],
    };

    // A word with code after a match expression; the continuation must
    // stay reachable.
    let word = WordDef {
        name: "test".to_string(),
        effect: Effect {
            inputs: StackType::Empty,
            outputs: StackType::Cons { rest: Box::new(StackType::Empty), top: Type::Int },
        },
        body: vec![
            Expr::WordCall("Nil".to_string(), SourceLoc::unknown()),
            Expr::Match {
                branches: vec![
                    MatchBranch {
                        pattern: Pattern::Variant { name: "Cons".to_string() },
                        body: vec![
                            Expr::WordCall("drop".to_string(), SourceLoc::unknown()),
                            Expr::WordCall("drop".to_string(), SourceLoc::unknown()),
                            Expr::IntLit(0, SourceLoc::unknown()),
                        ],
                    },
                    MatchBranch {
                        pattern: Pattern::Variant { name: "Nil".to_string() },
                        body: vec![Expr::IntLit(0, SourceLoc::unknown())],
                    },
                ],
                loc: SourceLoc::unknown(),
            },
            Expr::IntLit(42, SourceLoc::unknown()),
            Expr::WordCall("+".to_string(), SourceLoc::unknown()),
        ],
        loc: SourceLoc::unknown(),
    };

    let program = Program { type_defs: vec![list_type], word_defs: vec![word] };

    let ir = codegen.compile_program(&program).unwrap();

    assert!(ir.contains("switch i32"), "Match should generate switch statement");
    assert!(
        ir.contains("call ptr @push_int(ptr %"),
        "Continuation code (push 42) should be in IR"
    );

    if let Some(default_start) = ir.find("match_default_") {
        if let Some(default_block) = ir[default_start..].split('}').next() {
            if let Some(unreachable_pos) = default_block.find("unreachable") {
                let after_unreachable = &default_block[unreachable_pos..];
                assert!(
                    !after_unreachable.contains("push_int"),
                    "Continuation code must NOT appear after unreachable in default block"
                );
            }
        }
    }

    let match_section = if let Some(start) = ir.find("switch i32") {
        if let Some(end) = ir[start..].find("match_continuation_") {
            &ir[start..start + end]
        } else if let Some(end) = ir[start..].find("match_merge_") {
            &ir[start..start + end]
        } else {
            ""
        }
    } else {
        ""
    };

    let musttail_count = match_section.matches("musttail").count();
    assert_eq!(
        musttail_count, 0,
        "Match branches should not use musttail when match is not in tail position"
    );

    let has_merge = ir.contains("match_merge_");
    let has_continuation = ir.contains("match_continuation_");
    assert!(
        has_merge || has_continuation,
        "Non-tail match should have merge or continuation block"
    );
}

#[test]
fn test_emit_five_pipeline() {
    // : five ( -- Int ) 5 ;  from source to module text.
    let ir = compile_source(": five ( -- Int ) 5 ;");
    assert!(ir.contains("define ptr @five"));
    assert!(ir.contains("call ptr @push_int"));
    assert!(ir.contains("i64 5"));
    assert!(ir.contains("ret ptr"));
    assert!(!ir.contains("target triple"));
}

#[test]
fn test_emit_double_order() {
    // @double calls @dup and then @add, in that order.
    let ir = compile_source(": double ( Int -- Int ) dup + ;");
    let body_start = ir.find("define ptr @double").unwrap();
    let dup_pos = ir[body_start..].find("call ptr @dup").unwrap();
    let add_pos = ir[body_start..].find("call ptr @add").unwrap();
    assert!(dup_pos < add_pos);
}

#[test]
fn test_emit_wrap_variant_construction() {
    // A one-field constructor moves the top cell into the payload and
    // pushes the variant with tag 0.
    let ir = compile_source(
        "type Opt(T) | Put(T) | Empty : wrap ( Int -- Opt(Int) ) Put ;",
    );
    let body_start = ir.find("define ptr @wrap").unwrap();
    let body = &ir[body_start..];
    assert!(body.contains("call ptr @alloc_cell()"));
    assert!(body.contains("call void @llvm.memcpy.p0.p0.i64"));
    assert!(body.contains("store ptr null"));
    assert!(body.contains("call ptr @push_variant(ptr %"));
    assert!(body.contains(", i32 0, ptr %"));
}

#[test]
fn test_emit_match_switch_and_default() {
    // A match lowers to a switch; the Put arm copies the payload, and
    // the default arm reports a runtime error and is unreachable.
    let ir = compile_source(
        "type Opt(T) | Put(T) | Empty : pick ( Opt(Int) -- Int ) match Put => [ ] Empty => [ 0 ] end ;",
    );
    let body_start = ir.find("define ptr @pick").unwrap();
    let body = &ir[body_start..];
    assert!(body.contains("switch i32"));
    assert!(body.contains("call ptr @copy_cell(ptr %"));
    assert!(body.contains("match_default_"));
    assert!(body.contains("call void @runtime_error(ptr @.str.match_error)"));
    let default_pos = body.find("match_default_").unwrap();
    let unreachable_pos = body.find("  unreachable").unwrap();
    assert!(default_pos < unreachable_pos);
    // The reserved error global is emitted once, with the terminator
    // counted in its length.
    assert_eq!(
        ir.matches(
            "@.str.match_error = private unnamed_addr constant [47 x i8] c\"match: non-exhaustive pattern (internal error)\\00\"\n"
        )
        .count(),
        1
    );
}

#[test]
fn test_emit_tail_call_then_ret() {
    // A word whose body ends in a user-defined word call ends with a
    // guaranteed tail call followed by a ret of its result.
    let ir = compile_source(": helper ( -- ) ; : top ( -- ) helper ;");
    let body_start = ir.find("define ptr @top").unwrap();
    let body = &ir[body_start..];
    let mt = body.find("musttail call ptr @helper").unwrap();
    let ret = body[mt..].find("ret ptr %").unwrap();
    assert!(ret > 0);
}

#[test]
fn test_emit_tail_match_no_merge() {
    // When every branch of a terminal match ends in a tail call, no join
    // block and no trailing ret are emitted: each branch returns.
    let ir = compile_source(
        "type Flip | Heads | Tails : f ( -- ) ; : g ( -- ) ; : w ( Flip -- ) match Heads => [ f ] Tails => [ g ] end ;",
    );
    let body_start = ir.find("define ptr @w").unwrap();
    let body = &ir[body_start..];
    assert!(body.contains("musttail call ptr @f"));
    assert!(body.contains("musttail call ptr @g"));
    assert!(!body.contains("match_merge_"));
    assert!(!body.contains("match_continuation_"));
}

#[test]
fn test_emit_builtins_never_musttail() {
    // Runtime built-ins are called normally even in tail position.
    let ir = compile_source(": last ( Int Int -- Int ) + ;");
    assert!(!ir.contains("musttail"));
    assert!(ir.contains("call ptr @add"));
}

#[test]
fn test_emit_string_interning() {
    // The same literal twice gives exactly one global constant and two
    // use sites.
    let ir = compile_source(
        ": greet ( -- ) \"hi\" write_line ; : greet2 ( -- ) \"hi\" write_line ;",
    );
    assert_eq!(ir.matches("c\"hi\\00\"").count(), 1);
    assert_eq!(ir.matches("getelementptr inbounds [3 x i8]").count(), 2);
}

#[test]
fn test_emit_cem_main_renamed() {
    // The Cem word `main` becomes @cem_main, and the entry wires up the
    // scheduler around it.
    let mut parser = Parser::new(": main ( -- ) ;");
    let program = parser.parse().unwrap();
    let mut codegen = CodeGen::new();
    let ir = codegen.compile_program_with_main(&program, Some("main")).unwrap();
    assert!(ir.contains("define ptr @cem_main"));
    assert!(ir.contains("define i32 @main()"));
    assert!(ir.contains("call i64 @strand_spawn(ptr @cem_main, ptr null)"));
    assert!(ir.contains("call void @scheduler_init()"));
    assert!(ir.contains("call void @scheduler_shutdown()"));
}

#[test]
fn test_operator_mangling() {
    // Operators are renamed to the runtime's function names.
    assert_eq!(map_operator_to_function("+"), "add");
    assert_eq!(map_operator_to_function("-"), "subtract");
    assert_eq!(map_operator_to_function("*"), "multiply");
    assert_eq!(map_operator_to_function("/"), "divide");
    assert_eq!(map_operator_to_function("<"), "lt");
    assert_eq!(map_operator_to_function(">"), "gt");
    assert_eq!(map_operator_to_function("<="), "le");
    assert_eq!(map_operator_to_function(">="), "ge");
    assert_eq!(map_operator_to_function("="), "eq");
    assert_eq!(map_operator_to_function("!="), "ne");
    assert_eq!(map_operator_to_function("exit"), "exit_op");
    assert_eq!(map_operator_to_function("int-to-string"), "int_to_string");
    assert_eq!(map_operator_to_function("plain"), "plain");
}

#[test]
fn test_escape_llvm_text() {
    assert_eq!(escape_llvm_string("abc"), "abc");
    assert_eq!(escape_llvm_string("a\"b"), "a\\\"b");
    assert_eq!(escape_llvm_string("a\\b"), "a\\\\b");
    assert_eq!(escape_llvm_string("a\nb"), "a\\0Ab");
}

#[test]
fn test_validate_path_rules() {
    assert!(validate_path("out/prog").is_ok());
    assert!(validate_path("prog").is_ok());
    assert!(validate_path("a..b/c").is_ok());
    assert!(validate_path("-flag").is_err());
    assert!(validate_path("a/../b").is_err());
    assert!(validate_path("..").is_err());
    assert!(validate_path("x/..").is_err());
}

#[test]
fn test_parse_i64_bounds() {
    assert_eq!(parse_i64("0"), Some(0));
    assert_eq!(parse_i64("-17"), Some(-17));
    assert_eq!(parse_i64("9223372036854775807"), Some(i64::MAX));
    assert_eq!(parse_i64("-9223372036854775808"), Some(i64::MIN));
    assert_eq!(parse_i64("9223372036854775808"), None);
    assert_eq!(parse_i64("-9223372036854775809"), None);
    assert_eq!(parse_i64(""), None);
    assert_eq!(parse_i64("12a"), None);
    assert_eq!(parse_i64("-"), None);
}

#[test]
fn test_decimal_rendering() {
    assert_eq!(u64_to_dec(0), "0");
    assert_eq!(u64_to_dec(90210), "90210");
    assert_eq!(i64_to_dec(-42), "-42");
    assert_eq!(i64_to_dec(i64::MIN), "-9223372036854775808");
}
