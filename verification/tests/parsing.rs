use cemc::parser::Parser;
use cemc::ast::{Expr, SourceLoc};
use cemc::types::Type;
use std::sync::Arc;

#[test]
fn test_parse_simple_word() {
    let input = ": square ( Int -- Int ) dup * ;";
    let mut parser = Parser::new(input);
    let program = parser.parse().unwrap();

    assert_eq!(program.word_defs.len(), 1);
    assert_eq!(program.word_defs[0].name, "square");
    assert_eq!(program.word_defs[0].body.len(), 2);
}

#[test]
fn test_parse_type_def() {
    let input = "type Option (T) | Some(T) | None";
    let mut parser = Parser::new(input);
    let program = parser.parse().unwrap();

    assert_eq!(program.type_defs.len(), 1);
    assert_eq!(program.type_defs[0].name, "Option");
    assert_eq!(program.type_defs[0].type_params.len(), 1);
    assert_eq!(program.type_defs[0].variants.len(), 2);
}

#[test]
fn test_parse_literals() {
    let input = ": test ( -- Int ) 42 ;";
    let mut parser = Parser::new(input);
    let program = parser.parse().unwrap();

    assert_eq!(program.word_defs[0].body.len(), 1);
    match &program.word_defs[0].body[0] {
        Expr::IntLit(42, _) => (),
        _ => panic!("Expected IntLit(42)"),
    }
}

#[test]
fn test_parse_quotation() {
    let input = ": test ( -- ) [ 1 2 + ] ;";
    let mut parser = Parser::new(input);
    let program = parser.parse().unwrap();

    assert_eq!(program.word_defs[0].body.len(), 1);
    match &program.word_defs[0].body[0] {
        Expr::Quotation(exprs, _) => assert_eq!(exprs.len(), 3),
        _ => panic!("Expected Quotation"),
    }
}

#[test]
fn test_recursion_depth_limit() {
    // Nesting beyond 100 levels is rejected with a nesting-depth error.
    let mut input = String::from(": test ( -- ) ");
    for _ in 0..105 {
        input.push_str("[ ");
    }
    input.push_str("42 ");
    for _ in 0..105 {
        input.push_str("] ");
    }
    input.push(';');

    let mut parser = Parser::new(&input);
    let result = parser.parse();

    assert!(result.is_err());
    let err = result.unwrap_err();
    assert!(err.message.contains("nesting depth"));
}

#[test]
fn test_nesting_at_limit_accepted() {
    // Nesting up to the limit still parses.
    let mut input = String::from(": test ( -- ) ");
    for _ in 0..99 {
        input.push_str("[ ");
    }
    input.push_str("42 ");
    for _ in 0..99 {
        input.push_str("] ");
    }
    input.push(';');

    let mut parser = Parser::new(&input);
    assert!(parser.parse().is_ok());
}

#[test]
fn test_source_location_tracking() {
    let input = ": test ( -- Int )\n  42 ;";
    let mut parser = Parser::new_with_filename(input, "test.cem");
    let program = parser.parse().unwrap();

    let word_loc = &program.word_defs[0].loc;
    assert_eq!(word_loc.line, 1);
    assert_eq!(word_loc.column, 1);
    assert_eq!(word_loc.file.as_str(), "test.cem");

    match &program.word_defs[0].body[0] {
        Expr::IntLit(42, loc) => {
            assert_eq!(loc.line, 2);
            // Columns are one-based within a line: two spaces, then '42'
            // starting in column 3.
            assert_eq!(loc.column, 3);
            assert_eq!(loc.file.as_str(), "test.cem");
        }
        _ => panic!("Expected IntLit"),
    }
}

#[test]
fn test_source_location_shared_filename() {
    // All locations of one unit share the same filename allocation.
    let input = ": foo ( -- Int ) 1 2 + ;";
    let mut parser = Parser::new_with_filename(input, "shared.cem");
    let program = parser.parse().unwrap();

    let word_loc = &program.word_defs[0].loc;
    let mut locs = vec![word_loc];
    for expr in &program.word_defs[0].body {
        locs.push(expr.loc());
    }
    for i in 1..locs.len() {
        assert!(
            Arc::ptr_eq(&locs[0].file, &locs[i].file),
            "SourceLoc filenames should share the same Arc allocation"
        );
    }
}

#[test]
fn test_loc_accessor() {
    let input = ": test ( -- ) 42 true \"hello\" word [ 1 ] ;";
    let mut parser = Parser::new_with_filename(input, "test.cem");
    let program = parser.parse().unwrap();

    for expr in &program.word_defs[0].body {
        let loc = expr.loc();
        assert_eq!(loc.file.as_str(), "test.cem");
        assert!(loc.line > 0);
        assert!(loc.column > 0);
    }
}

#[test]
fn test_multiline_location_tracking() {
    let input = ":\ntest\n(\n--\nInt\n)\n42\n;";
    let mut parser = Parser::new(input);
    let program = parser.parse().unwrap();

    match &program.word_defs[0].body[0] {
        Expr::IntLit(42, loc) => {
            assert_eq!(loc.line, 7, "Integer literal should be on line 7");
        }
        _ => panic!("Expected IntLit"),
    }
}

#[test]
fn test_source_loc_unknown() {
    let loc = SourceLoc::unknown();
    assert_eq!(loc.line, 0);
    assert_eq!(loc.column, 0);
    assert_eq!(loc.file.as_str(), "<unknown>");
}

#[test]
fn test_source_loc_display() {
    let loc = SourceLoc::new(10, 5, Arc::new(String::from("test.cem")));
    assert_eq!(loc.render(), "test.cem:10:5");
}

#[test]
fn test_parse_multifield_variant() {
    // Multi-field variants: the comma is never a field type.
    let input = "\n            type List(T)\n              | Cons(T, List(T))\n              | Nil\n        ";

    let mut parser = Parser::new(input);
    let program = parser.parse().unwrap();

    assert_eq!(program.type_defs.len(), 1);
    let typedef = &program.type_defs[0];
    assert_eq!(typedef.name, "List");
    assert_eq!(typedef.type_params.len(), 1);
    assert_eq!(typedef.variants.len(), 2);

    let cons_variant = &typedef.variants[0];
    assert_eq!(cons_variant.name, "Cons");
    assert_eq!(
        cons_variant.fields.len(),
        2,
        "Cons should have 2 fields, not {}. Fields: {:?}",
        cons_variant.fields.len(),
        cons_variant.fields
    );

    for field in &cons_variant.fields {
        if let Type::Named { name, .. } = field {
            assert_ne!(name, ",", "Comma should not be parsed as a field type");
        }
    }

    match &cons_variant.fields[0] {
        Type::Var(name) => assert_eq!(name, "T"),
        other => panic!("First field should be Var(T), got {:?}", other),
    }

    match &cons_variant.fields[1] {
        Type::Named { name, args } => {
            assert_eq!(name, "List");
            assert_eq!(args.len(), 1);
        }
        other => panic!("Second field should be Named(List), got {:?}", other),
    }

    let nil_variant = &typedef.variants[1];
    assert_eq!(nil_variant.name, "Nil");
    assert_eq!(nil_variant.fields.len(), 0);
}

#[test]
fn test_parse_complete_program() {
    let input = "\n        type Option (T)\n          | Some(T)\n          | None\n\n        : unwrap ( Option(Int) Int -- Int )\n          swap match\n            Some => [ swap drop ]\n            None => [ ]\n          end ;\n    ";

    let mut parser = Parser::new(input);
    let result = parser.parse();

    assert!(result.is_ok(), "Parse failed: {:?}", result.err());
    let program = result.unwrap();

    assert_eq!(program.type_defs.len(), 1);
    assert_eq!(program.word_defs.len(), 1);
    assert_eq!(program.type_defs[0].name, "Option");
    assert_eq!(program.type_defs[0].variants.len(), 2);
    assert_eq!(program.word_defs[0].name, "unwrap");
}

#[test]
fn test_parse_pattern_match() {
    let input = "\n        : handle ( Option(Int) -- Int )\n          match\n            Some => [ ]\n            None => [ 0 ]\n          end ;\n    ";

    let mut parser = Parser::new(input);
    let result = parser.parse();

    assert!(result.is_ok());
    let program = result.unwrap();

    assert_eq!(program.word_defs.len(), 1);
    assert_eq!(program.word_defs[0].body.len(), 1);
    match &program.word_defs[0].body[0] {
        Expr::Match { branches, loc: _ } => {
            assert_eq!(branches.len(), 2);
        }
        _ => panic!("Expected Match expression"),
    }
}

#[test]
fn test_parse_if_expression() {
    let input = "\n        : abs ( Int -- Int )\n          dup 0 < if [ 0 swap - ] [ ] ;\n    ";

    let mut parser = Parser::new(input);
    let result = parser.parse();

    assert!(result.is_ok());
    let program = result.unwrap();

    assert_eq!(program.word_defs[0].body.len(), 4);
}

#[test]
fn test_parse_comments() {
    let input = "\n        # This is a comment\n        : square ( Int -- Int )\n          # Duplicate and multiply\n          dup * ;  # End of word\n    ";

    let mut parser = Parser::new(input);
    let result = parser.parse();

    assert!(result.is_ok());
    let program = result.unwrap();
    assert_eq!(program.word_defs.len(), 1);
}

#[test]
fn test_parse_multiple_words() {
    let input = "\n        : double ( Int -- Int )\n          2 * ;\n\n        : quadruple ( Int -- Int )\n          double double ;\n    ";

    let mut parser = Parser::new(input);
    let result = parser.parse();

    assert!(result.is_ok());
    let program = result.unwrap();
    assert_eq!(program.word_defs.len(), 2);
    assert_eq!(program.word_defs[0].name, "double");
    assert_eq!(program.word_defs[1].name, "quadruple");
}

#[test]
fn test_parse_polymorphic_effect() {
    let input = "\n        : dup ( A -- A A )\n          dup ;\n    ";

    let mut parser = Parser::new(input);
    let result = parser.parse();

    assert!(result.is_ok());
    let program = result.unwrap();

    let effect = &program.word_defs[0].effect;
    assert_eq!(effect.inputs.depth(), Some(1));
    assert_eq!(effect.outputs.depth(), Some(2));
}

#[test]
fn test_parse_invalid_integer() {
    // An integer literal beyond the 64-bit range is a parse error.
    let input = ": test ( -- Int ) 99999999999999999999 ;";
    let mut parser = Parser::new(input);
    let result = parser.parse();
    assert!(result.is_err());
    assert!(result.unwrap_err().message.contains("Invalid integer"));
}

#[test]
fn test_parse_int_extremes() {
    let input = ": test ( -- Int Int ) 9223372036854775807 -9223372036854775808 ;";
    let mut parser = Parser::new(input);
    let program = parser.parse().unwrap();
    match &program.word_defs[0].body[0] {
        Expr::IntLit(n, _) => assert_eq!(*n, i64::MAX),
        _ => panic!("Expected IntLit"),
    }
    match &program.word_defs[0].body[1] {
        Expr::IntLit(n, _) => assert_eq!(*n, i64::MIN),
        _ => panic!("Expected IntLit"),
    }
}
