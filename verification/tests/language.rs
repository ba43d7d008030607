use vyakriti::ast::{AccessModifier, ASTNode, Expression};
use vyakriti::borrow_checker::BorrowChecker;
use vyakriti::compiler::{is_builtin, BytecodeCompiler};
use vyakriti::lexer::{Lexer, Token};
use vyakriti::optimizer::ASTOptimizer;
use vyakriti::parser::Parser;
use vyakriti::semantic;
use vyakriti::semantic::TypeChecker;
use vyakriti::vm::Value;

#[test]
fn test_extract_karaka_devanagari() {
    let (base, k) = semantic::extract_karaka("रामम्_कर्म");
    assert_eq!(base, "रामम्");
    assert_eq!(k, semantic::Karaka::Karma);
}

#[test]
fn test_extract_karaka_no_suffix() {
    let (base, k) = semantic::extract_karaka("x");
    assert_eq!(base, "x");
    assert_eq!(k, semantic::Karaka::Default);
}

#[test]
fn test_type_checker_accepts_valid_program() {
    let mut lex = Lexer::new("मान x : अङ्क = 42 ।");
    let st = lex.tokenize();
    let mut p = Parser::new(st);
    let ast = p.parse_program().unwrap();
    let mut tc = TypeChecker::new();
    assert!(tc.check_program(ast).is_ok());
}

#[test]
fn test_type_checker_rejects_type_mismatch() {
    let mut lex = Lexer::new("मान x : अङ्क = सत ।");
    let st = lex.tokenize();
    let mut p = Parser::new(st);
    let ast = p.parse_program().unwrap();
    let mut tc = TypeChecker::new();
    let result = tc.check_program(ast);
    assert!(result.is_err(), "type mismatch should produce an error");
    let errors = result.unwrap_err();
    assert!(errors.iter().any(|e| e.contains("type mismatch")));
}

#[test]
fn test_type_checker_rejects_undefined_variable() {
    let mut lex = Lexer::new("मान x : अङ्क = y ।");
    let st = lex.tokenize();
    let mut p = Parser::new(st);
    let ast = p.parse_program().unwrap();
    let mut tc = TypeChecker::new();
    let result = tc.check_program(ast);
    assert!(result.is_err(), "undefined variable should produce an error");
    let errors = result.unwrap_err();
    assert!(errors.iter().any(|e| e.contains("undefined variable")));
}

#[test]
fn test_karaka_detects_all_suffixes() {
    let cases = [
        ("_कर्तृ", semantic::Karaka::Kartr),
        ("_कर्म", semantic::Karaka::Karma),
        ("_करण", semantic::Karaka::Karana),
        ("_सम्प्रदान", semantic::Karaka::Sampradana),
        ("_अपादान", semantic::Karaka::Apadana),
        ("_सम्बन्ध", semantic::Karaka::Sambandha),
        ("_अधिकरण", semantic::Karaka::Adhikarana),
    ];
    for (suffix, expected) in &cases {
        let name = format!("val{}", suffix);
        let (base, k) = semantic::extract_karaka(&name);
        assert_eq!(base, "val", "failed for suffix {}", suffix);
        assert_eq!(k, *expected, "failed for suffix {}", suffix);
    }
}

fn symbol(name: &str, t: semantic::GanaType, depth: usize) -> semantic::Symbol {
    semantic::Symbol {
        name: name.into(),
        base_name: name.into(),
        karaka: semantic::Karaka::Default,
        resolved_type: semantic::ResolvedType::Known(t),
        depth,
        is_function: false,
        param_count: 0,
        param_types: vec![],
        access_level: semantic::AccessModifier::Private,
    }
}

#[test]
fn test_symbol_table_scope_management() {
    let mut st = semantic::SymbolTable::new();
    st.insert("x".into(), symbol("x", semantic::GanaType::integer(), 0));
    assert!(st.lookup("x").is_some());
    st.push_scope();
    st.insert("y".into(), symbol("y", semantic::GanaType::bool(), 1));
    assert!(st.lookup("x").is_some(), "outer scope visible from inner");
    assert!(st.lookup("y").is_some(), "inner scope visible");
    st.pop_scope();
    assert!(st.lookup("y").is_none(), "inner scope gone after pop");
    assert!(st.lookup("x").is_some(), "outer scope still visible");
}

#[test]
fn test_type_checker_functions_typecheck() {
    let src = r#"
        कार्य योगः(क : अङ्क, ख : अङ्क) {
            मान फलम् : अङ्क = क + ख ।
        }
        योगः(3, 4) ।
    "#;
    let mut lex = Lexer::new(src);
    let st = lex.tokenize();
    let mut p = Parser::new(st);
    let ast = p.parse_program().unwrap();
    let mut tc = TypeChecker::new();
    assert!(tc.check_program(ast).is_ok(), "valid function should typecheck");
}

#[test]
fn test_std_pipeline_with_semantic_pass() {
    let source = "मान x : अङ्क = 5 ।";
    let mut lex = Lexer::new(source);
    let st = lex.tokenize();
    let mut p = Parser::new(st);
    let ast = p.parse_program().unwrap();
    let mut tc = TypeChecker::new();
    let checked = tc.check_program(ast).expect("semantic pass should succeed");
    assert_eq!(checked.len(), 1, "should have 1 node after semantic pass");
}

#[test]
fn test_lexer_basic_tokens() {
    let mut lex = Lexer::new("मान x : अङ्क = 5 ।");
    let tokens = lex.tokenize();
    assert!(!tokens.is_empty(), "should produce tokens");
    assert_eq!(tokens[0].token, Token::VarDeclKW);
    assert!(tokens.iter().any(|t| matches!(&t.token, Token::Identifier(id) if id == "x")));
    assert!(tokens.iter().any(|t| t.token == Token::IntLiteral(5)));
    assert!(tokens.iter().any(|t| t.token == Token::Danda));
}

#[test]
fn test_lexer_less_equal_greater_equal() {
    let mut lex = Lexer::new("x <= 5 >= 3");
    let tokens = lex.tokenize();
    let toks: Vec<_> = tokens.iter().map(|t| &t.token).collect();
    assert!(toks.contains(&&Token::LessEqual), "<= should emit LessEqual");
    assert!(toks.contains(&&Token::GreaterEqual), ">= should emit GreaterEqual");
}

#[test]
fn test_lexer_devanagari_keywords() {
    let mut lex = Lexer::new("यदि तर्हि अन्यथा प्रतिफल कार्य मान");
    let tokens = lex.tokenize();
    let toks: Vec<_> = tokens.iter().map(|t| &t.token).collect();
    assert!(toks.contains(&&Token::If));
    assert!(toks.contains(&&Token::Tarhi));
    assert!(toks.contains(&&Token::Anyatha));
    assert!(toks.contains(&&Token::Pratiphala));
    assert!(toks.contains(&&Token::FuncDeclKW));
    assert!(toks.contains(&&Token::VarDeclKW));
}

#[test]
fn test_lexer_cha_va() {
    let mut lex = Lexer::new("च वा");
    let tokens = lex.tokenize();
    let toks: Vec<_> = tokens.iter().map(|t| &t.token).collect();
    assert!(toks.contains(&&Token::Cha));
    assert!(toks.contains(&&Token::Va));
}

#[test]
fn test_lexer_string_escape() {
    let mut lex = Lexer::new(r#""hello\nworld""#);
    let tokens = lex.tokenize();
    if let Token::Literal(Value::Str(s)) = &tokens[0].token {
        assert_eq!(s, "hello\nworld");
    } else {
        panic!("expected Str literal");
    }
}

#[test]
fn test_lexer_devanagari_digit_normalization() {
    let mut lex = Lexer::new("१२३");
    let tokens = lex.tokenize();
    assert_eq!(tokens[0].token, Token::IntLiteral(123));
}

#[test]
fn test_parser_simple_program() {
    let mut lex = Lexer::new("मान x : अङ्क = 5 ।");
    let spanned = lex.tokenize();
    let mut parser = Parser::new(spanned);
    let ast = parser.parse_program().expect("should parse");
    assert_eq!(ast.len(), 1);
    match &ast[0] {
        ASTNode::VarDecl { name, data_type, value, .. } => {
            assert_eq!(name, "x");
            assert_eq!(data_type, &Some("अङ्क".into()));
            assert_eq!(value, &Expression::IntLiteral(5));
        }
        _ => panic!("expected VarDecl"),
    }
}

#[test]
fn test_parser_binary_expression() {
    let mut lex = Lexer::new("मान y : अङ्क = 10 + 20 ।");
    let spanned = lex.tokenize();
    let mut parser = Parser::new(spanned);
    let ast = parser.parse_program().expect("should parse");
    match &ast[0] {
        ASTNode::VarDecl { value, .. } => match value {
            Expression::Binary { left, op, right } => {
                assert_eq!(op, "+");
                assert_eq!(**left, Expression::IntLiteral(10));
                assert_eq!(**right, Expression::IntLiteral(20));
            }
            _ => panic!("expected Binary expression"),
        },
        _ => panic!("expected VarDecl"),
    }
}

#[test]
fn test_parser_function_return_type_and_parenthesized_if() {
    let src = r#"
        कार्य योगः(क : अङ्क, ख : अङ्क) -> अङ्क {
            प्रतिफल क + ख ।
        }
        यदि (सत) तर्हि { योगः(1, 2) । }
    "#;
    let mut lex = Lexer::new(src);
    let spanned = lex.tokenize();
    let mut parser = Parser::new(spanned);
    let ast = parser.parse_program().expect("should parse function and parens");
    match &ast[0] {
        ASTNode::FuncDecl { return_type, .. } => assert_eq!(return_type, "अङ्क"),
        _ => panic!("expected function declaration"),
    }
    assert!(matches!(ast[1], ASTNode::IfStmt { .. }));
}

#[test]
fn test_borrow_checker_no_false_positive() {
    let mut bc = BorrowChecker::new();
    let nodes = vec![
        ASTNode::VarDecl {
            name: "x".into(),
            data_type: Some("अङ्क".into()),
            value: Expression::IntLiteral(5),
            access_level: AccessModifier::Private,
        },
        ASTNode::StatementExpr(Expression::Binary {
            left: Box::new(Expression::Variable("x".into())),
            op: "+".into(),
            right: Box::new(Expression::Variable("x".into())),
        }),
    ];
    assert!(bc.check_program(&nodes).is_ok(), "reading x twice should be allowed");
}

#[test]
fn test_optimizer_constant_folding() {
    let opt = ASTOptimizer::new();
    let nodes = vec![ASTNode::VarDecl {
        name: "z".into(),
        data_type: None,
        value: Expression::Binary {
            left: Box::new(Expression::IntLiteral(100)),
            op: "*".into(),
            right: Box::new(Expression::IntLiteral(200)),
        },
        access_level: AccessModifier::Private,
    }];
    let result = opt.optimize_program(nodes);
    if let ASTNode::VarDecl { value, .. } = &result[0] {
        assert_eq!(value, &Expression::Literal(Value::Int(20000)));
    } else {
        panic!("expected VarDecl with folded literal");
    }
}

#[test]
fn test_lexer_source_location() {
    let mut lex = Lexer::new("मान\nx = 5\n।");
    let tokens = lex.tokenize();
    assert_eq!(tokens[0].line, 1);
    assert_eq!(tokens[0].col, 1);
    assert_eq!(tokens[1].line, 2);
    assert_eq!(tokens[1].col, 1);
}

#[test]
fn test_parser_error_with_location() {
    let mut lex = Lexer::new("मान x : अङ्क = 5");
    let spanned = lex.tokenize();
    let mut parser = Parser::new(spanned);
    let result = parser.parse_program();
    assert!(result.is_err(), "should fail due to missing ।");
    let err = result.unwrap_err();
    assert!(err.contains("error:"), "error should contain 'error:', got: {}", err);
}

#[test]
fn test_builtin_is_builtin() {
    assert!(is_builtin("मुद्रण"));
    assert!(is_builtin("दैर्घ्यम्"));
    assert!(is_builtin("प्रकारः"));
    assert!(!is_builtin("print"));
    assert!(!is_builtin("len"));
    assert!(!is_builtin("user_fn"));
}

#[test]
fn test_builtin_emit_callbuiltin() {
    let mut cc = BytecodeCompiler::new();
    cc.compile_expr(Expression::Call {
        name: "मुद्रण".into(),
        args: vec![Expression::Literal(Value::Str("hello".into()))],
    })
    .expect("compile builtin");
    let bc = cc.get_bytecode();
    assert!(!bc.is_empty());
}

#[test]
fn test_builtin_skipped_by_linker() {
    let mut cc = BytecodeCompiler::new();
    cc.compile(ASTNode::StatementExpr(Expression::Call {
        name: "मुद्रण".into(),
        args: vec![Expression::IntLiteral(42)],
    }))
    .expect("compile builtin statement");
    assert!(cc.link_unresolved_references().is_ok());
}
