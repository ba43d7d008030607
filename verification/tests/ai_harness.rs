use vyakriti::ast::{AccessModifier, ASTNode, Expression};
use vyakriti::borrow_checker::BorrowChecker;
use vyakriti::exhaustiveness::ExhaustivenessAnalyzer;
use vyakriti::lexer::{Lexer, Token};
use vyakriti::optimizer::ASTOptimizer;
use vyakriti::parser::Parser;
use vyakriti::semantic::{extract_karaka, Karaka, TypeChecker};
use vyakriti::vm::Value;

fn parse(source: &str) -> Result<Vec<ASTNode>, String> {
    let mut lex = Lexer::new(source);
    let tokens = lex.tokenize();
    let mut parser = Parser::new(tokens);
    parser.parse_program()
}

fn type_check(source: &str) -> Result<Vec<ASTNode>, Vec<String>> {
    let ast = parse(source).map_err(|e| vec![e])?;
    let mut tc = TypeChecker::new();
    tc.check_program(ast)
}

#[test]
fn lex_empty_source() {
    let mut lex = Lexer::new("");
    assert!(lex.tokenize().is_empty());
}

#[test]
fn lex_whitespace_only() {
    let mut lex = Lexer::new("   \n\t  \n  ");
    assert!(lex.tokenize().is_empty());
}

#[test]
fn lex_devanagari_zero() {
    let mut lex = Lexer::new("०");
    let t = lex.tokenize();
    assert_eq!(t.len(), 1);
    assert_eq!(t[0].token, Token::IntLiteral(0));
}

#[test]
fn lex_devanagari_digits_1_to_9() {
    for (dev, expected) in [("१", 1), ("२", 2), ("३", 3), ("४", 4), ("५", 5), ("६", 6), ("७", 7), ("८", 8), ("९", 9)] {
        let mut lex = Lexer::new(dev);
        let t = lex.tokenize();
        assert_eq!(t[0].token, Token::IntLiteral(expected), "Failed for {}", dev);
    }
}

#[test]
fn lex_multi_digit_devanagari() {
    let mut lex = Lexer::new("१२३४५");
    assert_eq!(lex.tokenize()[0].token, Token::IntLiteral(12345));
}

#[test]
fn lex_mixed_ascii_devanagari_number() {
    let mut lex = Lexer::new("1२3४");
    assert_eq!(lex.tokenize()[0].token, Token::IntLiteral(1234));
}

#[test]
fn lex_empty_string() {
    let mut lex = Lexer::new(r#""""#);
    assert_eq!(lex.tokenize()[0].token, Token::Literal(Value::Str("".to_string())));
}

#[test]
fn lex_string_with_unicode() {
    let mut lex = Lexer::new(r#""नमस्ते""#);
    assert_eq!(lex.tokenize()[0].token, Token::Literal(Value::Str("नमस्ते".to_string())));
}

#[test]
fn lex_string_escapes() {
    let mut lex = Lexer::new(r#""hello\nworld\t!""#);
    assert_eq!(lex.tokenize()[0].token, Token::Literal(Value::Str("hello\nworld\t!".to_string())));
}

#[test]
fn lex_danda() {
    let mut lex = Lexer::new("।");
    assert_eq!(lex.tokenize()[0].token, Token::Danda);
}

#[test]
fn lex_double_danda() {
    let mut lex = Lexer::new("॥");
    assert_eq!(lex.tokenize()[0].token, Token::DoubleDanda);
}

#[test]
fn lex_boolean_literals() {
    assert_eq!(Lexer::new("सत").tokenize()[0].token, Token::Literal(Value::Bool(true)));
    assert_eq!(Lexer::new("असत").tokenize()[0].token, Token::Literal(Value::Bool(false)));
}

#[test]
fn lex_comparison_devanagari() {
    assert_eq!(Lexer::new("समान").tokenize()[0].token, Token::Samana);
    assert_eq!(Lexer::new("ऊन").tokenize()[0].token, Token::Una);
    assert_eq!(Lexer::new("अग्र").tokenize()[0].token, Token::Agra);
    assert_eq!(Lexer::new("ऊनसमान").tokenize()[0].token, Token::UnaSamana);
    assert_eq!(Lexer::new("अग्रसमान").tokenize()[0].token, Token::AgraSamana);
    assert_eq!(Lexer::new("असमान").tokenize()[0].token, Token::Asamana);
}

#[test]
fn lex_source_locations() {
    let mut lex = Lexer::new("मान\nx\n=\n5\n।");
    let t = lex.tokenize();
    assert_eq!(t[0].line, 1);
    assert_eq!(t[1].line, 2);
    assert_eq!(t[2].line, 3);
    assert_eq!(t[3].line, 4);
    assert_eq!(t[4].line, 5);
}

#[test]
fn lex_float_literal() {
    // The lexer keeps the text of a float literal; the host reads it as an f64.
    let mut lex = Lexer::new("3.14");
    let t = lex.tokenize();
    assert_eq!(t[0].token, Token::FloatLiteral("3.14".to_string()));
    if let Token::FloatLiteral(text) = &t[0].token {
        assert_eq!(text.parse::<f64>().unwrap(), 3.14);
    }
}

#[test]
fn parse_empty() {
    assert!(parse("").unwrap().is_empty());
}

#[test]
fn parse_var_minimal() {
    let nodes = parse("मान x = 5 ।").unwrap();
    match &nodes[0] {
        ASTNode::VarDecl { name, value, .. } => {
            assert_eq!(name, "x");
            assert_eq!(*value, Expression::IntLiteral(5));
        }
        _ => panic!("Expected VarDecl"),
    }
}

#[test]
fn parse_var_typed() {
    let nodes = parse("मान x : अङ्क = 42 ।").unwrap();
    match &nodes[0] {
        ASTNode::VarDecl { name, data_type, value, .. } => {
            assert_eq!(name, "x");
            assert_eq!(data_type, &Some("अङ्क".to_string()));
            assert_eq!(*value, Expression::IntLiteral(42));
        }
        _ => panic!("Expected VarDecl"),
    }
}

#[test]
fn parse_func() {
    let nodes = parse("कार्य योगः(क : अङ्ख, ख : अङ्क) -> अङ्क { प्रतिफल क + ख । }").unwrap();
    match &nodes[0] {
        ASTNode::FuncDecl { name, return_type, .. } => {
            assert_eq!(name, "योगः");
            assert_eq!(return_type, "अङ्क");
        }
        _ => panic!("Expected FuncDecl"),
    }
}

#[test]
fn parse_if() {
    let nodes = parse("यदि (सत) तर्हि { मुद्रण(\"hello\") । }").unwrap();
    match &nodes[0] {
        ASTNode::IfStmt { else_branch, .. } => assert!(else_branch.is_none()),
        _ => panic!("Expected IfStmt"),
    }
}

#[test]
fn parse_if_else() {
    let nodes = parse("यदि (सत) तर्हि { मुद्रण(\"a\") । } अन्यथा { मुद्रण(\"b\") । }").unwrap();
    match &nodes[0] {
        ASTNode::IfStmt { else_branch, .. } => assert!(else_branch.is_some()),
        _ => panic!("Expected IfStmt"),
    }
}

#[test]
fn parse_while() {
    let nodes = parse("यावत् (सत) तावत् { मुद्रण(\"loop\") । }").unwrap();
    match &nodes[0] {
        ASTNode::WhileStmt { body, .. } => assert_eq!(body.len(), 1),
        _ => panic!("Expected WhileStmt"),
    }
}

#[test]
fn parse_enum() {
    let nodes = parse("रूपभेदः रङ्गः { लोहितः, हरितः, नीलः }").unwrap();
    match &nodes[0] {
        ASTNode::EnumDecl { name, variants, .. } => {
            assert_eq!(name, "रङ्गः");
            assert_eq!(variants.len(), 3);
        }
        _ => panic!("Expected EnumDecl"),
    }
}

#[test]
fn parse_struct() {
    let nodes = parse("वस्तु_विन्यासः बिन्दुः { x : अङ्क, y : अङ्क }").unwrap();
    match &nodes[0] {
        ASTNode::StructDecl { name, fields, .. } => {
            assert_eq!(name, "बिन्दुः");
            assert_eq!(fields.len(), 2);
        }
        _ => panic!("Expected StructDecl"),
    }
}

#[test]
fn parse_missing_danda_errors() {
    assert!(parse("मान x = 5").is_err());
}

#[test]
fn parse_multiple_stmts() {
    let nodes = parse("मान a : अङ्क = 1 । मान b : अङ्क = 2 ।").unwrap();
    assert_eq!(nodes.len(), 2);
}

#[test]
fn parse_nested_expr() {
    let nodes = parse("मान x : अङ्क = (2 + 3) * 4 ।").unwrap();
    match &nodes[0] {
        ASTNode::VarDecl { value, .. } => match value {
            Expression::Binary { op, left, .. } => {
                assert_eq!(op, "*");
                match left.as_ref() {
                    Expression::Binary { op: inner, .. } => assert_eq!(inner, "+"),
                    _ => panic!("Expected nested binary"),
                }
            }
            _ => panic!("Expected binary"),
        },
        _ => panic!("Expected VarDecl"),
    }
}

#[test]
fn parse_block_comment() {
    let nodes = parse("/* comment */ मान x = 1 ।").unwrap();
    assert_eq!(nodes.len(), 1);
}

#[test]
fn sem_valid_typed_var() {
    assert!(type_check("मान x : अङ्क = 42 ।").is_ok());
}

#[test]
fn sem_type_mismatch() {
    let result = type_check("मान x : अङ्क = सत ।");
    assert!(result.is_err());
    let errs = result.unwrap_err();
    assert!(errs.iter().any(|e| e.contains("type mismatch")), "Got: {:?}", errs);
}

#[test]
fn sem_undefined_var() {
    assert!(type_check("मान x : अङ्क = y ।").is_err());
}

#[test]
fn sem_valid_func() {
    let src = "कार्य योगः(क : अङ्क, ख : अङ्क) -> अङ्क { मान फलम् : अङ्क = क + ख । प्रतिफल फलम् । }";
    assert!(type_check(src).is_ok(), "Func should typecheck");
}

#[test]
fn sem_if_bool_condition() {
    assert!(type_check("यदि (सत) तर्हि { मान x = 1 । }").is_ok());
}

#[test]
fn sem_nested_scope() {
    let src = "मान x : अङ्क = 1 । यदि (सत) तर्हि { मान y : अङ्क = x + 1 । }";
    assert!(type_check(src).is_ok(), "Nested scope should see outer vars");
}

#[test]
fn sem_karaka_extraction() {
    let (_base, k) = extract_karaka("रामम्_कर्म");
    assert_eq!(k, Karaka::Karma);
    let (_base, k) = extract_karaka("x");
    assert_eq!(k, Karaka::Default);
}

#[test]
fn sem_all_karakas() {
    let cases = [
        ("_कर्तृ", Karaka::Kartr),
        ("_कर्म", Karaka::Karma),
        ("_करण", Karaka::Karana),
        ("_सम्प्रदान", Karaka::Sampradana),
        ("_अपादान", Karaka::Apadana),
        ("_सम्बन्ध", Karaka::Sambandha),
        ("_अधिकरण", Karaka::Adhikarana),
    ];
    for (suffix, expected) in &cases {
        let (base, k) = extract_karaka(&format!("val{}", suffix));
        assert_eq!(base, "val");
        assert_eq!(k, *expected);
    }
}

#[test]
fn sem_param_in_func_body() {
    let src = "कार्य द्विगुणः(n : अङ्क) -> अङ्क { प्रतिफल n * 2 । }";
    assert!(type_check(src).is_ok(), "Params should be in scope");
}

#[test]
fn sem_multiple_vars_no_conflict() {
    let src = "मान a : अङ्क = 1 । मान b : अङ्क = 2 । मान c : अङ्क = a + b ।";
    assert!(type_check(src).is_ok());
}

fn var(name: &str, value: Expression) -> ASTNode {
    ASTNode::VarDecl { name: name.into(), data_type: None, value, access_level: AccessModifier::Private }
}

fn bin(l: Expression, op: &str, r: Expression) -> Expression {
    Expression::Binary { left: Box::new(l), op: op.into(), right: Box::new(r) }
}

#[test]
fn opt_fold_add() {
    let opt = ASTOptimizer::new();
    let result = opt.optimize_program(vec![var("x", bin(Expression::IntLiteral(2), "+", Expression::IntLiteral(3)))]);
    match &result[0] {
        ASTNode::VarDecl { value, .. } => assert_eq!(*value, Expression::Literal(Value::Int(5))),
        _ => panic!("Expected VarDecl"),
    }
}

#[test]
fn opt_fold_mul() {
    let opt = ASTOptimizer::new();
    let result = opt.optimize_program(vec![var("x", bin(Expression::IntLiteral(6), "*", Expression::IntLiteral(7)))]);
    match &result[0] {
        ASTNode::VarDecl { value, .. } => assert_eq!(*value, Expression::Literal(Value::Int(42))),
        _ => panic!("Expected VarDecl"),
    }
}

#[test]
fn opt_fold_comparison() {
    let opt = ASTOptimizer::new();
    let result = opt.optimize_program(vec![var("b", bin(Expression::IntLiteral(3), "==", Expression::IntLiteral(3)))]);
    match &result[0] {
        ASTNode::VarDecl { value, .. } => assert_eq!(*value, Expression::Literal(Value::Bool(true))),
        _ => panic!("Expected VarDecl"),
    }
}

#[test]
fn opt_if_true_elimination() {
    let opt = ASTOptimizer::new();
    let nodes = vec![ASTNode::IfStmt {
        condition: Expression::Literal(Value::Bool(true)),
        then_branch: vec![var("x", Expression::IntLiteral(1))],
        else_branch: None,
    }];
    let result = opt.optimize_program(nodes);
    assert_eq!(result.len(), 1);
}

#[test]
fn opt_if_false_elimination() {
    let opt = ASTOptimizer::new();
    let nodes = vec![ASTNode::IfStmt {
        condition: Expression::Literal(Value::Bool(false)),
        then_branch: vec![],
        else_branch: Some(vec![var("y", Expression::IntLiteral(2))]),
    }];
    let result = opt.optimize_program(nodes);
    assert_eq!(result.len(), 1);
}

#[test]
fn opt_non_constant_preserved() {
    let opt = ASTOptimizer::new();
    let result = opt.optimize_program(vec![var("x", bin(Expression::Variable("a".into()), "+", Expression::IntLiteral(1)))]);
    match &result[0] {
        ASTNode::VarDecl { value, .. } => match value {
            Expression::Binary { .. } => {}
            Expression::Literal(_) => panic!("Should not fold non-constant"),
            _ => {}
        },
        _ => panic!("Expected VarDecl"),
    }
}

#[test]
fn borrow_simple_ok() {
    let mut bc = BorrowChecker::new();
    bc.check_program(&[var("x", Expression::IntLiteral(5))]).unwrap();
}

#[test]
fn borrow_read_twice_ok() {
    let mut bc = BorrowChecker::new();
    bc.check_program(&[
        var("x", Expression::IntLiteral(5)),
        ASTNode::StatementExpr(bin(Expression::Variable("x".into()), "+", Expression::Variable("x".into()))),
    ])
    .unwrap();
}

#[test]
fn borrow_immutable_ok() {
    let mut bc = BorrowChecker::new();
    bc.check_program(&[
        var("x", Expression::IntLiteral(5)),
        ASTNode::StatementExpr(Expression::BorrowExpr { target: "x".into(), is_mutable: false }),
    ])
    .unwrap();
}

#[test]
fn borrow_mutable_blocks() {
    let mut bc = BorrowChecker::new();
    let result = bc.check_program(&[
        var("x", Expression::IntLiteral(5)),
        ASTNode::StatementExpr(Expression::BorrowExpr { target: "x".into(), is_mutable: true }),
        ASTNode::StatementExpr(Expression::BorrowExpr { target: "x".into(), is_mutable: false }),
    ]);
    assert!(result.is_err());
}

#[test]
fn borrow_multiple_immutable_ok() {
    let mut bc = BorrowChecker::new();
    bc.check_program(&[
        var("x", Expression::IntLiteral(5)),
        ASTNode::StatementExpr(Expression::BorrowExpr { target: "x".into(), is_mutable: false }),
        ASTNode::StatementExpr(Expression::BorrowExpr { target: "x".into(), is_mutable: false }),
    ])
    .unwrap();
}

#[test]
fn borrow_in_if() {
    let mut bc = BorrowChecker::new();
    bc.check_program(&[
        var("x", Expression::IntLiteral(5)),
        ASTNode::IfStmt {
            condition: Expression::Variable("x".into()),
            then_branch: vec![ASTNode::StatementExpr(Expression::BorrowExpr { target: "x".into(), is_mutable: false })],
            else_branch: None,
        },
    ])
    .unwrap();
}

fn colour_enum(variants: &[&str]) -> ASTNode {
    ASTNode::EnumDecl {
        name: "रङ्गः".into(),
        variants: variants.iter().map(|v| (v.to_string(), None)).collect(),
        access_level: AccessModifier::Private,
    }
}

fn match_on(target: &str, arms: &[&str]) -> ASTNode {
    ASTNode::StatementExpr(Expression::MatchExpr {
        eval_target: Box::new(Expression::Variable(target.into())),
        arms: arms.iter().enumerate().map(|(i, a)| (a.to_string(), vec![], Expression::IntLiteral(i as i64 + 1))).collect(),
    })
}

#[test]
fn exh_pass() {
    let mut ea = ExhaustivenessAnalyzer::new();
    let nodes = vec![colour_enum(&["लोहितः", "हरितः", "नीलः"]), match_on("c", &["लोहितः", "हरितः", "नीलः"])];
    assert!(ea.analyze_program(&nodes).is_ok());
}

#[test]
fn exh_fail() {
    let mut ea = ExhaustivenessAnalyzer::new();
    let nodes = vec![colour_enum(&["लोहितः", "हरितः", "नीलः"]), match_on("c", &["लोहितः"])];
    assert!(ea.analyze_program(&nodes).is_err());
}

#[test]
fn exh_empty_fail() {
    let mut ea = ExhaustivenessAnalyzer::new();
    let nodes = vec![colour_enum(&["लोहितः"]), match_on("c", &[])];
    assert!(ea.analyze_program(&nodes).is_err());
}

#[test]
fn exh_no_enum_ok() {
    let mut ea = ExhaustivenessAnalyzer::new();
    let nodes = vec![match_on("x", &["pat"])];
    assert!(ea.analyze_program(&nodes).is_ok());
}

#[test]
fn edge_empty_block() {
    assert!(parse("यदि (सत) तर्हि { }").is_ok());
}

#[test]
fn edge_devanagari_id_with_digits() {
    assert!(parse("मान कृत्यम्123 : अङ्क = 1 ।").is_ok());
}

#[test]
fn edge_mixed_script_id() {
    assert!(parse("मान mixed_var : अङ्क = 1 ।").is_ok());
}
