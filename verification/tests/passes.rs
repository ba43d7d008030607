use vyakriti::ast::{AccessModifier, ASTNode, Expression};
use vyakriti::derive_processor::DeriveProcessor;
use vyakriti::equality::{expr_eq, node_eq, nodes_eq};
use vyakriti::exhaustiveness::ExhaustivenessAnalyzer;
use vyakriti::jit_compiler::JitCompiler;
use vyakriti::macro_expander::MacroExpander;
use vyakriti::monomorphizer::ASTMonomorphizer;
use vyakriti::optimizer::ASTOptimizer;
use vyakriti::vm::Value;

fn var(name: &str, value: Expression) -> ASTNode {
    ASTNode::VarDecl { name: name.into(), data_type: None, value, access_level: AccessModifier::Public }
}

fn bin(l: Expression, op: &str, r: Expression) -> Expression {
    Expression::Binary { left: Box::new(l), op: op.into(), right: Box::new(r) }
}

fn v(name: &str) -> Expression {
    Expression::Variable(name.into())
}

#[test]
fn exhaustiveness_reports_missing_variants_in_order() {
    let mut ea = ExhaustivenessAnalyzer::new();
    let nodes = vec![
        ASTNode::EnumDecl {
            name: "रङ्गः".into(),
            variants: vec![("लोहितः".into(), None), ("हरितः".into(), None), ("नीलः".into(), None)],
            access_level: AccessModifier::Private,
        },
        var("m", Expression::MatchExpr {
            eval_target: Box::new(v("c")),
            arms: vec![("हरितः".into(), vec![], Expression::IntLiteral(1))],
        }),
    ];
    let err = ea.analyze_program(&nodes).unwrap_err();
    assert_eq!(
        err,
        "Compile-Time Interface Failure: Match block for enum 'रङ्गः' missing branch variants: [\"लोहितः\", \"नीलः\"]"
    );
    assert_eq!(ea.enum_registry.get("रङ्गः").map(|v| v.len()), Some(3));
    assert_eq!(ea.variant_to_enum.get("नीलः").map(|s| s.as_str()), Some("रङ्गः"));
}

#[test]
fn exhaustiveness_empty_match_message_and_nested_matches_checked() {
    let mut ea = ExhaustivenessAnalyzer::new();
    let empty = || vec![ASTNode::StatementExpr(Expression::MatchExpr { eval_target: Box::new(v("c")), arms: vec![] })];
    assert_eq!(ea.analyze_program(&empty()).unwrap_err(), "Compile-Time Error: Matching expression matrix must contain cases.");
    let nested = vec![ASTNode::Block(empty())];
    assert_eq!(
        ExhaustivenessAnalyzer::new().analyze_program(&nested).unwrap_err(),
        "Compile-Time Error: Matching expression matrix must contain cases."
    );
    let in_loop = vec![ASTNode::WhileStmt { condition: Expression::Literal(Value::Bool(true)), body: empty() }];
    assert!(ExhaustivenessAnalyzer::new().analyze_program(&in_loop).is_err());
}

#[test]
fn exhaustiveness_checks_function_bodies_and_returns() {
    let decl = || ASTNode::EnumDecl {
        name: "रङ्गः".into(),
        variants: vec![("लोहितः".into(), None), ("हरितः".into(), None), ("नीलः".into(), None)],
        access_level: AccessModifier::Private,
    };
    let partial = || Expression::MatchExpr {
        eval_target: Box::new(v("c")),
        arms: vec![("लोहितः".into(), vec![], Expression::IntLiteral(1))],
    };
    let f = ASTNode::FuncDecl {
        name: "f".into(),
        parameters: vec![],
        return_type: "शून्य".into(),
        body: vec![ASTNode::StatementExpr(partial())],
        access_level: AccessModifier::Private,
    };
    assert!(ExhaustivenessAnalyzer::new().analyze_program(&[decl(), f]).is_err());
    let g = ASTNode::IfStmt {
        condition: Expression::Literal(Value::Bool(true)),
        then_branch: vec![ASTNode::ReturnStmt(partial())],
        else_branch: None,
    };
    assert!(ExhaustivenessAnalyzer::new().analyze_program(&[decl(), g]).is_err());
}

#[test]
fn derive_adds_printing_impl_after_struct() {
    let mut dp = DeriveProcessor::new();
    let s = ASTNode::StructDecl {
        name: "बिन्दुः".into(),
        attributes: vec!["मुद्रणयोग्यता".into(), "अन्यः".into()],
        fields: vec![("x".into(), "अङ्क".into()), ("y".into(), "अङ्क".into())],
        access_level: AccessModifier::Public,
    };
    let out = dp.expand_attributes(vec![s.clone(), ASTNode::NoOp]);
    assert_eq!(out.len(), 3);
    assert_eq!(out[0], s);
    match &out[1] {
        ASTNode::ImplBlock { trait_name, target_type, methods } => {
            assert_eq!(trait_name, "मुद्रणयोग्यता");
            assert_eq!(target_type, "बिन्दुः");
            match &methods[0] {
                ASTNode::FuncDecl { name, parameters, return_type, body, access_level } => {
                    assert_eq!(name, "विवरणम्");
                    assert_eq!(parameters, &vec![("स्वयं".to_string(), "बिन्दुः".to_string())]);
                    assert_eq!(return_type, "शून्य");
                    assert_eq!(*access_level, AccessModifier::Public);
                    assert_eq!(
                        body[1],
                        ASTNode::StatementExpr(Expression::Call { name: "मुद्रण".into(), args: vec![v("स्वयं.y")] })
                    );
                }
                _ => panic!("expected method"),
            }
        }
        _ => panic!("expected impl"),
    }
    assert_eq!(out[2], ASTNode::NoOp);
}

#[test]
fn macro_calls_expand_with_substitution() {
    let mut me = MacroExpander::new();
    let decl = ASTNode::MacroDecl {
        name: "द्वि".into(),
        params: vec!["a".into()],
        body: vec![var("r", bin(v("a"), "+", v("a"))), ASTNode::ReturnStmt(v("b"))],
    };
    let call = ASTNode::MacroCall { name: "द्वि".into(), args: vec![Expression::IntLiteral(3)] };
    let out = me.expand_program(vec![decl, call]);
    assert_eq!(out.len(), 2);
    match &out[0] {
        ASTNode::VarDecl { value, access_level, .. } => {
            assert_eq!(*value, bin(Expression::IntLiteral(3), "+", Expression::IntLiteral(3)));
            assert_eq!(*access_level, AccessModifier::Private);
        }
        _ => panic!("expected declaration"),
    }
    assert_eq!(out[1], ASTNode::ReturnStmt(v("b")));
    assert!(me.macro_registry.contains_key("द्वि"));
}

#[test]
fn macro_declared_in_branch_stays_registered() {
    let mut me = MacroExpander::new();
    let inner = ASTNode::MacroDecl { name: "m".into(), params: vec![], body: vec![ASTNode::NoOp] };
    let out = me.expand_program(vec![
        ASTNode::IfStmt { condition: v("c"), then_branch: vec![inner], else_branch: None },
        ASTNode::MacroCall { name: "m".into(), args: vec![] },
    ]);
    assert_eq!(
        out,
        vec![ASTNode::IfStmt { condition: v("c"), then_branch: vec![], else_branch: None }, ASTNode::NoOp]
    );
}

#[test]
fn monomorphizer_specializes_once_and_prepends() {
    let mut mono = ASTMonomorphizer::new();
    let generic = ASTNode::GenericFuncDecl {
        name: "प्रथमः".into(),
        type_params: vec!["T".into()],
        parameters: vec![("x".into(), "T".into()), ("n".into(), "अङ्क".into())],
        return_type: "T".into(),
        body: vec![ASTNode::ReturnStmt(v("x"))],
        access_level: AccessModifier::Public,
    };
    let call = |t: &str| Expression::GenericCall { name: "प्रथमः".into(), concrete_types: vec![t.into()], args: vec![v("a")] };
    let out = mono.process_program(vec![generic, var("p", call("अङ्क")), ASTNode::StatementExpr(call("अङ्क"))]);
    assert_eq!(out.len(), 3);
    match &out[0] {
        ASTNode::FuncDecl { name, parameters, return_type, access_level, .. } => {
            assert_eq!(name, "प्रथमः_अङ्क");
            assert_eq!(parameters, &vec![("x".to_string(), "अङ्क".to_string()), ("n".to_string(), "अङ्क".to_string())]);
            assert_eq!(return_type, "अङ्क");
            assert_eq!(*access_level, AccessModifier::Private);
        }
        _ => panic!("expected specialization"),
    }
    assert_eq!(out[2], ASTNode::StatementExpr(Expression::Call { name: "प्रथमः_अङ्क".into(), args: vec![v("a")] }));
    assert_eq!(mono.generated_functions.len(), 1);
}

#[test]
fn jit_emits_prologue_immediates_epilogue() {
    let mut jit = JitCompiler::new();
    let body = vec![
        ASTNode::StatementExpr(bin(v("x"), "+", Expression::IntLiteral(5))),
        ASTNode::StatementExpr(bin(v("x"), "-", Expression::IntLiteral(-1))),
        var("ignored", Expression::IntLiteral(9)),
    ];
    let code = jit.compile_function(&body).unwrap();
    let mut expected = vec![0x55, 0x48, 0x89, 0xE5, 0x48, 0x89, 0xF8];
    expected.extend_from_slice(&[0x48, 0x05]);
    expected.extend_from_slice(&5i32.to_le_bytes());
    expected.extend_from_slice(&[0x48, 0x2D]);
    expected.extend_from_slice(&(-1i32).to_le_bytes());
    expected.extend_from_slice(&[0x5D, 0xC3]);
    assert_eq!(code, expected);
}

#[test]
fn jit_rejects_other_operators() {
    let mut jit = JitCompiler::new();
    let err = jit.compile_function(&[ASTNode::StatementExpr(bin(v("x"), "*", Expression::IntLiteral(2)))]).unwrap_err();
    assert_eq!(err, "JIT Error: Instruction operation '*' not supported inside runtime bare-metal code generator compilation steps.");
}

#[test]
fn structural_equality() {
    let a = var("x", bin(Expression::Literal(Value::Str("s".into())), "+", Expression::IntLiteral(1)));
    let b = var("x", bin(Expression::Literal(Value::Str("s".into())), "+", Expression::IntLiteral(1)));
    let c = var("x", bin(Expression::Literal(Value::Str("t".into())), "+", Expression::IntLiteral(1)));
    assert!(node_eq(&a, &b));
    assert!(!node_eq(&a, &c));
    assert!(!expr_eq(&v("x"), &Expression::IntLiteral(1)));
    assert!(nodes_eq(&vec![a.clone()], &vec![b]));
    assert!(!nodes_eq(&vec![a.clone()], &vec![a.clone(), a]));
}

#[test]
fn try_expand_refuses_unregistered_macro() {
    let mut me = MacroExpander::new();
    let call = ASTNode::MacroCall { name: "अज्ञातः".into(), args: vec![] };
    assert!(me.try_expand_program(vec![call]).is_none());
    let mut me2 = MacroExpander::new();
    let decl = ASTNode::MacroDecl { name: "द्वि".into(), params: vec!["a".into()], body: vec![ASTNode::ReturnStmt(v("a"))] };
    let call = ASTNode::MacroCall { name: "द्वि".into(), args: vec![Expression::IntLiteral(2)] };
    let out = me2.try_expand_program(vec![decl, call]).expect("declared macro expands");
    assert_eq!(out, vec![ASTNode::ReturnStmt(Expression::IntLiteral(2))]);
}

#[test]
fn try_process_refuses_unknown_template() {
    let mut mono = ASTMonomorphizer::new();
    let call = Expression::GenericCall { name: "अज्ञातः".into(), concrete_types: vec!["अङ्क".into()], args: vec![] };
    assert!(mono.try_process_program(vec![var("x", call)]).is_none());
    let mut mono2 = ASTMonomorphizer::new();
    assert_eq!(mono2.try_process_program(vec![var("y", Expression::IntLiteral(1))]), Some(vec![ASTNode::VarDecl {
        name: "y".into(),
        data_type: None,
        value: Expression::IntLiteral(1),
        access_level: AccessModifier::Private,
    }]));
}

#[test]
fn try_optimize_refuses_overflowing_fold() {
    let opt = ASTOptimizer::new();
    let big = bin(Expression::IntLiteral(i64::MAX), "+", Expression::IntLiteral(1));
    assert!(opt.try_optimize_program(vec![var("x", big)]).is_none());
    let div = bin(Expression::IntLiteral(i64::MIN), "/", Expression::IntLiteral(-1));
    assert!(opt.try_optimize_program(vec![ASTNode::ReturnStmt(div)]).is_none());
    let fine = bin(Expression::IntLiteral(6), "*", Expression::IntLiteral(7));
    assert_eq!(opt.try_optimize_program(vec![ASTNode::ReturnStmt(fine)]), Some(vec![ASTNode::ReturnStmt(Expression::Literal(Value::Int(42)))]));
    let by_zero = bin(Expression::IntLiteral(1), "/", Expression::IntLiteral(0));
    assert_eq!(
        opt.try_optimize_program(vec![ASTNode::ReturnStmt(by_zero)]),
        Some(vec![ASTNode::ReturnStmt(bin(Expression::Literal(Value::Int(1)), "/", Expression::Literal(Value::Int(0))))])
    );
}
