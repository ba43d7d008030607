use vyakriti::decoder::{FieldConst, Instr};
use vyakriti::instr_text::disasm_text;
use vyakriti::bytecode_text::{listing_lines, listing_string};
use vyakriti::ast::{AccessModifier, ASTNode, Expression};
use vyakriti::compiler::BytecodeCompiler;
use vyakriti::vm::{Step, Value, VirtualMachine};
use vyakriti::lexer::Lexer;
use vyakriti::lsp::{completions, format_source, hover};
use vyakriti::optimizer::ASTOptimizer;
use vyakriti::parser::Parser;
use vyakriti::semantic::{extract_karaka, resolve_args_by_karaka, GanaType, Karaka, ResolvedType, Symbol, SymbolTable, TypeChecker};

fn parse(src: &str) -> Result<Vec<ASTNode>, String> {
    let mut lex = Lexer::new(src);
    let tokens = lex.tokenize();
    Parser::new(tokens).parse_program()
}

fn symbol(name: &str) -> Symbol {
    Symbol {
        name: name.into(),
        base_name: name.into(),
        karaka: Karaka::Default,
        resolved_type: ResolvedType::Unknown,
        depth: 1,
        is_function: false,
        param_count: 0,
        param_types: vec![],
        access_level: AccessModifier::Private,
    }
}

#[test]
fn optimizing_keeps_one_statement_per_statement() {
    let program = vec![
        ASTNode::IfStmt {
            condition: Expression::Literal(vyakriti::vm::Value::Bool(false)),
            then_branch: vec![ASTNode::ReturnStmt(Expression::IntLiteral(1))],
            else_branch: None,
        },
        ASTNode::ReturnStmt(Expression::Binary {
            left: Box::new(Expression::IntLiteral(2)),
            op: "*".into(),
            right: Box::new(Expression::IntLiteral(3)),
        }),
        ASTNode::NoOp,
    ];
    let out = ASTOptimizer::new().try_optimize_program(program).expect("folds fit");
    assert_eq!(out.len(), 3);
    assert_eq!(out[0], ASTNode::NoOp);
    assert_eq!(out[1], ASTNode::ReturnStmt(Expression::Literal(vyakriti::vm::Value::Int(6))));
}

#[test]
fn scopes_and_symbol_count_move_together() {
    let mut table = SymbolTable::new();
    let base = table.symbol_count();
    assert_eq!(base, 9);
    table.push_scope();
    assert_eq!(table.symbol_count(), base);
    assert_eq!(table.current_depth, 1);
    table.insert("क".into(), symbol("क"));
    assert_eq!(table.symbol_count(), base + 1);
    table.insert("क".into(), symbol("क"));
    assert_eq!(table.symbol_count(), base + 1);
    table.insert("ख".into(), symbol("ख"));
    assert_eq!(table.symbol_count(), base + 2);
    table.pop_scope();
    assert_eq!(table.symbol_count(), base);
    assert_eq!(table.current_depth, 0);
}

#[test]
fn errors_are_handed_over_in_order_and_forgotten() {
    let mut table = SymbolTable::new();
    table.push_error("पहला".into());
    table.push_error("दूसरा".into());
    assert!(table.has_errors());
    assert_eq!(table.take_errors(), vec!["पहला".to_string(), "दूसरा".to_string()]);
    assert!(!table.has_errors());
    assert_eq!(table.symbol_count(), 9);
}

#[test]
fn checking_keeps_the_program_shape_and_clears_errors() {
    let src = "मान x : अङ्क = 5 । मान y = x + 1 ।";
    let program = parse(src).expect("parses");
    let mut tc = TypeChecker::new();
    let checked = tc.check_program(parse(src).expect("parses")).expect("well typed");
    assert_eq!(checked.len(), program.len());
    for (a, b) in checked.iter().zip(program.iter()) {
        assert_eq!(std::mem::discriminant(a), std::mem::discriminant(b));
    }
    let bad = parse("मान z : अङ्क = सत ।").expect("parses");
    let mut tc2 = TypeChecker::new();
    assert!(tc2.check_program(bad).is_err());
    let good = parse("मान w : अङ्क = 1 ।").expect("parses");
    assert!(tc2.check_program(good).is_ok());
}

#[test]
fn formatting_twice_changes_nothing() {
    for s in ["a  \nb\t\r\n\nc \n", "", "   ", "x = 1 ।  \n\n  y\n", "single"] {
        let once = format_source(s).source;
        assert_eq!(format_source(&once).source, once, "source {:?}", s);
    }
    assert_eq!(format_source("a\n\n").source, "a\n");
    assert_eq!(format_source("a\n").source, "a");
}

#[test]
fn each_completion_hovers_to_its_own_text() {
    let items = completions();
    assert_eq!(items.len(), 20);
    for item in items {
        let expected = format!("{} ({}) — {}", item.label, item.kind, item.detail);
        assert_eq!(hover(&item.label).contents, Some(expected));
    }
}

#[test]
fn karaka_suffix_is_split_off_whole() {
    let suffixes = [
        ("_कर्तृ", Karaka::Kartr),
        ("_kartr", Karaka::Kartr),
        ("_कर्म", Karaka::Karma),
        ("_karma", Karaka::Karma),
        ("_करण", Karaka::Karana),
        ("_karana", Karaka::Karana),
        ("_सम्प्रदान", Karaka::Sampradana),
        ("_sampradana", Karaka::Sampradana),
        ("_अपादान", Karaka::Apadana),
        ("_apadana", Karaka::Apadana),
        ("_सम्बन्ध", Karaka::Sambandha),
        ("_sambandha", Karaka::Sambandha),
        ("_अधिकरण", Karaka::Adhikarana),
        ("_adhikarana", Karaka::Adhikarana),
    ];
    for base in ["राम", "x_karma", "", "वन_"] {
        for (suffix, k) in suffixes.iter() {
            let name = format!("{}{}", base, suffix);
            let (b, got) = extract_karaka(&name);
            assert_eq!(b, base, "name {}", name);
            assert_eq!(got, *k, "name {}", name);
        }
    }
}

#[test]
fn compiled_function_is_jumped_over_and_ends_with_return() {
    let f = ASTNode::FuncDecl {
        name: "योगः".into(),
        parameters: vec![("क".into(), "अङ्क".into()), ("ख".into(), "अङ्क".into())],
        return_type: "अङ्क".into(),
        body: vec![ASTNode::ReturnStmt(Expression::Binary {
            left: Box::new(Expression::Variable("क".into())),
            op: "+".into(),
            right: Box::new(Expression::Variable("ख".into())),
        })],
        access_level: AccessModifier::Public,
    };
    let mut c = BytecodeCompiler::new();
    assert!(c.compile(f).is_ok());
    let code = c.get_bytecode();
    assert_eq!(code[0], 0x11);
    let target = u32::from_be_bytes([code[1], code[2], code[3], code[4]]) as usize;
    assert_eq!(target, code.len());
    assert_eq!(code[code.len() - 1], 0x14);
    assert_eq!(c.function_table.get("योगः"), Some(&5));
    assert_eq!(code[5], 0x21);
    assert_eq!(code[6], 2);
}

#[test]
fn minus_before_a_number_is_a_negative_literal() {
    let program = parse("मान x = -5 ।").expect("parses");
    match &program[0] {
        ASTNode::VarDecl { value, .. } => assert_eq!(value, &Expression::IntLiteral(-5)),
        _ => panic!("expected VarDecl"),
    }
    let program = parse("मान y = 3 - 5 ।").expect("parses");
    match &program[0] {
        ASTNode::VarDecl { value, .. } => assert_eq!(
            value,
            &Expression::Binary {
                left: Box::new(Expression::IntLiteral(3)),
                op: "-".into(),
                right: Box::new(Expression::IntLiteral(5)),
            }
        ),
        _ => panic!("expected VarDecl"),
    }
    let program = parse("मान z = 2 * -4 ।").expect("parses");
    match &program[0] {
        ASTNode::VarDecl { value, .. } => assert_eq!(
            value,
            &Expression::Binary {
                left: Box::new(Expression::IntLiteral(2)),
                op: "*".into(),
                right: Box::new(Expression::IntLiteral(-4)),
            }
        ),
        _ => panic!("expected VarDecl"),
    }
}

#[test]
fn instruction_lines_match_the_listing_formats() {
    assert_eq!(disasm_text(&Instr::Jump(0x1A)).as_deref(), Some("JUMP          001A"));
    assert_eq!(disasm_text(&Instr::Call(0x12345)).as_deref(), Some("CALL          12345"));
    assert_eq!(disasm_text(&Instr::Unknown(0xAB)).as_deref(), Some("UNKNOWN_OPCODE 0xAB"));
    assert_eq!(disasm_text(&Instr::Unknown(0x7)).as_deref(), Some("UNKNOWN_OPCODE 0x07"));
    assert_eq!(disasm_text(&Instr::PushInt(-7)).as_deref(), Some("PUSH_CONST    Int(-7)"));
    assert_eq!(disasm_text(&Instr::PushBool(true)).as_deref(), Some("PUSH_CONST    Bool(true)"));
    assert_eq!(
        disasm_text(&Instr::BindParams(vec!["क".into(), "ख".into()])).as_deref(),
        Some("BIND_PARAMS   (2) क, ख")
    );
    assert_eq!(disasm_text(&Instr::BindParams(vec![])).as_deref(), Some("BIND_PARAMS   (0) "));
    assert_eq!(
        disasm_text(&Instr::PushStruct(vec![
            ("a".into(), FieldConst::Int(1)),
            ("b".into(), FieldConst::Str("x".into())),
            ("c".into(), FieldConst::Other(9)),
        ]))
        .as_deref(),
        Some("PUSH_CONST    Struct(a:Int(1), b:Str(\"x\"), c:?)")
    );
    assert_eq!(
        disasm_text(&Instr::PushStruct(vec![("a".into(), FieldConst::Float(0))])),
        None
    );
    assert_eq!(disasm_text(&Instr::PushFloat(0)), None);
    assert_eq!(
        disasm_text(&Instr::CallForeign("libm".into(), "cos".into(), 1)).as_deref(),
        Some("CALL_FOREIGN  \"cos\" from \"libm\" (1 args)")
    );
}

fn listing(code: &[u8]) -> Option<String> {
    listing_lines(code).map(|ls| listing_string(&ls, &vec![]))
}

#[test]
fn editor_listing_walks_the_bytes() {
    // PushConst int 5; StoreVar "x"; LoadVar "x"; Return.
    let mut code = vec![0x01, 0x00, 0, 0, 0, 0, 0, 0, 0, 5, 0x03, 0x00, 0x01, b'x', 0x02, 0x00, 0x01, b'x', 0x14];
    assert_eq!(
        listing(&code).as_deref(),
        Some("0008  PushConst int(5)\n0009  StoreVar \"x\"\n000d  LoadVar \"x\"\n0012  Return")
    );
    // A jump, a bool, a builtin call and a parameter list.
    code = vec![0x11, 0, 0, 0x01, 0x2a, 0x01, 0x01, 0x01];
    assert_eq!(listing(&code).as_deref(), Some("0000  Jump -> 0x012a\n0005  PushConst bool(true)"));
    // An opcode without a short form is shown one byte at a time.
    code = vec![0x30, 0xEE];
    assert_eq!(listing(&code).as_deref(), Some("0000  Unknown 0x30\n0001  Unknown 0xee"));
    // A variable access at offset 0 has no line, and neither do cut bytes.
    assert_eq!(listing(&[0x02, 0x00, 0x01, b'x']), None);
    assert_eq!(listing(&[0x11, 0, 0]), None);
    assert_eq!(listing(&[]).as_deref(), Some(""));
    // Floats: the line carries the bits and the host's text goes in.
    let mut f = vec![0x01, 0x03];
    f.extend_from_slice(&1.5f64.to_bits().to_be_bytes());
    let ls = listing_lines(&f).expect("well formed");
    assert_eq!(ls[0].float_bits, Some(1.5f64.to_bits()));
    assert_eq!(listing_string(&ls, &vec!["1.5".to_string()]), "0008  PushConst float(1.5)");
}

#[test]
fn karaka_resolution_is_a_permutation_keeping_untagged_order() {
    let params = vec![
        ("a".to_string(), "a".to_string(), Karaka::Default, ResolvedType::Unknown),
        ("b".to_string(), "b".to_string(), Karaka::Karma, ResolvedType::Unknown),
        ("c".to_string(), "c".to_string(), Karaka::Default, ResolvedType::Unknown),
    ];
    let args = vec![
        Expression::IntLiteral(1),
        Expression::Variable("फल_कर्म".into()),
        Expression::IntLiteral(2),
    ];
    let r = resolve_args_by_karaka(&params, &args).expect("binds");
    assert_eq!(r, vec![Expression::IntLiteral(1), Expression::Variable("फल_कर्म".into()), Expression::IntLiteral(2)]);
    let args2 = vec![
        Expression::Variable("फल_कर्म".into()),
        Expression::IntLiteral(1),
        Expression::IntLiteral(2),
    ];
    let r2 = resolve_args_by_karaka(&params, &args2).expect("binds");
    assert_eq!(r2, vec![Expression::IntLiteral(1), Expression::Variable("फल_कर्म".into()), Expression::IntLiteral(2)]);
}

#[test]
fn state_change_touches_only_the_innermost_binding() {
    let mut st = SymbolTable::new();
    let mut outer = symbol("x");
    outer.resolved_type = ResolvedType::Known(GanaType::integer());
    st.insert("x".into(), outer);
    st.push_scope();
    let mut inner = symbol("x");
    inner.resolved_type = ResolvedType::Known(GanaType::bool());
    st.insert("x".into(), inner);
    st.update_state("x", 3);
    assert_eq!(st.lookup("x").unwrap().resolved_type, ResolvedType::Known(GanaType::bool().with_state(3)));
    st.pop_scope();
    assert_eq!(st.lookup("x").unwrap().resolved_type, ResolvedType::Known(GanaType::integer()));
}

#[test]
fn machine_joins_strings_and_compares_plain_structs_itself() {
    // CallBuiltin "योजन" with two string constants.
    let mut code = vec![0x01, 0x02];
    code.extend_from_slice(&(3u16).to_be_bytes());
    code.extend_from_slice("abc".as_bytes());
    code.extend_from_slice(&[0x01, 0x02]);
    code.extend_from_slice(&(2u16).to_be_bytes());
    code.extend_from_slice("de".as_bytes());
    let name = "योजन";
    code.push(0x19);
    code.extend_from_slice(&(name.len() as u16).to_be_bytes());
    code.extend_from_slice(name.as_bytes());
    code.push(2);
    let mut vm = VirtualMachine::new();
    let mut pc = 0usize;
    loop {
        match vm.step(&code, pc) {
            Step::Next(q) => pc = q,
            Step::Halt => break,
            _ => panic!("the machine decides this itself"),
        }
    }
    assert_eq!(vm.stack_top(), Some(&Value::Str("abcde".into())));

    let s1 = Value::Struct(vec![("a".into(), Value::Int(1)), ("b".into(), Value::Bool(true))]);
    let s2 = Value::Struct(vec![("b".into(), Value::Bool(true)), ("a".into(), Value::Int(1))]);
    let s3 = Value::Struct(vec![("a".into(), Value::Int(2)), ("b".into(), Value::Bool(true))]);
    for (x, y, same) in [(s1.clone(), s2.clone(), true), (s1.clone(), s3.clone(), false), (s1.clone(), Value::Int(1), false)] {
        let mut vm = VirtualMachine::new();
        vm.push_value(x);
        vm.push_value(y);
        assert!(matches!(vm.step(&[0x0B], 0), Step::Next(1)));
        assert_eq!(vm.stack_top(), Some(&Value::Bool(same)));
    }
    // A float inside still goes to the host.
    let mut vm = VirtualMachine::new();
    vm.push_value(Value::Struct(vec![("f".into(), Value::Float(0))]));
    vm.push_value(Value::Struct(vec![("f".into(), Value::Float(0))]));
    assert!(matches!(vm.step(&[0x0B], 0), Step::Host(_, 1)));
}

#[test]
fn state_change_of_absent_or_untyped_names_changes_nothing() {
    let mut st = SymbolTable::new();
    let count = st.symbol_count();
    st.update_state("absent", 2);
    assert!(st.lookup("absent").is_none());
    assert_eq!(st.symbol_count(), count);
    let mut u = symbol("रूप");
    u.resolved_type = ResolvedType::UserDefined("वस्तु".into());
    st.insert("रूप".into(), u);
    st.update_state("रूप", 2);
    assert_eq!(st.lookup("रूप").unwrap().resolved_type, ResolvedType::UserDefined("वस्तु".into()));
}
