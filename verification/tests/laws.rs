use vyakriti::ast::{AccessModifier, ASTNode, Expression};
use vyakriti::borrow_checker::BorrowChecker;
use vyakriti::decoder::{decode, opcode_byte, Instr};
use vyakriti::exhaustiveness::ExhaustivenessAnalyzer;
use vyakriti::import_resolver::resolve_import_path;
use vyakriti::macro_expander::MacroExpander;
use vyakriti::monomorphizer::ASTMonomorphizer;
use vyakriti::optimizer::ASTOptimizer;
use vyakriti::semantic::{resolve_args_by_karaka, Karaka, ResolvedType, Symbol, SymbolTable};
use vyakriti::vm::{OpCode, Step, Value, VirtualMachine};
use vyakriti::workspace::{normalize_relative, resolve_workspace_path};

fn symbol(name: &str) -> Symbol {
    Symbol {
        name: name.into(),
        base_name: name.into(),
        karaka: Karaka::Default,
        resolved_type: ResolvedType::Unknown,
        depth: 1,
        is_function: false,
        param_count: 0,
        param_types: vec![],
        access_level: AccessModifier::Private,
    }
}

fn name_bytes(code: &mut Vec<u8>, name: &str) {
    code.extend_from_slice(&(name.len() as u16).to_be_bytes());
    code.extend_from_slice(name.as_bytes());
}

#[test]
fn store_then_load_reads_back_the_value() {
    let mut code = vec![opcode_byte(OpCode::PushConst), 0];
    code.extend_from_slice(&41i64.to_be_bytes());
    code.push(opcode_byte(OpCode::StoreVar));
    name_bytes(&mut code, "फलम्");
    code.push(opcode_byte(OpCode::LoadVar));
    name_bytes(&mut code, "फलम्");
    let mut vm = VirtualMachine::new();
    let mut pc = 0;
    for _ in 0..3 {
        pc = match vm.step(&code, pc) {
            Step::Next(p) => p,
            _ => panic!("step should continue"),
        };
    }
    assert_eq!(vm.data_stack, vec![Value::Int(41)]);
    assert!(matches!(vm.step(&code, pc), Step::Halt));
}

#[test]
fn decoder_reads_back_written_instructions() {
    let mut code = vec![opcode_byte(OpCode::Jump)];
    code.extend_from_slice(&0x0102_0304u32.to_be_bytes());
    code.push(opcode_byte(OpCode::PushConst));
    code.push(0);
    code.extend_from_slice(&(-7i64).to_be_bytes());
    code.extend_from_slice(&[opcode_byte(OpCode::PushConst), 1, 1]);
    assert_eq!(decode(&code, 0), Some((Instr::Jump(0x0102_0304), 5)));
    assert_eq!(decode(&code, 5), Some((Instr::PushInt(-7), 15)));
    assert_eq!(decode(&code, 15), Some((Instr::PushBool(true), 18)));
}

#[test]
fn symbol_table_reads_declarations_and_forgets_closed_scopes() {
    let mut table = SymbolTable::new();
    table.push_scope();
    table.insert("क".into(), symbol("क"));
    table.insert("ख".into(), symbol("ख"));
    assert_eq!(table.lookup("क").map(|s| s.name.as_str()), Some("क"));
    assert_eq!(table.lookup("ख").map(|s| s.name.as_str()), Some("ख"));
    assert!(table.lookup("मुद्रण").is_some());
    table.pop_scope();
    assert!(table.lookup("क").is_none());
    assert_eq!(table.current_depth, 0);
}

#[test]
fn mutable_borrow_is_exclusive() {
    let decl = ASTNode::VarDecl {
        name: "x".into(),
        data_type: None,
        value: Expression::IntLiteral(1),
        access_level: AccessModifier::Private,
    };
    let borrow = |m: bool| ASTNode::StatementExpr(Expression::BorrowExpr { target: "x".into(), is_mutable: m });
    let read = ASTNode::StatementExpr(Expression::Variable("x".into()));
    let mut bc = BorrowChecker::new();
    assert!(bc.check_program(&[decl, borrow(true), read]).is_err());
    let decl2 = ASTNode::VarDecl {
        name: "y".into(),
        data_type: None,
        value: Expression::IntLiteral(1),
        access_level: AccessModifier::Private,
    };
    let shared = ASTNode::StatementExpr(Expression::BorrowExpr { target: "y".into(), is_mutable: false });
    let exclusive = ASTNode::StatementExpr(Expression::BorrowExpr { target: "y".into(), is_mutable: true });
    assert!(BorrowChecker::new().check_program(&[decl2, shared, exclusive]).is_err());
}

#[test]
fn optimizing_twice_changes_nothing() {
    let program = || {
        vec![ASTNode::ReturnStmt(Expression::Binary {
            left: Box::new(Expression::Binary {
                left: Box::new(Expression::IntLiteral(2)),
                op: "*".into(),
                right: Box::new(Expression::IntLiteral(3)),
            }),
            op: "+".into(),
            right: Box::new(Expression::Variable("n".into())),
        })]
    };
    let opt = ASTOptimizer::new();
    let once = opt.try_optimize_program(program()).expect("folds fit");
    let again = opt.try_optimize_program(opt.try_optimize_program(program()).expect("folds fit"));
    assert_eq!(again, Some(once));
}

#[test]
fn repeated_generic_calls_generate_one_specialization() {
    let template = ASTNode::GenericFuncDecl {
        name: "प्रति".into(),
        type_params: vec!["T".into()],
        parameters: vec![("a".into(), "T".into())],
        return_type: "T".into(),
        body: vec![],
        access_level: AccessModifier::Private,
    };
    let call = || Expression::GenericCall { name: "प्रति".into(), concrete_types: vec!["अङ्क".into()], args: vec![] };
    let mut mono = ASTMonomorphizer::new();
    let out = mono
        .try_process_program(vec![template, ASTNode::StatementExpr(call()), ASTNode::StatementExpr(call())])
        .expect("template is declared");
    assert_eq!(mono.generated_functions.len(), 1);
    assert_eq!(out.len(), 3);
}

#[test]
fn match_is_accepted_exactly_when_every_variant_is_named() {
    let decl = || ASTNode::EnumDecl {
        name: "दिशा".into(),
        variants: vec![("उत्तर".into(), None), ("दक्षिण".into(), None)],
        access_level: AccessModifier::Private,
    };
    let arms = |names: &[&str]| -> Vec<(String, Vec<String>, Expression)> {
        names.iter().map(|n| (n.to_string(), vec![], Expression::IntLiteral(0))).collect()
    };
    let m = |names: &[&str]| ASTNode::StatementExpr(Expression::MatchExpr {
        eval_target: Box::new(Expression::Variable("d".into())),
        arms: arms(names),
    });
    assert!(ExhaustivenessAnalyzer::new().analyze_program(&[decl(), m(&["दक्षिण", "उत्तर"])]).is_ok());
    assert!(ExhaustivenessAnalyzer::new().analyze_program(&[decl(), m(&["उत्तर"])]).is_err());
}

#[test]
fn declared_macro_call_reads_back_its_body() {
    let mut me = MacroExpander::new();
    let decl = ASTNode::MacroDecl {
        name: "वर्ग".into(),
        params: vec!["v".into()],
        body: vec![ASTNode::StatementExpr(Expression::Binary {
            left: Box::new(Expression::Variable("v".into())),
            op: "*".into(),
            right: Box::new(Expression::Variable("v".into())),
        })],
    };
    let call = ASTNode::MacroCall { name: "वर्ग".into(), args: vec![Expression::IntLiteral(9)] };
    let out = me.try_expand_program(vec![decl, call]).expect("declared");
    assert_eq!(out, vec![ASTNode::StatementExpr(Expression::Binary {
        left: Box::new(Expression::IntLiteral(9)),
        op: "*".into(),
        right: Box::new(Expression::IntLiteral(9)),
    })]);
    assert!(me.macro_registry.get("वर्ग").is_some());
}

#[test]
fn accepted_paths_stay_below_the_root() {
    assert_eq!(normalize_relative("./a//b/./c.vya"), Ok("a/b/c.vya".to_string()));
    assert_eq!(resolve_workspace_path("/ws", "a\\b.vya"), Ok("/ws/a/b.vya".to_string()));
    assert!(resolve_workspace_path("/ws", "a/../../b.vya").is_err());
    assert_eq!(resolve_import_path("lib", "/ws/src", "/ws"), Ok("/ws/src/lib.vya".to_string()));
    assert_eq!(
        resolve_import_path("x", "/other", "/ws"),
        Err("import path 'x' escapes the workspace root".to_string())
    );
}

fn run_number_builtin(arg: &[u8]) -> (Step, Vec<Value>) {
    let mut code = Vec::new();
    code.extend_from_slice(arg);
    code.push(opcode_byte(OpCode::CallBuiltin));
    name_bytes(&mut code, "संख्या");
    code.push(1);
    let mut vm = VirtualMachine::new();
    let pc = match vm.step(&code, 0) {
        Step::Next(p) => p,
        _ => panic!("constant pushes"),
    };
    let s = vm.step(&code, pc);
    let stack = std::mem::take(&mut vm.data_stack);
    (s, stack)
}

fn str_const(s: &str) -> Vec<u8> {
    let mut c = vec![opcode_byte(OpCode::PushConst), 2];
    name_bytes(&mut c, s);
    c
}

#[test]
fn number_builtin_reads_integers_like_i64() {
    let (s, stack) = run_number_builtin(&str_const("  -42 "));
    assert!(matches!(s, Step::Next(_)));
    assert_eq!(stack, vec![Value::Int(-42)]);
    let (_, stack) = run_number_builtin(&str_const("+7"));
    assert_eq!(stack, vec![Value::Int(7)]);
    let (_, stack) = run_number_builtin(&str_const("१२"));
    assert_eq!(stack, vec![Value::Int(0)]);
    let (_, stack) = run_number_builtin(&str_const("-9223372036854775808"));
    assert_eq!(stack, vec![Value::Int(i64::MIN)]);
    let (_, stack) = run_number_builtin(&str_const("9223372036854775808"));
    assert_eq!(stack, vec![Value::Int(0)]);
    let mut int_arg = vec![opcode_byte(OpCode::PushConst), 0];
    int_arg.extend_from_slice(&5i64.to_be_bytes());
    let (_, stack) = run_number_builtin(&int_arg);
    assert_eq!(stack, vec![Value::Int(5)]);
    let (s, _) = run_number_builtin(&[opcode_byte(OpCode::PushConst), 1, 1]);
    match s {
        Step::Fault(e) => assert_eq!(e.0, "संख्या expects a string or int"),
        _ => panic!("a boolean is refused"),
    }
}

#[test]
fn karaka_tags_bind_whatever_the_order() {
    let params = vec![
        ("कर्ता_कर्तृ".to_string(), "कर्ता".to_string(), Karaka::Kartr, ResolvedType::Unknown),
        ("वस्तु_कर्म".to_string(), "वस्तु".to_string(), Karaka::Karma, ResolvedType::Unknown),
        ("साधनम्_करण".to_string(), "साधनम्".to_string(), Karaka::Karana, ResolvedType::Unknown),
    ];
    let var = |n: &str| Expression::Variable(n.into());
    let expected = vec![var("रामः_कर्तृ"), var("फलम्_कर्म"), var("हस्तः_करण")];
    let orders = [
        vec![var("फलम्_कर्म"), var("हस्तः_करण"), var("रामः_कर्तृ")],
        vec![var("हस्तः_करण"), var("रामः_कर्तृ"), var("फलम्_कर्म")],
        vec![var("रामः_कर्तृ"), var("फलम्_कर्म"), var("हस्तः_करण")],
    ];
    for args in orders.iter() {
        assert_eq!(resolve_args_by_karaka(&params, args), Ok(expected.iter().map(|e| match e {
            Expression::Variable(n) => Expression::Variable(n.clone()),
            _ => unreachable!(),
        }).collect()));
    }
}
