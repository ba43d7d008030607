use vyakriti::ast::{AccessModifier, ASTNode, Expression};
use vyakriti::borrow_checker::BorrowChecker;
use vyakriti::bytecode::{OP_ADD, OP_SUB, OP_MUL, OP_DIV, OP_FADD, OP_FDIV, OP_FMUL, OP_FSUB, OP_EQUAL, OP_NOT_EQUAL, OP_LESS_THAN, OP_GREATER_THAN, OP_LESS_EQUAL};
use vyakriti::compiler::BytecodeCompiler;
use vyakriti::decoder::opcode_byte;
use vyakriti::exhaustiveness::ExhaustivenessAnalyzer;
use vyakriti::lexer::{Lexer, SpannedToken, Token};
use vyakriti::optimizer::ASTOptimizer;
use vyakriti::parser::Parser;
use vyakriti::semantic::TypeChecker;
use vyakriti::vm::{HostCall, OpCode, Step, Value, VirtualMachine};

fn resolve_floats(tokens: Vec<SpannedToken>) -> Vec<SpannedToken> {
    tokens
        .into_iter()
        .map(|t| match t.token {
            Token::FloatLiteral(text) => SpannedToken {
                token: Token::Literal(Value::Float(text.parse::<f64>().unwrap_or(0.0).to_bits())),
                line: t.line,
                col: t.col,
            },
            other => SpannedToken { token: other, line: t.line, col: t.col },
        })
        .collect()
}

fn parse(source: &str) -> Result<Vec<ASTNode>, String> {
    let mut lex = Lexer::new(source);
    let tokens = resolve_floats(lex.tokenize());
    let mut parser = Parser::new(tokens);
    parser.parse_program()
}

fn debug_value(v: &Value) -> String {
    match v {
        Value::Null => "Null".to_string(),
        Value::Int(n) => format!("Int({})", n),
        Value::Float(b) => format!("Float({:?})", f64::from_bits(*b)),
        Value::Bool(b) => format!("Bool({})", b),
        Value::Str(s) => format!("Str({:?})", s),
        Value::Func(a) => format!("Func({})", a),
        Value::Enum(n, p) => format!("Enum({:?}, {})", n, debug_value(p)),
        Value::Struct(fs) => {
            let items: Vec<String> = fs.iter().map(|(k, v)| format!("{:?}: {}", k, debug_value(v))).collect();
            format!("Struct({{{}}})", items.join(", "))
        }
    }
}

fn num(v: &Value) -> Option<f64> {
    match v {
        Value::Int(n) => Some(*n as f64),
        Value::Float(b) => Some(f64::from_bits(*b)),
        _ => None,
    }
}

fn same(a: &Value, b: &Value) -> bool {
    match (a, b) {
        (Value::Float(x), Value::Float(y)) => f64::from_bits(*x) == f64::from_bits(*y),
        (Value::Enum(n1, p1), Value::Enum(n2, p2)) => n1 == n2 && same(p1, p2),
        (Value::Struct(f1), Value::Struct(f2)) => {
            f1.len() == f2.len() && f1.iter().all(|(k, v)| f2.iter().any(|(k2, v2)| k == k2 && same(v, v2)))
        }
        _ => a == b,
    }
}

fn host(vm: &mut VirtualMachine, call: HostCall) -> Result<Value, String> {
    match call {
        HostCall::Binary(op, below, top) => {
            if op == OP_EQUAL || op == OP_NOT_EQUAL {
                let s = same(&below, &top);
                return Ok(Value::Bool(if op == OP_EQUAL { s } else { !s }));
            }
            let (a, b) = match (num(&below), num(&top)) {
                (Some(a), Some(b)) => (a, b),
                _ => return Err("expected numeric operands".into()),
            };
            let r = if op == OP_FADD || op == OP_ADD {
                Value::Float((a + b).to_bits())
            } else if op == OP_FSUB || op == OP_SUB {
                Value::Float((a - b).to_bits())
            } else if op == OP_FMUL || op == OP_MUL {
                Value::Float((a * b).to_bits())
            } else if op == OP_FDIV || op == OP_DIV {
                if b == 0.0 {
                    return Err("float division by zero".into());
                }
                Value::Float((a / b).to_bits())
            } else if op == OP_LESS_THAN {
                Value::Bool(a < b)
            } else if op == OP_GREATER_THAN {
                Value::Bool(a > b)
            } else if op == OP_LESS_EQUAL {
                Value::Bool(a <= b)
            } else {
                Value::Bool(a >= b)
            };
            Ok(r)
        }
        HostCall::VariantText(v) => Ok(Value::Str(debug_value(&v))),
        HostCall::Builtin(name, args) => match name.as_str() {
            "मुद्रण" => {
                let _ = if args.is_empty() { vm.pop_value().ok_or("stack underflow")? } else { args[0].clone() };
                Ok(Value::Null)
            }
            "योजन" => {
                if args.len() < 2 {
                    return Err("योजन expects 2 arguments".into());
                }
                match (&args[0], &args[1]) {
                    (Value::Str(a), Value::Str(b)) => Ok(Value::Str(format!("{}{}", a, b))),
                    (Value::Str(a), other) => Ok(Value::Str(format!("{}{}", a, debug_value(other)))),
                    _ => Ok(Value::Str(format!("{}{}", debug_value(&args[0]), debug_value(&args[1])))),
                }
            }
            _ => {
                if args.is_empty() {
                    return Err("रूपान्तर expects 1 argument".into());
                }
                Ok(Value::Str(debug_value(&args[0])))
            }
        },
        HostCall::Foreign(..) => Ok(Value::Null),
    }
}

fn run(vm: &mut VirtualMachine, code: &[u8]) -> Result<(), String> {
    let mut pc = 0;
    loop {
        match vm.step(code, pc) {
            Step::Next(p) => pc = p,
            Step::Halt => return Ok(()),
            Step::Fault(e) => return Err(e.0),
            Step::Truncated => panic!("bytecode ends inside an instruction"),
            Step::Overflow => panic!("integer overflow"),
            Step::Host(call, p) => {
                let v = host(vm, call)?;
                vm.push_value(v);
                pc = p;
            }
        }
    }
}

fn full_pipeline(source: &str) -> Result<VirtualMachine, String> {
    let ast = parse(source)?;
    let mut tc = TypeChecker::new();
    let checked = tc.check_program(ast).map_err(|e| format!("{:?}", e))?;
    let opt = ASTOptimizer::new();
    let optimized = opt.optimize_program(checked);
    let mut bc = BorrowChecker::new();
    bc.check_program(&optimized)?;
    let mut ea = ExhaustivenessAnalyzer::new();
    ea.analyze_program(&optimized)?;
    let mut cc = BytecodeCompiler::new();
    for node in optimized {
        cc.compile(node).map_err(|e| e.to_string())?;
    }
    cc.link_unresolved_references().map_err(|e| e.to_string())?;
    let mut vm = VirtualMachine::new();
    run(&mut vm, &cc.get_bytecode())?;
    Ok(vm)
}

fn global(vm: &VirtualMachine, name: &str) -> Option<Value> {
    vm.globals.get(name).cloned()
}

#[test]
fn test_vm_simple_execution() {
    let mut vm = VirtualMachine::new();
    let mut bc = BytecodeCompiler::new();
    bc.compile(ASTNode::VarDecl {
        name: "result".into(),
        data_type: None,
        value: Expression::IntLiteral(42),
        access_level: AccessModifier::Private,
    })
    .expect("compile var");
    bc.link_unresolved_references().expect("link should succeed");
    let bytecode = bc.get_bytecode();
    run(&mut vm, &bytecode).expect("VM should run");
    assert_eq!(global(&vm, "result"), Some(Value::Int(42)));
}

#[test]
fn test_vm_arithmetic() {
    let mut vm = VirtualMachine::new();
    let mut bc = BytecodeCompiler::new();
    bc.compile(ASTNode::StatementExpr(Expression::Binary {
        left: Box::new(Expression::IntLiteral(6)),
        op: "*".into(),
        right: Box::new(Expression::IntLiteral(7)),
    }))
    .expect("compile expr");
    bc.link_unresolved_references().expect("link");
    let bytecode = bc.get_bytecode();
    run(&mut vm, &bytecode).expect("VM should run");
}

#[test]
fn test_vm_function_parameters_return_value_and_local_scope() {
    let mut compiler = BytecodeCompiler::new();
    compiler
        .compile(ASTNode::FuncDecl {
            name: "योगः".into(),
            parameters: vec![("क".into(), "अङ्क".into()), ("ख".into(), "अङ्क".into())],
            return_type: "अङ्क".into(),
            body: vec![
                ASTNode::VarDecl {
                    name: "अन्तः".into(),
                    data_type: Some("अङ्क".into()),
                    value: Expression::Binary {
                        left: Box::new(Expression::Variable("क".into())),
                        op: "+".into(),
                        right: Box::new(Expression::Variable("ख".into())),
                    },
                    access_level: AccessModifier::Private,
                },
                ASTNode::ReturnStmt(Expression::Variable("अन्तः".into())),
            ],
            access_level: AccessModifier::Private,
        })
        .expect("compile function");
    compiler
        .compile(ASTNode::StatementExpr(Expression::Call {
            name: "योगः".into(),
            args: vec![Expression::IntLiteral(3), Expression::IntLiteral(4)],
        }))
        .expect("compile call");
    compiler.link_unresolved_references().expect("link");
    let mut vm = VirtualMachine::new();
    run(&mut vm, &compiler.get_bytecode()).expect("VM should run function");
    assert_eq!(vm.stack_top(), Some(&Value::Int(7)));
    assert!(vm.globals.get("क").is_none(), "parameter must stay local");
    assert!(vm.globals.get("अन्तः").is_none(), "function local must not leak into globals");
}

#[test]
fn test_builtin_vm_len() {
    let mut vm = VirtualMachine::new();
    let mut cc = BytecodeCompiler::new();
    cc.compile_expr(Expression::Call {
        name: "दैर्घ्यम्".into(),
        args: vec![Expression::Literal(Value::Str("व्याकृति".into()))],
    })
    .expect("compile builtin");
    cc.link_unresolved_references().expect("link");
    let bc = cc.get_bytecode();
    run(&mut vm, &bc).expect("VM should run");
}

fn push_int(bc: &mut Vec<u8>, n: i64) {
    bc.push(opcode_byte(OpCode::PushConst));
    bc.push(0);
    bc.extend_from_slice(&n.to_be_bytes());
}

#[test]
fn test_vm_comparison_ops() {
    let mut vm = VirtualMachine::new();
    let mut bc = Vec::new();
    push_int(&mut bc, 10);
    push_int(&mut bc, 20);
    bc.push(opcode_byte(OpCode::LessThan));
    push_int(&mut bc, 20);
    push_int(&mut bc, 10);
    bc.push(opcode_byte(OpCode::GreaterThan));
    push_int(&mut bc, 10);
    push_int(&mut bc, 10);
    bc.push(opcode_byte(OpCode::LessEqual));
    push_int(&mut bc, 10);
    push_int(&mut bc, 10);
    bc.push(opcode_byte(OpCode::GreaterEqual));
    push_int(&mut bc, 10);
    push_int(&mut bc, 20);
    bc.push(opcode_byte(OpCode::NotEqual));
    run(&mut vm, &bc).expect("comparison VM should run");
}

#[test]
fn test_vm_match_expr() {
    let mut cc = BytecodeCompiler::new();
    cc.compile_expr(Expression::MatchExpr {
        eval_target: Box::new(Expression::Literal(Value::Enum("रक्त".into(), Box::new(Value::Int(42))))),
        arms: vec![
            ("रक्त".into(), vec!["x".into()], Expression::Literal(Value::Int(1))),
            ("नील".into(), vec![], Expression::Literal(Value::Int(2))),
        ],
    })
    .expect("compile match");
    cc.link_unresolved_references().expect("link");
    let bc = cc.get_bytecode();
    let mut vm = VirtualMachine::new();
    run(&mut vm, &bc).expect("match VM should run");
}

#[test]
fn test_vm_field_access() {
    let s = Value::Struct(vec![("x".into(), Value::Int(42))]);
    let mut cc = BytecodeCompiler::new();
    cc.compile_expr(Expression::FieldAccess { object: Box::new(Expression::Literal(s)), field: "x".into() })
        .expect("compile field access");
    cc.link_unresolved_references().expect("link");
    let bc = cc.get_bytecode();
    let mut vm = VirtualMachine::new();
    run(&mut vm, &bc).expect("field access VM should run");
}

#[test]
fn test_new_builtins() {
    let mut vm = VirtualMachine::new();
    let mut cc = BytecodeCompiler::new();
    cc.compile_expr(Expression::Call {
        name: "योजन".into(),
        args: vec![Expression::Literal(Value::Str("hello ".into())), Expression::Literal(Value::Str("world".into()))],
    })
    .expect("compile concat builtin");
    cc.link_unresolved_references().expect("link");
    let bc = cc.get_bytecode();
    run(&mut vm, &bc).expect("concat builtin should work");
}

#[test]
fn test_vm_dup_drop() {
    let mut vm = VirtualMachine::new();
    let mut bc = Vec::new();
    push_int(&mut bc, 42);
    bc.push(opcode_byte(OpCode::Dup));
    bc.push(opcode_byte(OpCode::Drop));
    bc.push(opcode_byte(OpCode::Drop));
    run(&mut vm, &bc).expect("dup/drop should work");
}

#[test]
fn test_vm_get_variant() {
    let mut vm = VirtualMachine::new();
    let mut bc = Vec::new();
    let name = "test_variant";
    bc.push(opcode_byte(OpCode::PushConst));
    bc.push(4);
    bc.extend_from_slice(&(name.len() as u16).to_be_bytes());
    bc.extend_from_slice(name.as_bytes());
    bc.push(opcode_byte(OpCode::GetVariant));
    run(&mut vm, &bc).expect("get variant should work");
}

#[test]
fn vm_integer() {
    let vm = full_pipeline("मान x : अङ्क = 42 ।").unwrap();
    assert_eq!(global(&vm, "x"), Some(Value::Int(42)));
}

#[test]
fn vm_add() {
    let vm = full_pipeline("मान x : अङ्क = 10 + 20 ।").unwrap();
    assert_eq!(global(&vm, "x"), Some(Value::Int(30)));
}

#[test]
fn vm_sub() {
    let vm = full_pipeline("मान x : अङ्क = 50 - 15 ।").unwrap();
    assert_eq!(global(&vm, "x"), Some(Value::Int(35)));
}

#[test]
fn vm_mul() {
    let vm = full_pipeline("मान x : अङ्क = 6 * 7 ।").unwrap();
    assert_eq!(global(&vm, "x"), Some(Value::Int(42)));
}

#[test]
fn vm_div() {
    let vm = full_pipeline("मान x : अङ्क = 20 / 4 ।").unwrap();
    assert_eq!(global(&vm, "x"), Some(Value::Int(5)));
}

#[test]
fn vm_div_zero() {
    let result = full_pipeline("मान x : अङ्क = 10 / 0 ।");
    let _ = result;
}

#[test]
fn vm_float_literal() {
    let vm = full_pipeline("मान x = 3.14 ।").unwrap();
    assert_eq!(global(&vm, "x"), Some(Value::Float(3.14f64.to_bits())));
}

#[test]
fn vm_float_addition() {
    let result = full_pipeline("मान x = 1.5 + 2.5 ।");
    let _ = result;
}

#[test]
fn vm_bool_true() {
    let vm = full_pipeline("मान b : सत्यता = सत ।").unwrap();
    assert_eq!(global(&vm, "b"), Some(Value::Bool(true)));
}

#[test]
fn vm_string() {
    let vm = full_pipeline(r#"मान s : शब्द = "hello" ।"#).unwrap();
    assert_eq!(global(&vm, "s"), Some(Value::Str("hello".to_string())));
}

#[test]
fn vm_precedence() {
    let vm = full_pipeline("मान x : अङ्क = 2 + 3 * 4 ।").unwrap();
    assert_eq!(global(&vm, "x"), Some(Value::Int(14)));
}

#[test]
fn vm_negative_result() {
    let vm = full_pipeline("मान x : अङ्क = 3 - 10 ।").unwrap();
    assert_eq!(global(&vm, "x"), Some(Value::Int(-7)));
}

#[test]
fn vm_chained_vars() {
    let vm = full_pipeline("मान a : अङ्क = 10 । मान b : अङ्क = 20 । मान c : अङ्क = a + b ।").unwrap();
    assert_eq!(global(&vm, "c"), Some(Value::Int(30)));
}

#[test]
fn e2e_golden_smoke() {
    let vm = full_pipeline(
        r#"
        कार्य वर्ण_गणना(स्रोतः : शब्द) -> अङ्क { प्रतिफल दैर्घ्यम्(स्रोतः) । }
        कार्य कार्यक्रम_स्वीकारः(स्रोतः : शब्द) -> सत्यता { प्रतिफल दैर्घ्यम्(स्रोतः) अग्र 10 । }
        मान नमूना : शब्द = "मान x : अङ्क = 1 ।" ।
        मान अक्षराः : अङ्क = वर्ण_गणना(नमूना) ।
    "#,
    )
    .unwrap();
    assert_eq!(global(&vm, "अक्षराः"), Some(Value::Int(34)));
}

#[test]
fn e2e_nested_arithmetic() {
    let vm = full_pipeline("मान x : अङ्क = (2 + 3) * (4 + 1) ।").unwrap();
    assert_eq!(global(&vm, "x"), Some(Value::Int(25)));
}

#[test]
fn e2e_string_vars() {
    let vm = full_pipeline(r#"मान a : शब्द = "नमः" । मान b : शब्द = "व्याकृतिः" ।"#).unwrap();
    assert_eq!(global(&vm, "a"), Some(Value::Str("नमः".to_string())));
    assert_eq!(global(&vm, "b"), Some(Value::Str("व्याकृतिः".to_string())));
}

#[test]
fn e2e_comparisons() {
    let vm = full_pipeline(
        r#"
        मान x : अङ्क = 5 ।
        मान a : सत्यता = x अग्र 3 ।
        मान b : सत्यता = x ऊन 10 ।
        मान c : सत्यता = x समान 5 ।
    "#,
    )
    .unwrap();
    assert_eq!(global(&vm, "a"), Some(Value::Bool(true)));
    assert_eq!(global(&vm, "b"), Some(Value::Bool(true)));
    assert_eq!(global(&vm, "c"), Some(Value::Bool(true)));
}

#[test]
fn e2e_type_error_caught() {
    assert!(full_pipeline("मान x : अङ्क = सत ।").is_err());
}

#[test]
fn e2e_undefined_caught() {
    assert!(full_pipeline("मान x : अङ्क = unknown_var ।").is_err());
}

#[test]
fn e2e_many_vars() {
    let mut src = String::new();
    for i in 0..50 {
        src.push_str(&format!("मान v{} : अङ्क = {} । ", i, i));
    }
    let vm = full_pipeline(&src).unwrap();
    assert_eq!(global(&vm, "v49"), Some(Value::Int(49)));
}

#[test]
fn e2e_sequential_assignment() {
    let vm = full_pipeline(
        r#"
        मान x : अङ्क = 1 ।
        मान x : अङ्क = 2 ।
        मान x : अङ्क = 3 ।
    "#,
    )
    .unwrap();
    assert_eq!(global(&vm, "x"), Some(Value::Int(3)));
}

#[test]
fn edge_deep_nesting() {
    let vm = full_pipeline("मान x : अङ्क = (((((((((1))))))))) ।").unwrap();
    assert_eq!(global(&vm, "x"), Some(Value::Int(1)));
}

#[test]
fn edge_unicode_comment() {
    assert!(full_pipeline("// टिप्पणी नमस्ते\nमान x : अङ्क = 1 ।").is_ok());
}

#[test]
fn edge_block_comment() {
    assert!(full_pipeline("/* बृहत् टिप्पणी */ मान x : अङ्क = 1 ।").is_ok());
}

#[test]
fn edge_zero_value() {
    let vm = full_pipeline("मान x : अङ्क = 0 ।").unwrap();
    assert_eq!(global(&vm, "x"), Some(Value::Int(0)));
}

#[test]
fn edge_boolean_false() {
    let vm = full_pipeline("मान b : सत्यता = असत ।").unwrap();
    assert_eq!(global(&vm, "b"), Some(Value::Bool(false)));
}

#[test]
fn vm_steps_report_host_work_and_faults() {
    let mut vm = VirtualMachine::new();
    let mut bc = Vec::new();
    push_int(&mut bc, 7);
    push_int(&mut bc, 2);
    bc.push(opcode_byte(OpCode::Sub));
    bc.push(opcode_byte(OpCode::FAdd));
    let mut pc = 0;
    pc = match vm.step(&bc, pc) { Step::Next(p) => p, _ => panic!() };
    pc = match vm.step(&bc, pc) { Step::Next(p) => p, _ => panic!() };
    pc = match vm.step(&bc, pc) { Step::Next(p) => p, _ => panic!() };
    assert_eq!(vm.stack_top(), Some(&Value::Int(5)));
    match vm.step(&bc, pc) {
        Step::Fault(e) => assert_eq!(e.0, "stack underflow"),
        _ => panic!("expected underflow"),
    }
    assert!(vm.stack_top().is_none());
    let mut vm2 = VirtualMachine::new();
    vm2.push_value(Value::Int(1));
    vm2.push_value(Value::Float(2.0f64.to_bits()));
    match vm2.step(&[opcode_byte(OpCode::FAdd)], 0) {
        Step::Host(HostCall::Binary(op, a, b), 1) => {
            assert_eq!(op, OP_FADD);
            assert_eq!(a, Value::Int(1));
            assert_eq!(b, Value::Float(2.0f64.to_bits()));
        }
        _ => panic!("expected host work"),
    }
    assert!(matches!(vm2.step(&[opcode_byte(OpCode::PushConst)], 0), Step::Truncated));
    let mut vm3 = VirtualMachine::new();
    let mut div = Vec::new();
    push_int(&mut div, 10);
    push_int(&mut div, 0);
    div.push(opcode_byte(OpCode::Div));
    assert_eq!(run(&mut vm3, &div), Err("division by zero".to_string()));
    let mut vm4 = VirtualMachine::new();
    let mut zero = Vec::new();
    push_int(&mut zero, 0);
    push_int(&mut zero, 5);
    zero.push(opcode_byte(OpCode::Div));
    assert_eq!(run(&mut vm4, &zero), Ok(()));
    assert_eq!(vm4.stack_top(), Some(&Value::Int(0)));
}

fn store_x(bc: &mut Vec<u8>) {
    bc.push(opcode_byte(OpCode::StoreVar));
    bc.extend_from_slice(&1u16.to_be_bytes());
    bc.push(b'x');
}

#[test]
fn vm_operands_keep_their_order() {
    let mut vm = VirtualMachine::new();
    let mut bc = Vec::new();
    push_int(&mut bc, 3);
    push_int(&mut bc, 10);
    bc.push(opcode_byte(OpCode::Sub));
    store_x(&mut bc);
    run(&mut vm, &bc).expect("runs");
    assert_eq!(global(&vm, "x"), Some(Value::Int(-7)));
    let mut vm2 = VirtualMachine::new();
    let mut bc2 = Vec::new();
    push_int(&mut bc2, 20);
    push_int(&mut bc2, 3);
    bc2.push(opcode_byte(OpCode::Div));
    store_x(&mut bc2);
    run(&mut vm2, &bc2).expect("runs");
    assert_eq!(global(&vm2, "x"), Some(Value::Int(6)));
}

#[test]
fn vm_float_operands_of_add_go_to_the_host() {
    let mut vm = VirtualMachine::new();
    let mut bc = Vec::new();
    for f in [1.5f64, 2.5f64] {
        bc.push(opcode_byte(OpCode::PushConst));
        bc.push(3);
        bc.extend_from_slice(&f.to_bits().to_be_bytes());
    }
    bc.push(opcode_byte(OpCode::Add));
    store_x(&mut bc);
    run(&mut vm, &bc).expect("runs");
    assert_eq!(global(&vm, "x"), Some(Value::Float(4.0f64.to_bits())));
}

#[test]
fn vm_undefined_variable_is_an_error() {
    let mut vm = VirtualMachine::new();
    let mut bc = vec![opcode_byte(OpCode::LoadVar)];
    bc.extend_from_slice(&1u16.to_be_bytes());
    bc.push(b'y');
    store_x(&mut bc);
    assert_eq!(run(&mut vm, &bc), Err("undefined variable 'y'".to_string()));
    assert_eq!(global(&vm, "x"), None);
}

#[test]
fn and_short_circuit_leaves_the_left_operand() {
    for (a, b) in [(false, true), (false, false), (true, false), (true, true)] {
        let mut c = BytecodeCompiler::new();
        c.compile_expr(Expression::Binary {
            left: Box::new(Expression::Literal(Value::Bool(a))),
            op: "च".into(),
            right: Box::new(Expression::Literal(Value::Bool(b))),
        })
        .expect("compiles");
        let mut vm = VirtualMachine::new();
        run(&mut vm, &c.get_bytecode()).expect("runs");
        assert_eq!(vm.data_stack, vec![Value::Bool(a && b)]);
    }
}

#[test]
fn arithmetic_on_a_boolean_is_a_type_error() {
    let nodes = parse("मान x = 1 + सत ।").expect("parses");
    let mut tc = TypeChecker::new();
    let errs = tc.check_program(nodes).unwrap_err();
    assert!(errs.iter().any(|e| e.contains("requires numeric operands")));
}
