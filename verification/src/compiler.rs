//! Bytecode generation from the checked, optimised syntax tree.
use vstd::prelude::*;
use crate::ast::{ASTNode, Expression, ExprM, NodeM, expr_m, exprs_m, node_m, nodes_m, strs_m, pairs_m, arms_m};
use crate::bytecode::{
    OP_PUSH_CONST, OP_LOAD_VAR, OP_STORE_VAR, OP_DUP, OP_DROP, OP_GET_VARIANT, OP_ADD, OP_SUB, OP_MUL, OP_DIV,
    OP_EQUAL, OP_NOT_EQUAL, OP_LESS_THAN, OP_GREATER_THAN, OP_LESS_EQUAL, OP_GREATER_EQUAL, OP_JUMP,
    OP_JUMP_IF_FALSE, OP_CALL, OP_RETURN, OP_CALL_BUILTIN, OP_EXTRACT, OP_GET_FIELD, OP_CALL_FOREIGN,
    OP_JUMP_IF_TRUE, OP_BIND_PARAMS, OP_MAKE_STRUCT, TAG_INT, TAG_BOOL, TAG_STR, TAG_FLOAT, TAG_ENUM, TAG_STRUCT, be16, be32, be64,
    str_fits, str_code, zeros4, u16_bytes, u32_bytes, u64_bytes,
};
use crate::util::{utf8_bytes, push_str, owned, str_eq, NameMap};
use crate::vm::{Value, ValueM, value_m, fields_m, lemma_fields_m};
use crate::ast::{clone_expr, lemma_exprs_m, lemma_arms_m, lemma_nodes_m};
use crate::ast::AccessModifier;
use crate::machine::{VmM, StepM, step_spec, exec_spec, run_steps, MAX_INSTRUCTIONS};
use crate::decoder::{InstrM, decode_at, law_decode_written};

verus! {

/// Errors of bytecode generation.
#[derive(Debug, Clone, PartialEq, Eq)]
pub enum CompileError {
    UnsupportedNode(String),
    UnsupportedOp(String),
    LinkError(String),
    Io(String),
}

/// Model of a compile error: its kind and message.
pub enum CompileErrorM {
    UnsupportedNode(Seq<char>),
    UnsupportedOp(Seq<char>),
    LinkError(Seq<char>),
    Io(Seq<char>),
}

impl View for CompileError {
    type V = CompileErrorM;

    open spec fn view(&self) -> CompileErrorM {
        match self {
            CompileError::UnsupportedNode(m) => CompileErrorM::UnsupportedNode(m@),
            CompileError::UnsupportedOp(m) => CompileErrorM::UnsupportedOp(m@),
            CompileError::LinkError(m) => CompileErrorM::LinkError(m@),
            CompileError::Io(m) => CompileErrorM::Io(m@),
        }
    }
}

impl CompileError {
    /// The text of the error, as its `Display` form reads.
    pub fn to_string(&self) -> (r: String)
        ensures
            r@ == compile_error_text(self@),
    {
        let (prefix, msg) = match self {
            CompileError::UnsupportedNode(m) => ("compile error: unsupported node: ", m),
            CompileError::UnsupportedOp(m) => ("compile error: unsupported operator: ", m),
            CompileError::LinkError(m) => ("link error: ", m),
            CompileError::Io(m) => ("i/o error: ", m),
        };
        let mut r = owned(prefix);
        push_str(&mut r, msg.as_str());
        proof {
            reveal_strlit("compile error: unsupported node: ");
            reveal_strlit("compile error: unsupported operator: ");
            reveal_strlit("link error: ");
            reveal_strlit("i/o error: ");
        }
        r
    }
}

pub open spec fn compile_error_text(e: CompileErrorM) -> Seq<char> {
    match e {
        CompileErrorM::UnsupportedNode(m) => "compile error: unsupported node: "@ + m,
        CompileErrorM::UnsupportedOp(m) => "compile error: unsupported operator: "@ + m,
        CompileErrorM::LinkError(m) => "link error: "@ + m,
        CompileErrorM::Io(m) => "i/o error: "@ + m,
    }
}

/// The built-in functions that compile to `CallBuiltin`.
pub open spec fn builtin_names() -> Seq<Seq<char>> {
    seq!["मुद्रण"@, "दैर्घ्यम्"@, "प्रकारः"@, "योजन"@, "अस्ति"@, "संख्या"@, "रूपान्तर"@]
}

pub open spec fn spec_is_builtin(name: Seq<char>) -> bool {
    builtin_names().contains(name)
}

/// Whether `name` is one of the built-in functions.
pub fn is_builtin(name: &str) -> (r: bool)
    ensures
        r == spec_is_builtin(name@),
{
    let names = ["मुद्रण", "दैर्घ्यम्", "प्रकारः", "योजन", "अस्ति", "संख्या", "रूपान्तर"];
    proof {
        reveal_strlit("मुद्रण");
        reveal_strlit("दैर्घ्यम्");
        reveal_strlit("प्रकारः");
        reveal_strlit("योजन");
        reveal_strlit("अस्ति");
        reveal_strlit("संख्या");
        reveal_strlit("रूपान्तर");
        assert(builtin_names() =~= seq![names[0]@, names[1]@, names[2]@, names[3]@, names[4]@, names[5]@, names[6]@]);
    }
    let mut i: usize = 0;
    while i < 7
        invariant
            i <= 7,
            forall|j: int| 0 <= j < i ==> names@[j]@ != name@,
            builtin_names() == seq![names[0]@, names[1]@, names[2]@, names[3]@, names[4]@, names[5]@, names[6]@],
        decreases 7 - i,
    {
        if str_eq(names[i], name) {
            assert(builtin_names()[i as int] == name@);
            return true;
        }
        i = i + 1;
    }
    assert forall|j: int| 0 <= j < 7 implies builtin_names()[j] != name@ by {
        assert(builtin_names()[j] == names@[j]@);
    }
    false
}

/// Model of the compiler: code so far, function entry points, pending call
/// sites, the module being compiled, struct layouts and foreign functions.
pub struct CState {
    pub code: Seq<u8>,
    pub functions: Map<Seq<char>, u32>,
    pub calls: Seq<(int, Seq<char>)>,
    pub module: Option<Seq<char>>,
    pub structs: Map<Seq<char>, Seq<Seq<char>>>,
    pub foreign: Map<Seq<char>, (Seq<char>, Seq<char>, usize)>,
}

/// The outcome of compiling a piece of syntax: the next compiler state, an
/// error, or an abort (a string too long to be written).
pub enum Step {
    Done(CState),
    Fail(CompileErrorM),
    Abort,
}

pub open spec fn emit(st: CState, b: Seq<u8>) -> CState {
    CState { code: st.code + b, ..st }
}

/// Writes the 32-bit value `v` over the four bytes at `idx`.
pub open spec fn patch(st: CState, idx: int, v: u32) -> CState {
    CState { code: patch_code(st.code, idx, v), ..st }
}

/// The code with the 32-bit value `v` written over the four bytes at `idx`.
pub open spec fn patch_code(code: Seq<u8>, idx: int, v: u32) -> Seq<u8> {
    code.subrange(0, idx) + be32(v) + code.subrange(idx + 4, code.len() as int)
}

/// The current code length as a 32-bit address.
pub open spec fn here(st: CState) -> u32 {
    st.code.len() as u32
}

pub open spec fn emit_str(st: CState, s: Seq<char>) -> Step {
    if str_fits(s) {
        Step::Done(emit(st, str_code(s)))
    } else {
        Step::Abort
    }
}

/// The byte of a binary operator, for those compiled to a single instruction.
pub open spec fn binary_opcode(op: Seq<char>) -> Option<u8> {
    if op == "+"@ {
        Some(OP_ADD)
    } else if op == "-"@ {
        Some(OP_SUB)
    } else if op == "*"@ {
        Some(OP_MUL)
    } else if op == "/"@ {
        Some(OP_DIV)
    } else if op == "=="@ {
        Some(OP_EQUAL)
    } else if op == "!="@ {
        Some(OP_NOT_EQUAL)
    } else if op == "<"@ {
        Some(OP_LESS_THAN)
    } else if op == ">"@ {
        Some(OP_GREATER_THAN)
    } else if op == "<="@ {
        Some(OP_LESS_EQUAL)
    } else if op == ">="@ {
        Some(OP_GREATER_EQUAL)
    } else {
        None
    }
}

/// The bytes after `PushConst` for a field value inside a struct constant.
pub open spec fn field_const_code(v: ValueM) -> Option<Seq<u8>> {
    match v {
        ValueM::Int(n) => Some(seq![TAG_INT] + be64(n as u64)),
        ValueM::Bool(b) => Some(seq![TAG_BOOL, if b { 1u8 } else { 0u8 }]),
        ValueM::Str(s) => if str_fits(s) { Some(seq![TAG_STR] + str_code(s)) } else { None },
        ValueM::Float(bits) => Some(seq![TAG_FLOAT] + be64(bits)),
        _ => Some(seq![TAG_INT] + be64(0u64)),
    }
}

pub open spec fn fields_spec(st: CState, fields: Seq<(Seq<char>, ValueM)>) -> Step
    decreases fields.len(),
{
    if fields.len() == 0 {
        Step::Done(st)
    } else {
        match emit_str(st, fields[0].0) {
            Step::Done(s1) => match field_const_code(fields[0].1) {
                Some(b) => fields_spec(emit(s1, seq![OP_PUSH_CONST] + b), fields.drop_first()),
                None => Step::Abort,
            },
            other => other,
        }
    }
}

/// Compiling a literal constant.
pub open spec fn literal_spec(st: CState, v: ValueM) -> Step {
    let s1 = emit(st, seq![OP_PUSH_CONST]);
    match v {
        ValueM::Int(n) => Step::Done(emit(s1, seq![TAG_INT] + be64(n as u64))),
        ValueM::Bool(b) => Step::Done(emit(s1, seq![TAG_BOOL, if b { 1u8 } else { 0u8 }])),
        ValueM::Str(s) => emit_str(emit(s1, seq![TAG_STR]), s),
        ValueM::Float(bits) => Step::Done(emit(s1, seq![TAG_FLOAT] + be64(bits))),
        ValueM::Enum(name, _) => emit_str(emit(s1, seq![TAG_ENUM]), name),
        ValueM::Struct(fields) => fields_spec(emit(s1, seq![TAG_STRUCT, (fields.len() % 256) as u8]), fields),
        _ => Step::Done(s1),
    }
}

/// Compiling a call site whose target is patched in at link time.
pub open spec fn call_site(st: CState, name: Seq<char>) -> CState {
    let s1 = emit(st, seq![OP_CALL]);
    let idx = s1.code.len() as int;
    CState { calls: s1.calls.push((idx, name)), ..emit(s1, zeros4()) }
}

/// The message of an unsupported expression.
pub open spec fn unsupported_expr(e: ExprM) -> Option<CompileErrorM> {
    match e {
        ExprM::GenericCall { name, .. } => Some(CompileErrorM::UnsupportedOp(
            "generic call '"@ + name + "' reached bytecode generation before monomorphization"@)),
        ExprM::BorrowExpr { target, .. } => Some(CompileErrorM::UnsupportedOp(
            "borrow expression for '"@ + target + "' is not executable yet"@)),
        ExprM::AwaitExpr { .. } => Some(CompileErrorM::UnsupportedOp("await expressions are not executable yet"@)),
        _ => None,
    }
}

/// Compiling an expression: the code it appends and the call sites it records.
pub open spec fn expr_spec(st: CState, e: ExprM) -> Step
    decreases e, 1nat,
{
    match e {
        ExprM::Literal(v) => literal_spec(st, v),
        ExprM::IntLiteral(n) => Step::Done(emit(st, seq![OP_PUSH_CONST, TAG_INT] + be64(n as u64))),
        ExprM::Variable(name) => emit_str(emit(st, seq![OP_LOAD_VAR]), name),
        ExprM::Binary { .. } => binary_spec(st, e),
        ExprM::MatchExpr { .. } => match_spec(st, e),
        ExprM::FieldAccess { object, field } => match expr_spec(st, *object) {
            Step::Done(s1) => emit_str(emit(s1, seq![OP_GET_FIELD]), field),
            other => other,
        },
        ExprM::MethodCall { instance, method_name, args } => match expr_spec(st, *instance) {
            Step::Done(s1) => match args_spec(s1, args) {
                Step::Done(s2) => Step::Done(call_site(s2, method_name)),
                other => other,
            },
            other => other,
        },
        ExprM::Call { .. } => call_spec(st, e),
        ExprM::GenericCall { .. } | ExprM::BorrowExpr { .. } | ExprM::AwaitExpr { .. } => Step::Fail(unsupported_expr(e)->0),
    }
}

/// Compiling a binary operation: `च` and `वा` short-circuit through a
/// forward jump, the other operators compile both sides then one instruction.
pub open spec fn binary_spec(st: CState, e: ExprM) -> Step
    decreases e, 0nat,
{
    match e {
        ExprM::Binary { left, op, right } => {
            if op == "च"@ {
                match expr_spec(st, *left) {
                    Step::Done(s1) => {
                        let idx = s1.code.len() + 2int;
                        match expr_spec(emit(s1, seq![OP_DUP, OP_JUMP_IF_FALSE] + zeros4() + seq![OP_DROP]), *right) {
                            Step::Done(s3) => Step::Done(patch(s3, idx, here(s3))),
                            other => other,
                        }
                    },
                    other => other,
                }
            } else if op == "वा"@ {
                match expr_spec(st, *left) {
                    Step::Done(s1) => {
                        let idx = s1.code.len() + 2int;
                        match expr_spec(emit(s1, seq![OP_DUP, OP_JUMP_IF_TRUE] + zeros4() + seq![OP_DROP]), *right) {
                            Step::Done(s3) => Step::Done(patch(s3, idx, here(s3))),
                            other => other,
                        }
                    },
                    other => other,
                }
            } else {
                match expr_spec(st, *left) {
                    Step::Done(s1) => match expr_spec(s1, *right) {
                        Step::Done(s2) => match binary_opcode(op) {
                            Some(b) => Step::Done(emit(s2, seq![b])),
                            None => Step::Fail(CompileErrorM::UnsupportedOp(op)),
                        },
                        other => other,
                    },
                    other => other,
                }
            }
        },
        _ => Step::Abort,
    }
}

/// Compiling a match: each arm tests the variant name of a copy of the
/// target; the arms' end jumps are patched to the shared end.
pub open spec fn match_spec(st: CState, e: ExprM) -> Step
    decreases e, 0nat,
{
    match e {
        ExprM::MatchExpr { eval_target, arms } => match expr_spec(st, *eval_target) {
            Step::Done(s1) => match arms_spec(s1, arms) {
                Step::Done(s2) => {
                    let s3 = emit(s2, seq![OP_DROP, OP_PUSH_CONST, TAG_INT] + be64(0u64));
                    Step::Done(patch_all(s3, arm_ends(s1, arms), here(s3)))
                },
                other => other,
            },
            other => other,
        },
        _ => Step::Abort,
    }
}

/// Compiling a call: built-ins by name, foreign functions by library and
/// symbol, any other function through a call site patched at link time.
pub open spec fn call_spec(st: CState, e: ExprM) -> Step
    decreases e, 0nat,
{
    match e {
        ExprM::Call { name, args } => match args_spec(st, args) {
            Step::Done(s1) => call_tail(s1, name, args.len()),
            other => other,
        },
        _ => Step::Abort,
    }
}

/// What a call appends after its arguments.
pub open spec fn call_tail(s1: CState, name: Seq<char>, nargs: nat) -> Step {
    let n = (nargs % 256) as u8;
    if spec_is_builtin(name) {
        match emit_str(emit(s1, seq![OP_CALL_BUILTIN]), name) {
            Step::Done(s2) => Step::Done(emit(s2, seq![n])),
            other => other,
        }
    } else if s1.foreign.dom().contains(name) {
        let f = s1.foreign[name];
        match emit_str(emit(s1, seq![OP_CALL_FOREIGN]), f.0) {
            Step::Done(s2) => match emit_str(s2, f.1) {
                Step::Done(s3) => Step::Done(emit(s3, seq![n])),
                other => other,
            },
            other => other,
        }
    } else {
        Step::Done(call_site(s1, name))
    }
}

/// Compiling argument expressions in order.
pub open spec fn args_spec(st: CState, args: Seq<ExprM>) -> Step
    decreases args, 0nat,
{
    if args.len() == 0 {
        Step::Done(st)
    } else {
        match expr_spec(st, args[0]) {
            Step::Done(s1) => args_spec(s1, args.drop_first()),
            other => other,
        }
    }
}

/// Stores of the bound names of a match arm.
pub open spec fn binds_spec(st: CState, binds: Seq<Seq<char>>) -> Step
    decreases binds.len(),
{
    if binds.len() == 0 {
        Step::Done(st)
    } else {
        match emit_str(emit(st, seq![OP_DUP, OP_STORE_VAR]), binds[0]) {
            Step::Done(s1) => binds_spec(s1, binds.drop_first()),
            other => other,
        }
    }
}

/// The test of a match arm: compare the variant name of a copy of the target
/// with the arm's pattern, jump to the next arm when it differs, else extract
/// the payload and bind it.
pub open spec fn arm_head_spec(st: CState, pattern: Seq<char>, binds: Seq<Seq<char>>) -> Step {
    match emit_str(emit(st, seq![OP_DUP, OP_GET_VARIANT, OP_PUSH_CONST, TAG_STR]), pattern) {
        Step::Done(s1) => {
            let s2 = emit(s1, seq![OP_EQUAL, OP_JUMP_IF_FALSE] + zeros4() + seq![OP_EXTRACT]);
            match binds_spec(s2, binds) {
                Step::Done(s4) => Step::Done(emit(s4, seq![OP_DROP])),
                other => other,
            }
        },
        other => other,
    }
}

/// Where the next-arm jump of an arm head is written.
pub open spec fn arm_next(st: CState, pattern: Seq<char>) -> int {
    st.code.len() + 4int + 2 + utf8_bytes(pattern).len() + 2
}

/// Compiling one match arm, up to (and including) the patch of its test jump.
pub open spec fn arm_spec(st: CState, arm: (Seq<char>, Seq<Seq<char>>, ExprM)) -> Step
    decreases arm, 0nat,
{
    match arm_head_spec(st, arm.0, arm.1) {
        Step::Done(s5) => match expr_spec(s5, arm.2) {
            Step::Done(s6) => {
                let s7 = emit(s6, seq![OP_JUMP] + zeros4());
                Step::Done(patch(s7, arm_next(st, arm.0), here(s7)))
            },
            other => other,
        },
        other => other,
    }
}

/// Compiling the arms of a match in order.
pub open spec fn arms_spec(st: CState, arms: Seq<(Seq<char>, Seq<Seq<char>>, ExprM)>) -> Step
    decreases arms, 0nat,
{
    if arms.len() == 0 {
        Step::Done(st)
    } else {
        match arm_spec(st, arms[0]) {
            Step::Done(s1) => arms_spec(s1, arms.drop_first()),
            other => other,
        }
    }
}

/// The positions of the end jumps of the match arms (each is the four bytes
/// before the end of the arm's code).
pub open spec fn arm_ends(st: CState, arms: Seq<(Seq<char>, Seq<Seq<char>>, ExprM)>) -> Seq<int>
    decreases arms, 0nat,
{
    if arms.len() == 0 {
        Seq::empty()
    } else {
        match arm_spec(st, arms[0]) {
            Step::Done(s1) => seq![s1.code.len() - 4].add(arm_ends(s1, arms.drop_first())),
            _ => Seq::empty(),
        }
    }
}

pub open spec fn patch_all(st: CState, idxs: Seq<int>, v: u32) -> CState
    decreases idxs.len(),
{
    if idxs.len() == 0 {
        st
    } else {
        patch_all(patch(st, idxs[0], v), idxs.drop_first(), v)
    }
}

/// A name as declared inside the current module: `module::name`.
pub open spec fn qualified(module: Option<Seq<char>>, name: Seq<char>) -> Seq<char> {
    match module {
        Some(m) => m + "::"@ + name,
        None => name,
    }
}

/// The parameter names of a function, each written as a string.
pub open spec fn params_spec(st: CState, params: Seq<(Seq<char>, Seq<char>)>) -> Step
    decreases params.len(),
{
    if params.len() == 0 {
        Step::Done(st)
    } else {
        match emit_str(st, params[0].0) {
            Step::Done(s1) => params_spec(s1, params.drop_first()),
            other => other,
        }
    }
}

/// The head of a function: a jump over its body, its entry in the function
/// table, and the binding of its parameters.
pub open spec fn func_head_spec(st: CState, name: Seq<char>, params: Seq<(Seq<char>, Seq<char>)>) -> Step {
    let s1 = emit(st, seq![OP_JUMP] + zeros4());
    let s2 = CState { functions: s1.functions.insert(qualified(st.module, name), here(s1)), ..s1 };
    params_spec(emit(s2, seq![OP_BIND_PARAMS, (params.len() % 256) as u8]), params)
}

/// The message of a statement that cannot be compiled.
pub open spec fn unsupported_node(n: NodeM) -> Option<Seq<char>> {
    match n {
        NodeM::MacroCall { name, .. } => Some("macro call '"@ + name + "!' reached bytecode generation before expansion"@),
        NodeM::GenericFuncDecl { name, .. } => Some("generic function '"@ + name + "' reached bytecode generation before monomorphization"@),
        NodeM::AsyncFuncDecl { name, .. } => Some("async function '"@ + name + "' is parsed but not executable yet"@),
        NodeM::SpawnStmt(_) => Some("spawn statements are not executable yet"@),
        NodeM::DelayStmt(_) => Some("delay statements are not executable yet"@),
        _ => None,
    }
}

/// Compiling a statement.
#[verifier::opaque]
pub open spec fn node_spec(st: CState, n: NodeM) -> Step
    decreases n, 1nat,
{
    match n {
        NodeM::VarDecl { name, value, .. } => match expr_spec(st, value) {
            Step::Done(s1) => emit_str(emit(s1, seq![OP_STORE_VAR]), qualified(st.module, name)),
            other => other,
        },
        NodeM::FuncDecl { name, parameters, body, .. } => match func_head_spec(st, name, parameters) {
            Step::Done(s4) => match nodes_spec(s4, body) {
                Step::Done(s5) => {
                    let s6 = emit(s5, seq![OP_RETURN]);
                    Step::Done(patch(s6, st.code.len() + 1int, here(s6)))
                },
                other => other,
            },
            other => other,
        },
        NodeM::IfStmt { condition, then_branch, else_branch } => match expr_spec(st, condition) {
            Step::Done(s1) => match nodes_spec(emit(s1, seq![OP_JUMP_IF_FALSE] + zeros4()), then_branch) {
                Step::Done(s3) => {
                    let s4 = emit(s3, seq![OP_JUMP] + zeros4());
                    let s5 = patch(s4, s1.code.len() + 1int, here(s4));
                    match else_branch {
                        Some(b) => match nodes_spec(s5, b) {
                            Step::Done(s6) => Step::Done(patch(s6, s3.code.len() + 1int, here(s6))),
                            other => other,
                        },
                        None => Step::Done(patch(s5, s3.code.len() + 1int, here(s5))),
                    }
                },
                other => other,
            },
            other => other,
        },
        NodeM::WhileStmt { condition, body } => match expr_spec(st, condition) {
            Step::Done(s1) => match nodes_spec(emit(s1, seq![OP_JUMP_IF_FALSE] + zeros4()), body) {
                Step::Done(s3) => {
                    let s4 = patch(emit(s3, seq![OP_JUMP] + zeros4()), s3.code.len() + 1int, here(st));
                    Step::Done(patch(s4, s1.code.len() + 1int, here(s4)))
                },
                other => other,
            },
            other => other,
        },
        NodeM::StructDecl { name, fields, .. } => Step::Done(
            CState { structs: st.structs.insert(name, fields.map_values(|f: (Seq<char>, Seq<char>)| f.0)), ..st }),
        NodeM::FFIDecl { library_path, symbol_name, parameters, .. } => Step::Done(
            CState { foreign: st.foreign.insert(symbol_name, (library_path, symbol_name, parameters.len() as usize)), ..st }),
        NodeM::ModuleDef { name, body } => match nodes_spec(CState { module: Some(name), ..st }, body) {
            Step::Done(s1) => Step::Done(CState { module: st.module, ..s1 }),
            other => other,
        },
        NodeM::StatementExpr(e) => expr_spec(st, e),
        NodeM::ReturnStmt(e) => match expr_spec(st, e) {
            Step::Done(s1) => Step::Done(emit(s1, seq![OP_RETURN])),
            other => other,
        },
        NodeM::Block(b) => nodes_spec(st, b),
        NodeM::MacroCall { .. } | NodeM::GenericFuncDecl { .. } | NodeM::AsyncFuncDecl { .. }
        | NodeM::SpawnStmt(_) | NodeM::DelayStmt(_) => Step::Fail(CompileErrorM::UnsupportedNode(unsupported_node(n)->0)),
        _ => Step::Done(st),
    }
}

/// Compiling statements in order.
pub open spec fn nodes_spec(st: CState, ns: Seq<NodeM>) -> Step
    decreases ns, 0nat,
{
    if ns.len() == 0 {
        Step::Done(st)
    } else {
        match node_spec(st, ns[0]) {
            Step::Done(s1) => nodes_spec(s1, ns.drop_first()),
            other => other,
        }
    }
}

/// The parts of a compiler state that compiling an expression only extends:
/// the code grows, earlier call sites stay, the tables are unchanged.
pub open spec fn extends(a: CState, b: CState) -> bool {
    &&& b.code.len() >= a.code.len()
    &&& b.calls.len() >= a.calls.len()
    &&& b.functions == a.functions
    &&& b.structs == a.structs
    &&& b.foreign == a.foreign
    &&& b.module == a.module
    &&& (calls_within(a) ==> calls_within(b))
}

/// Every recorded call site lies inside the code.
pub open spec fn calls_within(st: CState) -> bool {
    forall|i: int| 0 <= i < st.calls.len() ==> 0 <= #[trigger] st.calls[i].0 && st.calls[i].0 + 4 <= st.code.len()
}

pub proof fn lemma_call_site(st: CState, name: Seq<char>)
    ensures
        extends(st, call_site(st, name)),
{
    let s = call_site(st, name);
    if calls_within(st) {
        assert forall|i: int| 0 <= i < s.calls.len() implies 0 <= #[trigger] s.calls[i].0 && s.calls[i].0 + 4 <= s.code.len() by {
            if i < st.calls.len() {
                assert(s.calls[i] == st.calls[i]);
            }
        }
    }
}

pub proof fn lemma_call_tail(s1: CState, name: Seq<char>, nargs: nat)
    ensures
        call_tail(s1, name, nargs) matches Step::Done(s) ==> extends(s1, s),
{
    lemma_call_site(s1, name);
}

pub proof fn lemma_patch_len(st: CState, idx: int, v: u32)
    requires
        0 <= idx,
        idx + 4 <= st.code.len(),
    ensures
        patch(st, idx, v).code.len() == st.code.len(),
        extends(st, patch(st, idx, v)),
{
}

pub proof fn lemma_fields_grows(st: CState, fields: Seq<(Seq<char>, ValueM)>)
    ensures
        fields_spec(st, fields) matches Step::Done(s) ==> extends(st, s),
    decreases fields.len(),
{
    if fields.len() > 0 {
        if let Step::Done(s1) = emit_str(st, fields[0].0) {
            if let Some(b) = field_const_code(fields[0].1) {
                lemma_fields_grows(emit(s1, seq![OP_PUSH_CONST] + b), fields.drop_first());
            }
        }
    }
}

pub proof fn lemma_binds_grows(st: CState, binds: Seq<Seq<char>>)
    ensures
        binds_spec(st, binds) matches Step::Done(s) ==> extends(st, s),
    decreases binds.len(),
{
    if binds.len() > 0 {
        if let Step::Done(s1) = emit_str(emit(st, seq![OP_DUP, OP_STORE_VAR]), binds[0]) {
            lemma_binds_grows(s1, binds.drop_first());
        }
    }
}

pub proof fn lemma_literal_grows(st: CState, v: ValueM)
    ensures
        literal_spec(st, v) matches Step::Done(s) ==> extends(st, s),
{
    if let ValueM::Struct(fields) = v {
        lemma_fields_grows(emit(emit(st, seq![OP_PUSH_CONST]), seq![TAG_STRUCT, (fields.len() % 256) as u8]), fields);
    }
}

pub proof fn lemma_expr_grows(st: CState, e: ExprM)
    ensures
        expr_spec(st, e) matches Step::Done(s) ==> extends(st, s),
    decreases e, 1nat,
{
    match e {
        ExprM::Literal(v) => {
            lemma_literal_grows(st, v);
        },
        ExprM::Binary { .. } => {
            lemma_binary_grows(st, e);
        },
        ExprM::MatchExpr { .. } => {
            lemma_match_grows(st, e);
        },
        ExprM::FieldAccess { object, field } => {
            lemma_expr_grows(st, *object);
        },
        ExprM::MethodCall { instance, method_name, args } => {
            lemma_expr_grows(st, *instance);
            if let Step::Done(s1) = expr_spec(st, *instance) {
                lemma_args_grows(s1, args);
                if let Step::Done(s2) = args_spec(s1, args) {
                    lemma_call_site(s2, method_name);
                }
            }
        },
        ExprM::Call { .. } => {
            lemma_call_grows(st, e);
        },
        _ => {},
    }
}

pub proof fn lemma_binary_grows(st: CState, e: ExprM)
    ensures
        binary_spec(st, e) matches Step::Done(s) ==> extends(st, s),
    decreases e, 0nat,
{
    if let ExprM::Binary { left, op, right } = e {
        lemma_expr_grows(st, *left);
        if let Step::Done(s1) = expr_spec(st, *left) {
            lemma_expr_grows(s1, *right);
            let a = emit(s1, seq![OP_DUP, OP_JUMP_IF_FALSE] + zeros4() + seq![OP_DROP]);
            let b = emit(s1, seq![OP_DUP, OP_JUMP_IF_TRUE] + zeros4() + seq![OP_DROP]);
            lemma_expr_grows(a, *right);
            lemma_expr_grows(b, *right);
            if let Step::Done(s3) = expr_spec(a, *right) {
                lemma_patch_len(s3, s1.code.len() + 2int, here(s3));
            }
            if let Step::Done(s3) = expr_spec(b, *right) {
                lemma_patch_len(s3, s1.code.len() + 2int, here(s3));
            }
        }
    }
}

pub proof fn lemma_call_grows(st: CState, e: ExprM)
    ensures
        call_spec(st, e) matches Step::Done(s) ==> extends(st, s),
    decreases e, 0nat,
{
    if let ExprM::Call { name, args } = e {
        lemma_args_grows(st, args);
        if let Step::Done(s1) = args_spec(st, args) {
            lemma_call_tail(s1, name, args.len());
        }
    }
}

pub proof fn lemma_match_grows(st: CState, e: ExprM)
    ensures
        match_spec(st, e) matches Step::Done(s) ==> extends(st, s),
    decreases e, 0nat,
{
    if let ExprM::MatchExpr { eval_target, arms } = e {
        lemma_expr_grows(st, *eval_target);
        if let Step::Done(s1) = expr_spec(st, *eval_target) {
            lemma_arms_grows(s1, arms);
            if let Step::Done(s2) = arms_spec(s1, arms) {
                let s3 = emit(s2, seq![OP_DROP, OP_PUSH_CONST, TAG_INT] + be64(0u64));
                lemma_patch_all_len(s3, arm_ends(s1, arms), here(s3));
            }
        }
    }
}

pub proof fn lemma_args_grows(st: CState, args: Seq<ExprM>)
    ensures
        args_spec(st, args) matches Step::Done(s) ==> extends(st, s),
    decreases args, 0nat,
{
    if args.len() > 0 {
        lemma_expr_grows(st, args[0]);
        if let Step::Done(s1) = expr_spec(st, args[0]) {
            lemma_args_grows(s1, args.drop_first());
        }
    }
}

pub proof fn lemma_arm_head(st: CState, pattern: Seq<char>, binds: Seq<Seq<char>>)
    ensures
        arm_head_spec(st, pattern, binds) matches Step::Done(s) ==> extends(st, s) && arm_next(st, pattern) + 4 <= s.code.len()
            && arm_next(st, pattern) >= st.code.len(),
{
    if let Step::Done(s1) = emit_str(emit(st, seq![OP_DUP, OP_GET_VARIANT, OP_PUSH_CONST, TAG_STR]), pattern) {
        let s2 = emit(s1, seq![OP_EQUAL, OP_JUMP_IF_FALSE] + zeros4() + seq![OP_EXTRACT]);
        lemma_binds_grows(s2, binds);
        assert(s1.code.len() == st.code.len() + 4 + 2 + utf8_bytes(pattern).len());
    }
}

pub proof fn lemma_arm_grows(st: CState, arm: (Seq<char>, Seq<Seq<char>>, ExprM))
    ensures
        arm_spec(st, arm) matches Step::Done(s) ==> extends(st, s) && s.code.len() >= st.code.len() + 4,
    decreases arm, 0nat,
{
    lemma_arm_head(st, arm.0, arm.1);
    if let Step::Done(s5) = arm_head_spec(st, arm.0, arm.1) {
        lemma_expr_grows(s5, arm.2);
        if let Step::Done(s6) = expr_spec(s5, arm.2) {
            let s7 = emit(s6, seq![OP_JUMP] + zeros4());
            lemma_patch_len(s7, arm_next(st, arm.0), here(s7));
        }
    }
}

pub proof fn lemma_arms_grows(st: CState, arms: Seq<(Seq<char>, Seq<Seq<char>>, ExprM)>)
    ensures
        arms_spec(st, arms) matches Step::Done(s) ==> extends(st, s),
        arms_spec(st, arms) matches Step::Done(s) ==> forall|i: int| 0 <= i < arm_ends(st, arms).len() ==>
            st.code.len() <= #[trigger] arm_ends(st, arms)[i] && arm_ends(st, arms)[i] + 4 <= s.code.len(),
    decreases arms, 0nat,
{
    if arms.len() > 0 {
        lemma_arm_grows(st, arms[0]);
        if let Step::Done(s1) = arm_spec(st, arms[0]) {
            lemma_arms_grows(s1, arms.drop_first());
            let rest = arm_ends(s1, arms.drop_first());
            let all = arm_ends(st, arms);
            assert(all == seq![s1.code.len() - 4].add(rest));
            if let Step::Done(s) = arms_spec(st, arms) {
                assert(arms_spec(s1, arms.drop_first()) == Step::Done(s));
                assert forall|i: int| 0 <= i < all.len() implies st.code.len() <= #[trigger] all[i] && all[i] + 4 <= s.code.len() by {
                    if i > 0 {
                        assert(all[i] == rest[i - 1]);
                    }
                }
            }
        }
    }
}

pub proof fn lemma_patch_all_len(st: CState, idxs: Seq<int>, v: u32)
    ensures
        (forall|i: int| 0 <= i < idxs.len() ==> 0 <= #[trigger] idxs[i] && idxs[i] + 4 <= st.code.len())
            ==> patch_all(st, idxs, v).code.len() == st.code.len() && extends(st, patch_all(st, idxs, v)),
    decreases idxs.len(),
{
    if idxs.len() > 0 {
        lemma_patch_all_len(patch(st, idxs[0], v), idxs.drop_first(), v);
        if forall|i: int| 0 <= i < idxs.len() ==> 0 <= #[trigger] idxs[i] && idxs[i] + 4 <= st.code.len() {
            assert(patch(st, idxs[0], v).code.len() == st.code.len());
            assert forall|i: int| 0 <= i < idxs.drop_first().len() implies 0 <= #[trigger] idxs.drop_first()[i] && idxs.drop_first()[i] + 4 <= patch(st, idxs[0], v).code.len() by {
                assert(idxs.drop_first()[i] == idxs[i + 1]);
            }
        }
    }
}

pub proof fn lemma_params_grows(st: CState, params: Seq<(Seq<char>, Seq<char>)>)
    ensures
        params_spec(st, params) matches Step::Done(s) ==> s.code.len() >= st.code.len() && s.functions == st.functions
            && s.module == st.module && s.calls == st.calls,
    decreases params.len(),
{
    if params.len() > 0 {
        if let Step::Done(s1) = emit_str(st, params[0].0) {
            lemma_params_grows(s1, params.drop_first());
        }
    }
}

/// Compiling a statement never shrinks the code.
pub proof fn lemma_node_grows(st: CState, n: NodeM)
    ensures
        node_spec(st, n) matches Step::Done(s) ==> s.code.len() >= st.code.len() && (calls_within(st) ==> calls_within(s)),
    decreases n, 1nat,
{
    reveal(node_spec);
    match n {
        NodeM::VarDecl { name, value, .. } => {
            lemma_expr_grows(st, value);
        },
        NodeM::FuncDecl { name, parameters, body, .. } => {
            let s1 = emit(st, seq![OP_JUMP] + zeros4());
            let s2 = CState { functions: s1.functions.insert(qualified(st.module, name), here(s1)), ..s1 };
            lemma_params_grows(emit(s2, seq![OP_BIND_PARAMS, (parameters.len() % 256) as u8]), parameters);
            if let Step::Done(s4) = func_head_spec(st, name, parameters) {
                lemma_nodes_grows(s4, body);
                if let Step::Done(s5) = nodes_spec(s4, body) {
                    let s6 = emit(s5, seq![OP_RETURN]);
                    lemma_patch_len(s6, st.code.len() + 1int, here(s6));
                }
            }
        },
        NodeM::IfStmt { condition, then_branch, else_branch } => {
            lemma_expr_grows(st, condition);
            if let Step::Done(s1) = expr_spec(st, condition) {
                let s2 = emit(s1, seq![OP_JUMP_IF_FALSE] + zeros4());
                lemma_nodes_grows(s2, then_branch);
                if let Step::Done(s3) = nodes_spec(s2, then_branch) {
                    let s4 = emit(s3, seq![OP_JUMP] + zeros4());
                    lemma_patch_len(s4, s1.code.len() + 1int, here(s4));
                    let s5 = patch(s4, s1.code.len() + 1int, here(s4));
                    lemma_patch_len(s5, s3.code.len() + 1int, here(s5));
                    if let Some(b) = else_branch {
                        lemma_nodes_grows(s5, b);
                        if let Step::Done(s6) = nodes_spec(s5, b) {
                            lemma_patch_len(s6, s3.code.len() + 1int, here(s6));
                        }
                    }
                }
            }
        },
        NodeM::WhileStmt { condition, body } => {
            lemma_expr_grows(st, condition);
            if let Step::Done(s1) = expr_spec(st, condition) {
                let s2 = emit(s1, seq![OP_JUMP_IF_FALSE] + zeros4());
                lemma_nodes_grows(s2, body);
                if let Step::Done(s3) = nodes_spec(s2, body) {
                    let s4a = emit(s3, seq![OP_JUMP] + zeros4());
                    lemma_patch_len(s4a, s3.code.len() + 1int, here(st));
                    let s4 = patch(s4a, s3.code.len() + 1int, here(st));
                    lemma_patch_len(s4, s1.code.len() + 1int, here(s4));
                }
            }
        },
        NodeM::ModuleDef { name, body } => {
            lemma_nodes_grows(CState { module: Some(name), ..st }, body);
        },
        NodeM::StatementExpr(e) => {
            lemma_expr_grows(st, e);
        },
        NodeM::ReturnStmt(e) => {
            lemma_expr_grows(st, e);
        },
        NodeM::Block(b) => {
            lemma_nodes_grows(st, b);
        },
        _ => {},
    }
}

/// The expression `a च b` over two boolean constants.
pub open spec fn and_of_bools(a: bool, b: bool) -> ExprM {
    ExprM::Binary {
        left: Box::new(ExprM::Literal(ValueM::Bool(a))),
        op: "च"@,
        right: Box::new(ExprM::Literal(ValueM::Bool(b))),
    }
}

/// The code of `a च b` compiled from the start.
pub open spec fn and_code(a: bool, b: bool) -> Seq<u8> {
    seq![OP_PUSH_CONST, TAG_BOOL, if a { 1u8 } else { 0u8 }, OP_DUP, OP_JUMP_IF_FALSE] + be32(13u32)
        + seq![OP_DROP, OP_PUSH_CONST, TAG_BOOL, if b { 1u8 } else { 0u8 }]
}

proof fn lemma_and_code(a: bool, b: bool)
    ensures
        expr_spec(initial_state(), and_of_bools(a, b)) == Step::Done(CState { code: and_code(a, b), ..initial_state() }),
{
    let ab: u8 = if a { 1u8 } else { 0u8 };
    let bb: u8 = if b { 1u8 } else { 0u8 };
    let st0 = initial_state();
    let s1 = emit(emit(st0, seq![OP_PUSH_CONST]), seq![TAG_BOOL, ab]);
    assert(expr_spec(st0, ExprM::Literal(ValueM::Bool(a))) == Step::Done(s1));
    assert(s1.code =~= seq![OP_PUSH_CONST, TAG_BOOL, ab]);
    let s2 = emit(s1, seq![OP_DUP, OP_JUMP_IF_FALSE] + zeros4() + seq![OP_DROP]);
    let s3 = emit(emit(s2, seq![OP_PUSH_CONST]), seq![TAG_BOOL, bb]);
    assert(expr_spec(s2, ExprM::Literal(ValueM::Bool(b))) == Step::Done(s3));
    assert(s3.code.len() == 13);
    let fin = patch(s3, 5, 13u32);
    assert(binary_spec(st0, and_of_bools(a, b)) == Step::Done(fin));
    assert(fin.code =~= and_code(a, b));
}

#[verifier::spinoff_prover]
#[verifier::rlimit(50)]
proof fn lemma_and_decode(a: bool, b: bool)
    ensures
        decode_at(and_code(a, b), 0) == Some((InstrM::PushBool(a), 3int)),
        decode_at(and_code(a, b), 3) == Some((InstrM::Dup, 4int)),
        decode_at(and_code(a, b), 4) == Some((InstrM::JumpIfFalse(13u32), 9int)),
        decode_at(and_code(a, b), 9) == Some((InstrM::Drop, 10int)),
        decode_at(and_code(a, b), 10) == Some((InstrM::PushBool(b), 13int)),
        and_code(a, b).len() == 13,
        and_code(a, b)[0] != OP_MAKE_STRUCT && and_code(a, b)[3] != OP_MAKE_STRUCT && and_code(a, b)[4] != OP_MAKE_STRUCT
            && and_code(a, b)[9] != OP_MAKE_STRUCT && and_code(a, b)[10] != OP_MAKE_STRUCT,
{
    let c = and_code(a, b);
    let ab: u8 = if a { 1u8 } else { 0u8 };
    let bb: u8 = if b { 1u8 } else { 0u8 };
    assert(decode_at(c, 0) == Some((InstrM::PushBool(a), 3int))) by {
        assert(c.subrange(0, 3) =~= seq![OP_PUSH_CONST, TAG_BOOL, ab]);
        law_decode_written(c, 0, 13u32, 0i64, a);
    }
    assert(decode_at(c, 4) == Some((InstrM::JumpIfFalse(13u32), 9int))) by {
        assert(c.subrange(4, 9) =~= seq![OP_JUMP_IF_FALSE] + be32(13u32));
        law_decode_written(c, 4, 13u32, 0i64, a);
    }
    assert(decode_at(c, 10) == Some((InstrM::PushBool(b), 13int))) by {
        assert(c.subrange(10, 13) =~= seq![OP_PUSH_CONST, TAG_BOOL, bb]);
        law_decode_written(c, 10, 13u32, 0i64, b);
    }
    assert(decode_at(c, 3) == Some((InstrM::Dup, 4int))) by {
        assert(c[3] == OP_DUP);
    }
    assert(decode_at(c, 9) == Some((InstrM::Drop, 10int))) by {
        assert(c[9] == OP_DROP);
    }
}

/// One step over an instruction that decodes: it is counted and executed.
proof fn lemma_step_decoded(m: VmM, c: Seq<u8>, pc: int, ins: InstrM, q: int)
    requires
        0 <= pc < c.len(),
        c[pc] != OP_MAKE_STRUCT,
        decode_at(c, pc) == Some((ins, q)),
        m.count < MAX_INSTRUCTIONS,
    ensures
        step_spec(m, c, pc) == exec_spec(VmM { count: (m.count + 1) as u64, ..m }, ins, q),
{
}

/// `च` short-circuits and leaves exactly one value: the code of `a च b`
/// over two boolean constants, run from its start, reaches its end with the
/// stack grown by the single value `a && b`, after three steps where `a` is
/// false (the right operand is skipped) and five where it is true.
#[verifier::spinoff_prover]
pub proof fn law_and_leaves_one_value(a: bool, b: bool, m: VmM)
    requires
        m.count + 5 <= MAX_INSTRUCTIONS,
    ensures
        expr_spec(initial_state(), and_of_bools(a, b)) matches Step::Done(s) && {
            let r = run_steps(m, s.code, 0, if a { 5nat } else { 3nat });
            &&& r.1 == StepM::Next(s.code.len() as int)
            &&& r.0.stack == m.stack.push(ValueM::Bool(a && b))
            &&& r.0.globals == m.globals
            &&& r.0.frames == m.frames
        },
{
    lemma_and_code(a, b);
    lemma_and_decode(a, b);
    let c = and_code(a, b);
    lemma_step_decoded(m, c, 0, InstrM::PushBool(a), 3);
    let r1 = step_spec(m, c, 0);
    assert(r1.1 == StepM::Next(3) && r1.0.stack == m.stack.push(ValueM::Bool(a)));
    lemma_step_decoded(r1.0, c, 3, InstrM::Dup, 4);
    let r2 = step_spec(r1.0, c, 3);
    assert(r2.1 == StepM::Next(4) && r2.0.stack == m.stack.push(ValueM::Bool(a)).push(ValueM::Bool(a)));
    lemma_step_decoded(r2.0, c, 4, InstrM::JumpIfFalse(13u32), 9);
    let r3 = step_spec(r2.0, c, 4);
    assert(r3.0.stack =~= m.stack.push(ValueM::Bool(a)));
    if a {
        assert(r3.1 == StepM::Next(9));
        lemma_step_decoded(r3.0, c, 9, InstrM::Drop, 10);
        let r4 = step_spec(r3.0, c, 9);
        assert(r4.1 == StepM::Next(10) && r4.0.stack =~= m.stack);
        lemma_step_decoded(r4.0, c, 10, InstrM::PushBool(b), 13);
        let r5 = step_spec(r4.0, c, 10);
        assert(r5.1 == StepM::Next(13) && r5.0.stack == m.stack.push(ValueM::Bool(b)));
        assert(run_steps(r4.0, c, 10, 1) == r5 ) by { reveal_with_fuel(run_steps, 2); }
        assert(run_steps(r3.0, c, 9, 2) == r5) by { reveal_with_fuel(run_steps, 2); }
        assert(run_steps(r2.0, c, 4, 3) == r5) by { reveal_with_fuel(run_steps, 2); }
        assert(run_steps(r1.0, c, 3, 4) == r5) by { reveal_with_fuel(run_steps, 2); }
        assert(run_steps(m, c, 0, 5) == r5) by { reveal_with_fuel(run_steps, 2); }
    } else {
        assert(r3.1 == StepM::Next(13));
        assert(run_steps(r3.0, c, 13, 0) == (r3.0, StepM::Next(13)));
        assert(run_steps(r2.0, c, 4, 1) == (r3.0, StepM::Next(13))) by { reveal_with_fuel(run_steps, 2); }
        assert(run_steps(r1.0, c, 3, 2) == (r3.0, StepM::Next(13))) by { reveal_with_fuel(run_steps, 2); }
        assert(run_steps(m, c, 0, 3) == (r3.0, StepM::Next(13))) by { reveal_with_fuel(run_steps, 2); }
    }
}

/// The expression `a वा b` over two boolean constants.
pub open spec fn or_of_bools(a: bool, b: bool) -> ExprM {
    ExprM::Binary {
        left: Box::new(ExprM::Literal(ValueM::Bool(a))),
        op: "वा"@,
        right: Box::new(ExprM::Literal(ValueM::Bool(b))),
    }
}

/// The code of `a वा b` compiled from the start.
pub open spec fn or_code(a: bool, b: bool) -> Seq<u8> {
    seq![OP_PUSH_CONST, TAG_BOOL, if a { 1u8 } else { 0u8 }, OP_DUP, OP_JUMP_IF_TRUE] + be32(13u32)
        + seq![OP_DROP, OP_PUSH_CONST, TAG_BOOL, if b { 1u8 } else { 0u8 }]
}

proof fn lemma_or_code(a: bool, b: bool)
    ensures
        expr_spec(initial_state(), or_of_bools(a, b)) == Step::Done(CState { code: or_code(a, b), ..initial_state() }),
{
    reveal_strlit("च");
    reveal_strlit("वा");
    assert("वा"@ != "च"@) by {
        assert("वा"@.len() != "च"@.len() || "वा"@[0] != "च"@[0]);
    }
    let ab: u8 = if a { 1u8 } else { 0u8 };
    let bb: u8 = if b { 1u8 } else { 0u8 };
    let st0 = initial_state();
    let s1 = emit(emit(st0, seq![OP_PUSH_CONST]), seq![TAG_BOOL, ab]);
    assert(expr_spec(st0, ExprM::Literal(ValueM::Bool(a))) == Step::Done(s1));
    assert(s1.code =~= seq![OP_PUSH_CONST, TAG_BOOL, ab]);
    let s2 = emit(s1, seq![OP_DUP, OP_JUMP_IF_TRUE] + zeros4() + seq![OP_DROP]);
    let s3 = emit(emit(s2, seq![OP_PUSH_CONST]), seq![TAG_BOOL, bb]);
    assert(expr_spec(s2, ExprM::Literal(ValueM::Bool(b))) == Step::Done(s3));
    assert(s3.code.len() == 13);
    let fin = patch(s3, 5, 13u32);
    assert(binary_spec(st0, or_of_bools(a, b)) == Step::Done(fin));
    assert(fin.code =~= or_code(a, b));
}

#[verifier::spinoff_prover]
#[verifier::rlimit(50)]
proof fn lemma_or_decode(a: bool, b: bool)
    ensures
        decode_at(or_code(a, b), 0) == Some((InstrM::PushBool(a), 3int)),
        decode_at(or_code(a, b), 3) == Some((InstrM::Dup, 4int)),
        decode_at(or_code(a, b), 4) == Some((InstrM::JumpIfTrue(13u32), 9int)),
        decode_at(or_code(a, b), 9) == Some((InstrM::Drop, 10int)),
        decode_at(or_code(a, b), 10) == Some((InstrM::PushBool(b), 13int)),
        or_code(a, b).len() == 13,
        or_code(a, b)[0] != OP_MAKE_STRUCT && or_code(a, b)[3] != OP_MAKE_STRUCT && or_code(a, b)[4] != OP_MAKE_STRUCT
            && or_code(a, b)[9] != OP_MAKE_STRUCT && or_code(a, b)[10] != OP_MAKE_STRUCT,
{
    let c = or_code(a, b);
    let ab: u8 = if a { 1u8 } else { 0u8 };
    let bb: u8 = if b { 1u8 } else { 0u8 };
    assert(decode_at(c, 0) == Some((InstrM::PushBool(a), 3int))) by {
        assert(c.subrange(0, 3) =~= seq![OP_PUSH_CONST, TAG_BOOL, ab]);
        law_decode_written(c, 0, 13u32, 0i64, a);
    }
    assert(decode_at(c, 4) == Some((InstrM::JumpIfTrue(13u32), 9int))) by {
        crate::bytecode::lemma_be32_roundtrip(13u32);
        assert(c[4] == OP_JUMP_IF_TRUE);
        assert(c[5] == be32(13u32)[0] && c[6] == be32(13u32)[1] && c[7] == be32(13u32)[2] && c[8] == be32(13u32)[3]);
        assert(crate::decoder::u32_at(c, 5) == 13u32);
    }
    assert(decode_at(c, 10) == Some((InstrM::PushBool(b), 13int))) by {
        assert(c.subrange(10, 13) =~= seq![OP_PUSH_CONST, TAG_BOOL, bb]);
        law_decode_written(c, 10, 13u32, 0i64, b);
    }
    assert(decode_at(c, 3) == Some((InstrM::Dup, 4int))) by {
        assert(c[3] == OP_DUP);
    }
    assert(decode_at(c, 9) == Some((InstrM::Drop, 10int))) by {
        assert(c[9] == OP_DROP);
    }
}


/// `वा` short-circuits and leaves exactly one value: the code of `a वा b`
/// over two boolean constants, run from its start, reaches its end with the
/// stack grown by the single value `a || b`, after three steps where `a` is
/// true (the right operand is skipped) and five where it is false.
#[verifier::spinoff_prover]
pub proof fn law_or_leaves_one_value(a: bool, b: bool, m: VmM)
    requires
        m.count + 5 <= MAX_INSTRUCTIONS,
    ensures
        expr_spec(initial_state(), or_of_bools(a, b)) matches Step::Done(s) && {
            let r = run_steps(m, s.code, 0, if a { 3nat } else { 5nat });
            &&& r.1 == StepM::Next(s.code.len() as int)
            &&& r.0.stack == m.stack.push(ValueM::Bool(a || b))
            &&& r.0.globals == m.globals
            &&& r.0.frames == m.frames
        },
{
    lemma_or_code(a, b);
    lemma_or_decode(a, b);
    let c = or_code(a, b);
    lemma_step_decoded(m, c, 0, InstrM::PushBool(a), 3);
    let r1 = step_spec(m, c, 0);
    assert(r1.1 == StepM::Next(3) && r1.0.stack == m.stack.push(ValueM::Bool(a)));
    lemma_step_decoded(r1.0, c, 3, InstrM::Dup, 4);
    let r2 = step_spec(r1.0, c, 3);
    assert(r2.1 == StepM::Next(4) && r2.0.stack == m.stack.push(ValueM::Bool(a)).push(ValueM::Bool(a)));
    lemma_step_decoded(r2.0, c, 4, InstrM::JumpIfTrue(13u32), 9);
    let r3 = step_spec(r2.0, c, 4);
    assert(r3.0.stack =~= m.stack.push(ValueM::Bool(a)));
    if !a {
        assert(r3.1 == StepM::Next(9));
        lemma_step_decoded(r3.0, c, 9, InstrM::Drop, 10);
        let r4 = step_spec(r3.0, c, 9);
        assert(r4.1 == StepM::Next(10) && r4.0.stack =~= m.stack);
        lemma_step_decoded(r4.0, c, 10, InstrM::PushBool(b), 13);
        let r5 = step_spec(r4.0, c, 10);
        assert(r5.1 == StepM::Next(13) && r5.0.stack == m.stack.push(ValueM::Bool(b)));
        assert(run_steps(r4.0, c, 10, 1) == r5 ) by { reveal_with_fuel(run_steps, 2); }
        assert(run_steps(r3.0, c, 9, 2) == r5) by { reveal_with_fuel(run_steps, 2); }
        assert(run_steps(r2.0, c, 4, 3) == r5) by { reveal_with_fuel(run_steps, 2); }
        assert(run_steps(r1.0, c, 3, 4) == r5) by { reveal_with_fuel(run_steps, 2); }
        assert(run_steps(m, c, 0, 5) == r5) by { reveal_with_fuel(run_steps, 2); }
    } else {
        assert(r3.1 == StepM::Next(13));
        assert(run_steps(r3.0, c, 13, 0) == (r3.0, StepM::Next(13)));
        assert(run_steps(r2.0, c, 4, 1) == (r3.0, StepM::Next(13))) by { reveal_with_fuel(run_steps, 2); }
        assert(run_steps(r1.0, c, 3, 2) == (r3.0, StepM::Next(13))) by { reveal_with_fuel(run_steps, 2); }
        assert(run_steps(m, c, 0, 3) == (r3.0, StepM::Next(13))) by { reveal_with_fuel(run_steps, 2); }
    }
}

pub proof fn lemma_nodes_grows(st: CState, ns: Seq<NodeM>)
    ensures
        nodes_spec(st, ns) matches Step::Done(s) ==> s.code.len() >= st.code.len() && (calls_within(st) ==> calls_within(s)),
    decreases ns, 0nat,
{
    if ns.len() > 0 {
        lemma_nodes_step(st, ns);
        lemma_node_grows(st, ns[0]);
        if let Step::Done(s1) = node_spec(st, ns[0]) {
            lemma_nodes_grows(s1, ns.drop_first());
        }
    }
}


/// One step of compiling a list of statements.
pub proof fn lemma_nodes_step(st: CState, ns: Seq<NodeM>)
    requires
        ns.len() > 0,
    ensures
        nodes_spec(st, ns) == (match node_spec(st, ns[0]) {
            Step::Done(s1) => nodes_spec(s1, ns.drop_first()),
            other => other,
        }),
{
    reveal(node_spec);
    reveal_with_fuel(nodes_spec, 2);
}

/// One arm compiled: the rest of the arms follow from its end.
pub proof fn lemma_arms_step(st: CState, arms: Seq<(Seq<char>, Seq<Seq<char>>, ExprM)>, s: CState)
    requires
        arms.len() > 0,
        arm_spec(st, arms[0]) == Step::Done(s),
    ensures
        arms_spec(st, arms) == arms_spec(s, arms.drop_first()),
        arm_ends(st, arms) == seq![s.code.len() - 4].add(arm_ends(s, arms.drop_first())),
{
}

/// An arm that fails makes the arms fail the same way.
pub proof fn lemma_arms_fail(st: CState, arms: Seq<(Seq<char>, Seq<Seq<char>>, ExprM)>)
    requires
        arms.len() > 0,
        !(arm_spec(st, arms[0]) is Done),
    ensures
        arms_spec(st, arms) == arm_spec(st, arms[0]),
{
}

/// The result of a compiling call agrees with the outcome of its model.
pub open spec fn step_agrees(step: Step, after: CState, r: Result<(), CompileError>) -> bool {
    match step {
        Step::Done(s) => r is Ok && after == s,
        Step::Fail(e) => r matches Err(x) && x@ == e,
        Step::Abort => false,
    }
}

pub open spec fn calls_m(s: Seq<(usize, String)>) -> Seq<(int, Seq<char>)> {
    s.map_values(|c: (usize, String)| (c.0 as int, c.1@))
}

/// The bytecode compiler: it appends code for statements and expressions and
/// records the call sites that `link_unresolved_references` patches.
pub struct BytecodeCompiler {
    bytecode: Vec<u8>,
    pub function_table: NameMap<u32>,
    pub unresolved_calls: Vec<(usize, String)>,
    pub current_module: Option<String>,
    pub struct_registry: NameMap<Vec<String>>,
    pub foreign_table: NameMap<(String, String, usize)>,
}

impl View for BytecodeCompiler {
    type V = CState;

    closed spec fn view(&self) -> CState {
        CState {
            code: self.bytecode@,
            functions: self.function_table@,
            calls: calls_m(self.unresolved_calls@),
            module: match self.current_module { Some(m) => Some(m@), None => None },
            structs: Map::new(|k: Seq<char>| self.struct_registry@.dom().contains(k), |k: Seq<char>| strs_m(self.struct_registry@[k]@)),
            foreign: Map::new(
                |k: Seq<char>| self.foreign_table@.dom().contains(k),
                |k: Seq<char>| (self.foreign_table@[k].0@, self.foreign_table@[k].1@, self.foreign_table@[k].2),
            ),
        }
    }
}

/// The state of a fresh compiler.
pub open spec fn initial_state() -> CState {
    CState {
        code: Seq::empty(),
        functions: Map::empty(),
        calls: Seq::empty(),
        module: None,
        structs: Map::empty(),
        foreign: Map::empty(),
    }
}

impl BytecodeCompiler {
    pub fn new() -> (r: Self)
        ensures
            r@ == initial_state(),
    {
        let r = BytecodeCompiler {
            bytecode: Vec::new(),
            function_table: NameMap::new(),
            unresolved_calls: Vec::new(),
            current_module: None,
            struct_registry: NameMap::new(),
            foreign_table: NameMap::new(),
        };
        proof {
            assert(calls_m(r.unresolved_calls@) =~= Seq::<(int, Seq<char>)>::empty());
            assert(r@.structs =~= Map::<Seq<char>, Seq<Seq<char>>>::empty());
            assert(r@.foreign =~= Map::<Seq<char>, (Seq<char>, Seq<char>, usize)>::empty());
        }
        r
    }

    /// A copy of the code generated so far.
    pub fn get_bytecode(&self) -> (r: Vec<u8>)
        ensures
            r@ == self@.code,
    {
        let mut r: Vec<u8> = Vec::new();
        let mut i: usize = 0;
        while i < self.bytecode.len()
            invariant
                i <= self.bytecode@.len(),
                r@ == self.bytecode@.subrange(0, i as int),
            decreases self.bytecode@.len() - i,
        {
            r.push(self.bytecode[i]);
            i = i + 1;
            assert(r@ =~= self.bytecode@.subrange(0, i as int));
        }
        assert(r@ =~= self.bytecode@);
        r
    }

    fn emit_u8(&mut self, val: u8)
        ensures
            final(self)@ == emit(old(self)@, seq![val]),
    {
        self.bytecode.push(val);
        assert(self@.code =~= old(self)@.code + seq![val]);
        assert(self@ =~= emit(old(self)@, seq![val]));
    }

    fn emit_bytes(&mut self, b: &[u8])
        ensures
            final(self)@ == emit(old(self)@, b@),
    {
        let mut i: usize = 0;
        while i < b.len()
            invariant
                i <= b@.len(),
                self@ == emit(old(self)@, b@.subrange(0, i as int)),
            decreases b@.len() - i,
        {
            self.bytecode.push(b[i]);
            i = i + 1;
            assert(self@.code =~= old(self)@.code + b@.subrange(0, i as int));
            assert(self@ =~= emit(old(self)@, b@.subrange(0, i as int)));
        }
        assert(b@.subrange(0, b@.len() as int) =~= b@);
    }

    fn emit_u16(&mut self, val: u16)
        ensures
            final(self)@ == emit(old(self)@, be16(val)),
    {
        let b = u16_bytes(val);
        self.emit_bytes(&b);
    }

    fn emit_string(&mut self, s: &str)
        requires
            str_fits(s@),
        ensures
            final(self)@ == emit(old(self)@, str_code(s@)),
    {
        let bytes = s.as_bytes();
        assert(bytes@ == utf8_bytes(s@));
        self.emit_u16(bytes.len() as u16);
        self.emit_bytes(bytes);
        assert(self@.code =~= old(self)@.code + str_code(s@));
    }

    fn emit_u32_placeholder(&mut self) -> (idx: usize)
        ensures
            idx == old(self)@.code.len(),
            final(self)@ == emit(old(self)@, zeros4()),
    {
        let idx = self.bytecode.len();
        self.emit_bytes(&[0u8, 0u8, 0u8, 0u8]);
        assert(zeros4() =~= seq![0u8, 0u8, 0u8, 0u8]);
        idx
    }

    fn emit_u32_at(&mut self, idx: usize, val: u32)
        requires
            idx + 4 <= old(self)@.code.len(),
        ensures
            final(self)@ == patch(old(self)@, idx as int, val),
    {
        let b = u32_bytes(val);
        assert(self.bytecode@.len() == self.bytecode.len());
        self.bytecode.set(idx, b[0]);
        self.bytecode.set(idx + 1, b[1]);
        self.bytecode.set(idx + 2, b[2]);
        self.bytecode.set(idx + 3, b[3]);
        assert(self@.code =~= patch(old(self)@, idx as int, val).code);
        assert(self@ =~= patch(old(self)@, idx as int, val));
    }

    fn emit_u64(&mut self, v: u64)
        ensures
            final(self)@ == emit(old(self)@, be64(v)),
    {
        let b = u64_bytes(v);
        self.emit_bytes(&b);
    }

    /// Compiles a constant of a literal expression.
    #[verifier::spinoff_prover]
    #[verifier::rlimit(40)]
    fn compile_literal(&mut self, val: &Value) -> (r: Result<(), CompileError>)
        requires
            !(literal_spec(old(self)@, val@) is Abort),
        ensures
            step_agrees(literal_spec(old(self)@, val@), final(self)@, r),
    {
        let ghost st = self@;
        self.emit_u8(OP_PUSH_CONST);
        let ghost s1 = self@;
        match val {
            Value::Int(n) => {
                self.emit_u8(TAG_INT);
                self.emit_u64(*n as u64);
                assert(self@.code =~= s1.code + (seq![TAG_INT] + be64(*n as u64)));
            },
            Value::Bool(b) => {
                self.emit_u8(TAG_BOOL);
                self.emit_u8(if *b { 1u8 } else { 0u8 });
                assert(self@.code =~= s1.code + seq![TAG_BOOL, if *b { 1u8 } else { 0u8 }]);
            },
            Value::Str(text) => {
                self.emit_u8(TAG_STR);
                self.emit_string(text.as_str());
            },
            Value::Float(bits) => {
                self.emit_u8(TAG_FLOAT);
                self.emit_u64(*bits);
                assert(self@.code =~= s1.code + (seq![TAG_FLOAT] + be64(*bits)));
            },
            Value::Enum(name, _) => {
                self.emit_u8(TAG_ENUM);
                self.emit_string(name.as_str());
            },
            Value::Struct(fields) => {
                self.emit_u8(TAG_STRUCT);
                self.emit_u8((fields.len() % 256) as u8);
                let ghost fm = fields_m(fields@);
                proof {
                    lemma_fields_m(fields@);
                    assert(self@.code =~= s1.code + seq![TAG_STRUCT, (fields.len() % 256) as u8]);
                    assert(fm.subrange(0, fm.len() as int) =~= fm);
                }
                let ghost s2 = self@;
                let mut i: usize = 0;
                while i < fields.len()
                    invariant
                        i <= fields@.len(),
                        fm == fields_m(fields@),
                        fm.len() == fields@.len(),
                        forall|j: int| 0 <= j < fields@.len() ==> #[trigger] fm[j] == (fields@[j].0@, value_m(fields@[j].1)),
                        fields_spec(s2, fm) == fields_spec(self@, fm.subrange(i as int, fm.len() as int)),
                        !(fields_spec(s2, fm) is Abort),
                    decreases fields@.len() - i,
                {
                    let ghost cur = self@;
                    let ghost rest = fm.subrange(i as int, fm.len() as int);
                    assert(rest[0] == fm[i as int]);
                    assert(rest.drop_first() =~= fm.subrange(i + 1, fm.len() as int));
                    self.emit_string(fields[i].0.as_str());
                    let ghost c1 = self@;
                    self.emit_u8(OP_PUSH_CONST);
                    match &fields[i].1 {
                        Value::Int(n) => {
                            self.emit_u8(TAG_INT);
                            self.emit_u64(*n as u64);
                        },
                        Value::Bool(b) => {
                            self.emit_u8(TAG_BOOL);
                            self.emit_u8(if *b { 1u8 } else { 0u8 });
                        },
                        Value::Str(text) => {
                            self.emit_u8(TAG_STR);
                            self.emit_string(text.as_str());
                        },
                        Value::Float(bits) => {
                            self.emit_u8(TAG_FLOAT);
                            self.emit_u64(*bits);
                        },
                        _ => {
                            self.emit_u8(TAG_INT);
                            self.emit_u64(0u64);
                        },
                    }
                    proof {
                        let b = field_const_code(fm[i as int].1)->0;
                        assert(self@.code =~= c1.code + (seq![OP_PUSH_CONST] + b));
                        assert(self@ == emit(c1, seq![OP_PUSH_CONST] + b));
                    }
                    i = i + 1;
                }
                assert(fm.subrange(i as int, fm.len() as int) =~= Seq::<(Seq<char>, ValueM)>::empty());
            },
            _ => {},
        }
        Ok(())
    }

    /// Compiles argument expressions in order.
    fn compile_args(&mut self, args: &Vec<Expression>) -> (r: Result<(), CompileError>)
        requires
            !(args_spec(old(self)@, exprs_m(args@)) is Abort),
        ensures
            step_agrees(args_spec(old(self)@, exprs_m(args@)), final(self)@, r),
        decreases args, 1nat,
    {
        let ghost am = exprs_m(args@);
        let ghost st = self@;
        proof {
            lemma_exprs_m(args@);
            assert(am.subrange(0, am.len() as int) =~= am);
        }
        let mut i: usize = 0;
        while i < args.len()
            invariant
                i <= args@.len(),
                am == exprs_m(args@),
                am.len() == args@.len(),
                forall|j: int| 0 <= j < args@.len() ==> #[trigger] am[j] == expr_m(args@[j]),
                st == old(self)@,
                args_spec(st, am) == args_spec(self@, am.subrange(i as int, am.len() as int)),
                !(args_spec(st, am) is Abort),
            decreases args@.len() - i,
        {
            let ghost cur = self@;
            let ghost rest = am.subrange(i as int, am.len() as int);
            assert(rest[0] == am[i as int]);
            assert(rest.drop_first() =~= am.subrange(i + 1, am.len() as int));
            assert(decreases_to!(*args => args@));
            assert(decreases_to!(args@ => args@[i as int]));
            let res = self.compile_expr_ref(&args[i]);
            assert(args@[i as int]@ == rest[0]);
            match res {
                Ok(()) => {},
                Err(x) => {
                    assert(expr_spec(cur, rest[0]) is Fail);
                    assert(args_spec(cur, rest) == expr_spec(cur, rest[0]));
                    return Err(x);
                },
            }
            i = i + 1;
        }
        assert(am.subrange(i as int, am.len() as int) =~= Seq::<ExprM>::empty());
        Ok(())
    }

    /// Writes the bound names of a match arm.
    fn compile_binds(&mut self, binds: &Vec<String>)
        requires
            !(binds_spec(old(self)@, strs_m(binds@)) is Abort),
        ensures
            binds_spec(old(self)@, strs_m(binds@)) == Step::Done(final(self)@),
    {
        let ghost bm = strs_m(binds@);
        let ghost s2 = self@;
        assert(bm.subrange(0, bm.len() as int) =~= bm);
        let mut i: usize = 0;
        while i < binds.len()
            invariant
                i <= binds@.len(),
                bm == strs_m(binds@),
                bm.len() == binds@.len(),
                binds_spec(s2, bm) == binds_spec(self@, bm.subrange(i as int, bm.len() as int)),
                !(binds_spec(s2, bm) is Abort),
            decreases binds@.len() - i,
        {
            let ghost rest = bm.subrange(i as int, bm.len() as int);
            assert(rest[0] == binds@[i as int]@);
            assert(rest.drop_first() =~= bm.subrange(i + 1, bm.len() as int));
            let ghost c0 = self@;
            self.emit_u8(OP_DUP);
            self.emit_u8(OP_STORE_VAR);
            assert(self@ == emit(c0, seq![OP_DUP, OP_STORE_VAR])) by {
                assert(self@.code =~= c0.code + seq![OP_DUP, OP_STORE_VAR]);
            }
            self.emit_string(binds[i].as_str());
            i = i + 1;
        }
        assert(bm.subrange(i as int, bm.len() as int) =~= Seq::<Seq<char>>::empty());
    }

    /// The test of a match arm; returns where its next-arm jump is written.
    fn compile_arm_head(&mut self, pattern: &String, binds: &Vec<String>) -> (next: usize)
        requires
            !(arm_head_spec(old(self)@, pattern@, strs_m(binds@)) is Abort),
        ensures
            arm_head_spec(old(self)@, pattern@, strs_m(binds@)) == Step::Done(final(self)@),
            next == arm_next(old(self)@, pattern@),
    {
        let ghost st = self@;
        self.emit_u8(OP_DUP);
        self.emit_u8(OP_GET_VARIANT);
        self.emit_u8(OP_PUSH_CONST);
        self.emit_u8(TAG_STR);
        assert(self@ == emit(st, seq![OP_DUP, OP_GET_VARIANT, OP_PUSH_CONST, TAG_STR])) by {
            assert(self@.code =~= st.code + seq![OP_DUP, OP_GET_VARIANT, OP_PUSH_CONST, TAG_STR]);
        }
        self.emit_string(pattern.as_str());
        let ghost s1 = self@;
        self.emit_u8(OP_EQUAL);
        self.emit_u8(OP_JUMP_IF_FALSE);
        let next = self.emit_u32_placeholder();
        self.emit_u8(OP_EXTRACT);
        assert(self@ == emit(s1, seq![OP_EQUAL, OP_JUMP_IF_FALSE] + zeros4() + seq![OP_EXTRACT])) by {
            assert(self@.code =~= s1.code + (seq![OP_EQUAL, OP_JUMP_IF_FALSE] + zeros4() + seq![OP_EXTRACT]));
        }
        self.compile_binds(binds);
        self.emit_u8(OP_DROP);
        next
    }

    /// Compiles one arm of a match expression and returns where its end jump
    /// address is to be written.
    #[verifier::spinoff_prover]
    #[verifier::rlimit(60)]
    fn compile_arm(&mut self, arm: &(String, Vec<String>, Expression)) -> (r: Result<usize, CompileError>)
        requires
            !(arm_spec(old(self)@, (arm.0@, strs_m(arm.1@), expr_m(arm.2))) is Abort),
        ensures
            match arm_spec(old(self)@, (arm.0@, strs_m(arm.1@), expr_m(arm.2))) {
                Step::Done(s) => r matches Ok(idx) && final(self)@ == s && idx == s.code.len() - 4,
                Step::Fail(e) => r matches Err(x) && x@ == e,
                Step::Abort => false,
            },
        decreases arm, 1nat,
    {
        let ghost st = self@;
        let ghost am = (arm.0@, strs_m(arm.1@), expr_m(arm.2));
        proof {
            lemma_arm_head(st, arm.0@, strs_m(arm.1@));
        }
        let next = self.compile_arm_head(&arm.0, &arm.1);
        let ghost s5 = self@;
        assert(arm_head_spec(st, am.0, am.1) == Step::Done(s5));
        assert(decreases_to!(*arm => arm.2));
        let res = self.compile_expr_ref(&arm.2);
        match res {
            Ok(()) => {},
            Err(x) => {
                assert(arm_spec(st, am) == expr_spec(s5, am.2));
                return Err(x);
            },
        }
        let ghost s6 = self@;
        assert(expr_spec(s5, am.2) == Step::Done(s6));
        proof {
            lemma_expr_grows(s5, am.2);
        }
        self.emit_u8(OP_JUMP);
        let end_ph = self.emit_u32_placeholder();
        let ghost s7 = self@;
        assert(s7 == emit(s6, seq![OP_JUMP] + zeros4())) by {
            assert(s7.code =~= s6.code + (seq![OP_JUMP] + zeros4()));
        }
        let next_pc = self.bytecode.len() as u32;
        self.emit_u32_at(next, next_pc);
        assert(self@ == patch(s7, arm_next(st, am.0), here(s7)));
        assert(arm_spec(st, am) == Step::Done(self@));
        Ok(end_ph)
    }

    /// Compiles the arms of a match in order; returns where their end jumps
    /// are to be written.
    #[verifier::spinoff_prover]
    #[verifier::rlimit(40)]
    fn compile_arms(&mut self, e: &Expression) -> (r: Result<Vec<usize>, CompileError>)
        requires
            e is MatchExpr,
            !(arms_spec(old(self)@, arms_m(e->arms@)) is Abort),
        ensures
            match arms_spec(old(self)@, arms_m(e->arms@)) {
                Step::Done(s) => r matches Ok(ends) && final(self)@ == s
                    && ends@.map_values(|x: usize| x as int) == arm_ends(old(self)@, arms_m(e->arms@))
                    && (forall|j: int| 0 <= j < ends@.len() ==> #[trigger] ends@[j] + 4 <= s.code.len()),
                Step::Fail(err) => r matches Err(x) && x@ == err,
                Step::Abort => false,
            },
        decreases e, 0nat,
    {
        let arms = match e {
            Expression::MatchExpr { arms, .. } => arms,
            _ => {
                return Ok(Vec::new());
            },
        };
        let ghost s1 = self@;
        let ghost am = arms_m(arms@);
        proof {
            lemma_arms_m(arms@);
            assert(am.subrange(0, am.len() as int) =~= am);
            lemma_arms_grows(s1, am);
        }
        let mut ends: Vec<usize> = Vec::new();
        let mut i: usize = 0;
        while i < arms.len()
            invariant
                i <= arms@.len(),
                e is MatchExpr,
                e->arms == *arms,
                am == arms_m(arms@),
                am.len() == arms@.len(),
                forall|j: int| 0 <= j < arms@.len() ==> #[trigger] am[j] == (arms@[j].0@, strs_m(arms@[j].1@), expr_m(arms@[j].2)),
                s1 == old(self)@,
                arms_spec(s1, am) == arms_spec(self@, am.subrange(i as int, am.len() as int)),
                !(arms_spec(s1, am) is Abort),
                arm_ends(s1, am) == ends@.map_values(|x: usize| x as int) + arm_ends(self@, am.subrange(i as int, am.len() as int)),
                forall|j: int| 0 <= j < ends@.len() ==> #[trigger] ends@[j] + 4 <= self@.code.len(),
            decreases arms@.len() - i,
        {
            let ghost cur = self@;
            let ghost rest = am.subrange(i as int, am.len() as int);
            assert(rest[0] == am[i as int]);
            assert(rest.drop_first() =~= am.subrange(i + 1, am.len() as int));
            assert(decreases_to!(*e => e->arms));
            assert(decreases_to!(e->arms => e->arms@));
            assert(decreases_to!(e->arms@ => e->arms@[i as int]));
            let res = self.compile_arm(&arms[i]);
            let end_ph = match res {
                Ok(p) => p,
                Err(x) => {
                    proof {
                        lemma_arms_fail(cur, rest);
                    }
                    return Err(x);
                },
            };
            proof {
                lemma_arm_grows(cur, am[i as int]);
                lemma_arms_step(cur, rest, self@);
                let prev = ends@.map_values(|x: usize| x as int);
                assert(ends@.push(end_ph).map_values(|x: usize| x as int) =~= prev.push(end_ph as int));
                assert(prev.push(end_ph as int) + arm_ends(self@, am.subrange(i + 1, am.len() as int))
                    =~= prev + (seq![end_ph as int].add(arm_ends(self@, am.subrange(i + 1, am.len() as int)))));
            }
            ends.push(end_ph);
            i = i + 1;
        }
        proof {
            assert(am.subrange(i as int, am.len() as int) =~= Seq::<(Seq<char>, Seq<Seq<char>>, ExprM)>::empty());
            assert(ends@.map_values(|x: usize| x as int) + Seq::<int>::empty() =~= ends@.map_values(|x: usize| x as int));
        }
        Ok(ends)
    }

    /// Appends the code of an expression.  Calls to functions that are neither
    /// built-in nor foreign are recorded for linking.
    pub fn compile_expr(&mut self, expr: Expression) -> (r: Result<(), CompileError>)
        requires
            !(expr_spec(old(self)@, expr@) is Abort),
        ensures
            step_agrees(expr_spec(old(self)@, expr@), final(self)@, r),
    {
        self.compile_expr_ref(&expr)
    }

    fn compile_expr_ref(&mut self, expr: &Expression) -> (r: Result<(), CompileError>)
        requires
            !(expr_spec(old(self)@, expr@) is Abort),
        ensures
            step_agrees(expr_spec(old(self)@, expr@), final(self)@, r),
        decreases expr, 2nat,
    {
        let ghost st = self@;
        match expr {
            Expression::Literal(val) => {
                self.compile_literal(val)
            },
            Expression::IntLiteral(n) => {
                self.emit_u8(OP_PUSH_CONST);
                self.emit_u8(TAG_INT);
                self.emit_u64(*n as u64);
                assert(self@.code =~= st.code + (seq![OP_PUSH_CONST, TAG_INT] + be64(*n as u64)));
                Ok(())
            },
            Expression::Variable(name) => {
                self.emit_u8(OP_LOAD_VAR);
                self.emit_string(name.as_str());
                Ok(())
            },
            Expression::Binary { .. } => {
                self.compile_binary(expr)
            },
            Expression::MatchExpr { .. } => {
                self.compile_match(expr)
            },
            Expression::FieldAccess { object, field } => {
                match self.compile_expr_ref(&**object) {
                    Ok(()) => {},
                    Err(x) => {
                        return Err(x);
                    },
                }
                self.emit_u8(OP_GET_FIELD);
                self.emit_string(field.as_str());
                Ok(())
            },
            Expression::MethodCall { instance, method_name, args } => {
                match self.compile_expr_ref(&**instance) {
                    Ok(()) => {},
                    Err(x) => {
                        return Err(x);
                    },
                }
                match self.compile_args(args) {
                    Ok(()) => {},
                    Err(x) => {
                        return Err(x);
                    },
                }
                let ghost s2 = self@;
                self.emit_u8(OP_CALL);
                let ph = self.emit_u32_placeholder();
                self.push_call(ph, method_name.clone());
                proof {
                    assert(self@ == call_site(s2, method_name@)) by {
                        assert(self@.code =~= call_site(s2, method_name@).code);
                    }
                }
                Ok(())
            },
            Expression::Call { .. } => {
                self.compile_call(expr)
            },
            Expression::GenericCall { name, .. } => {
                let mut m = owned("generic call '");
                push_str(&mut m, name.as_str());
                push_str(&mut m, "' reached bytecode generation before monomorphization");
                Err(CompileError::UnsupportedOp(m))
            },
            Expression::BorrowExpr { target, .. } => {
                let mut m = owned("borrow expression for '");
                push_str(&mut m, target.as_str());
                push_str(&mut m, "' is not executable yet");
                Err(CompileError::UnsupportedOp(m))
            },
            Expression::AwaitExpr { .. } => {
                Err(CompileError::UnsupportedOp(owned("await expressions are not executable yet")))
            },
        }
    }

    /// The single-instruction operators.
    fn arith_opcode(op: &str) -> (r: Option<u8>)
        ensures
            r == binary_opcode(op@),
    {
        proof {
            reveal_strlit("+");
            reveal_strlit("-");
            reveal_strlit("*");
            reveal_strlit("/");
            reveal_strlit("==");
            reveal_strlit("!=");
            reveal_strlit("<");
            reveal_strlit(">");
            reveal_strlit("<=");
            reveal_strlit(">=");
        }
        if str_eq(op, "+") {
            Some(OP_ADD)
        } else if str_eq(op, "-") {
            Some(OP_SUB)
        } else if str_eq(op, "*") {
            Some(OP_MUL)
        } else if str_eq(op, "/") {
            Some(OP_DIV)
        } else if str_eq(op, "==") {
            Some(OP_EQUAL)
        } else if str_eq(op, "!=") {
            Some(OP_NOT_EQUAL)
        } else if str_eq(op, "<") {
            Some(OP_LESS_THAN)
        } else if str_eq(op, ">") {
            Some(OP_GREATER_THAN)
        } else if str_eq(op, "<=") {
            Some(OP_LESS_EQUAL)
        } else if str_eq(op, ">=") {
            Some(OP_GREATER_EQUAL)
        } else {
            None
        }
    }

    fn compile_binary(&mut self, e: &Expression) -> (r: Result<(), CompileError>)
        requires
            e is Binary,
            !(binary_spec(old(self)@, e@) is Abort),
        ensures
            step_agrees(binary_spec(old(self)@, e@), final(self)@, r),
        decreases e, 1nat,
    {
        let ghost st = self@;
        match e {
            Expression::Binary { left, op, right } => {
                let is_and = str_eq(op.as_str(), "च");
                let is_or = str_eq(op.as_str(), "वा");
                match self.compile_expr_ref(&**left) {
                    Ok(()) => {},
                    Err(x) => {
                        return Err(x);
                    },
                }
                let ghost s1 = self@;
                if is_and {
                    self.emit_u8(OP_DUP);
                    self.emit_u8(OP_JUMP_IF_FALSE);
                    let ph = self.emit_u32_placeholder();
                    self.emit_u8(OP_DROP);
                    assert(self@ == emit(s1, seq![OP_DUP, OP_JUMP_IF_FALSE] + zeros4() + seq![OP_DROP])) by {
                        assert(self@.code =~= s1.code + (seq![OP_DUP, OP_JUMP_IF_FALSE] + zeros4() + seq![OP_DROP]));
                    }
                    let ghost s2 = self@;
                    match self.compile_expr_ref(&**right) {
                        Ok(()) => {},
                        Err(x) => {
                            return Err(x);
                        },
                    }
                    proof {
                        lemma_expr_grows(s2, expr_m(**right));
                    }
                    let end_pc = self.bytecode.len() as u32;
                    self.emit_u32_at(ph, end_pc);
                    Ok(())
                } else if is_or {
                    self.emit_u8(OP_DUP);
                    self.emit_u8(OP_JUMP_IF_TRUE);
                    let ph = self.emit_u32_placeholder();
                    self.emit_u8(OP_DROP);
                    assert(self@ == emit(s1, seq![OP_DUP, OP_JUMP_IF_TRUE] + zeros4() + seq![OP_DROP])) by {
                        assert(self@.code =~= s1.code + (seq![OP_DUP, OP_JUMP_IF_TRUE] + zeros4() + seq![OP_DROP]));
                    }
                    let ghost s2 = self@;
                    match self.compile_expr_ref(&**right) {
                        Ok(()) => {},
                        Err(x) => {
                            return Err(x);
                        },
                    }
                    proof {
                        lemma_expr_grows(s2, expr_m(**right));
                    }
                    let join_pc = self.bytecode.len() as u32;
                    self.emit_u32_at(ph, join_pc);
                    Ok(())
                } else {
                    match self.compile_expr_ref(&**right) {
                        Ok(()) => {},
                        Err(x) => {
                            return Err(x);
                        },
                    }
                    match Self::arith_opcode(op.as_str()) {
                        Some(code) => {
                            self.emit_u8(code);
                            Ok(())
                        },
                        None => Err(CompileError::UnsupportedOp(op.clone())),
                    }
                }
            },
            _ => Ok(()),
        }
    }

    #[verifier::rlimit(30)]
    fn compile_match(&mut self, e: &Expression) -> (r: Result<(), CompileError>)
        requires
            e is MatchExpr,
            !(match_spec(old(self)@, e@) is Abort),
        ensures
            step_agrees(match_spec(old(self)@, e@), final(self)@, r),
        decreases e, 1nat,
    {
        let ghost st = self@;
        let eval_target = match e {
            Expression::MatchExpr { eval_target, .. } => eval_target,
            _ => {
                return Ok(());
            },
        };
        let ghost am = arms_m(e->arms@);
        assert(e@ == (ExprM::MatchExpr { eval_target: Box::new(expr_m(**eval_target)), arms: am }));
        let res = self.compile_expr_ref(&**eval_target);
        match res {
            Ok(()) => {},
            Err(x) => {
                return Err(x);
            },
        }
        let ghost s1 = self@;
        assert(expr_spec(st, expr_m(**eval_target)) == Step::Done(s1));
        let ends = match self.compile_arms(e) {
            Ok(v) => v,
            Err(x) => {
                return Err(x);
            },
        };
        let ghost s2 = self@;
        proof {
            lemma_arms_grows(s1, am);
        }
        self.emit_u8(OP_DROP);
        self.emit_u8(OP_PUSH_CONST);
        self.emit_u8(TAG_INT);
        self.emit_u64(0u64);
        let ghost s3 = self@;
        assert(s3 == emit(s2, seq![OP_DROP, OP_PUSH_CONST, TAG_INT] + be64(0u64))) by {
            assert(s3.code =~= s2.code + (seq![OP_DROP, OP_PUSH_CONST, TAG_INT] + be64(0u64)));
        }
        let ghost idxs = arm_ends(s1, am);
        let end_pc = self.bytecode.len() as u32;
        assert(idxs.subrange(0, idxs.len() as int) =~= idxs);
        let mut j: usize = 0;
        while j < ends.len()
            invariant
                j <= ends@.len(),
                idxs == ends@.map_values(|x: usize| x as int),
                forall|k: int| 0 <= k < ends@.len() ==> #[trigger] ends@[k] + 4 <= self@.code.len(),
                self@.code.len() == s3.code.len(),
                end_pc == here(s3),
                patch_all(s3, idxs, end_pc) == patch_all(self@, idxs.subrange(j as int, idxs.len() as int), end_pc),
            decreases ends@.len() - j,
        {
            let ghost rest = idxs.subrange(j as int, idxs.len() as int);
            assert(rest[0] == ends@[j as int] as int);
            assert(rest.drop_first() =~= idxs.subrange(j + 1, idxs.len() as int));
            self.emit_u32_at(ends[j], end_pc);
            j = j + 1;
        }
        assert(idxs.subrange(j as int, idxs.len() as int) =~= Seq::<int>::empty());
        Ok(())
    }

    fn compile_call(&mut self, e: &Expression) -> (r: Result<(), CompileError>)
        requires
            e is Call,
            !(call_spec(old(self)@, e@) is Abort),
        ensures
            step_agrees(call_spec(old(self)@, e@), final(self)@, r),
        decreases e, 1nat,
    {
        match e {
            Expression::Call { name, args } => {
                proof {
                    lemma_exprs_m(args@);
                }
                match self.compile_args(args) {
                    Ok(()) => {},
                    Err(x) => {
                        return Err(x);
                    },
                }
                self.compile_call_tail(name, args.len());
                Ok(())
            },
            _ => Ok(()),
        }
    }

    fn compile_call_tail(&mut self, name: &String, nargs: usize)
        requires
            !(call_tail(old(self)@, name@, nargs as nat) is Abort),
        ensures
            call_tail(old(self)@, name@, nargs as nat) == Step::Done(final(self)@),
    {
        let ghost s1 = self@;
        let n = (nargs % 256) as u8;
        if is_builtin(name.as_str()) {
            self.emit_u8(OP_CALL_BUILTIN);
            self.emit_string(name.as_str());
            self.emit_u8(n);
        } else if self.foreign_table.contains_key(name.as_str()) {
            assert(s1.foreign.dom().contains(name@));
            let (lib, sym) = match self.foreign_table.get(name.as_str()) {
                Some(f) => (f.0.clone(), f.1.clone()),
                None => {
                    return;
                },
            };
            assert(lib@ == s1.foreign[name@].0 && sym@ == s1.foreign[name@].1);
            self.emit_u8(OP_CALL_FOREIGN);
            self.emit_string(lib.as_str());
            self.emit_string(sym.as_str());
            self.emit_u8(n);
        } else {
            self.emit_u8(OP_CALL);
            let ph = self.emit_u32_placeholder();
            self.push_call(ph, name.clone());
            assert(self@ == call_site(s1, name@)) by {
                assert(self@.code =~= call_site(s1, name@).code);
            }
        }
    }

    fn push_call(&mut self, idx: usize, name: String)
        ensures
            final(self)@ == (CState { calls: old(self)@.calls.push((idx as int, name@)), ..old(self)@ }),
    {
        self.unresolved_calls.push((idx, name));
        assert(calls_m(self.unresolved_calls@) =~= old(self)@.calls.push((idx as int, name@)));
    }
}

/// Linking: each recorded call site of a function that is not built in gets
/// the function's entry address; the first unknown name is the error.
pub open spec fn link_spec(code: Seq<u8>, functions: Map<Seq<char>, u32>, calls: Seq<(int, Seq<char>)>) -> Result<Seq<u8>, Seq<char>>
    decreases calls.len(),
{
    if calls.len() == 0 {
        Ok(code)
    } else if spec_is_builtin(calls[0].1) {
        link_spec(code, functions, calls.drop_first())
    } else if functions.dom().contains(calls[0].1) {
        link_spec(patch_code(code, calls[0].0, functions[calls[0].1]), functions, calls.drop_first())
    } else {
        Err(calls[0].1)
    }
}

impl BytecodeCompiler {
    /// The name of a declaration as seen from outside the current module.
    fn qualify(&self, name: &String) -> (r: String)
        ensures
            r@ == qualified(self@.module, name@),
    {
        match &self.current_module {
            Some(m) => {
                let mut r = m.clone();
                push_str(&mut r, "::");
                push_str(&mut r, name.as_str());
                proof {
                    reveal_strlit("::");
                }
                r
            },
            None => name.clone(),
        }
    }

    fn compile_params(&mut self, params: &Vec<(String, String)>)
        requires
            !(params_spec(old(self)@, pairs_m(params@)) is Abort),
        ensures
            params_spec(old(self)@, pairs_m(params@)) == Step::Done(final(self)@),
    {
        let ghost pm = pairs_m(params@);
        let ghost s0 = self@;
        assert(pm.subrange(0, pm.len() as int) =~= pm);
        let mut i: usize = 0;
        while i < params.len()
            invariant
                i <= params@.len(),
                pm == pairs_m(params@),
                pm.len() == params@.len(),
                params_spec(s0, pm) == params_spec(self@, pm.subrange(i as int, pm.len() as int)),
                !(params_spec(s0, pm) is Abort),
            decreases params@.len() - i,
        {
            let ghost rest = pm.subrange(i as int, pm.len() as int);
            assert(rest[0].0 == params@[i as int].0@);
            assert(rest.drop_first() =~= pm.subrange(i + 1, pm.len() as int));
            self.emit_string(params[i].0.as_str());
            i = i + 1;
        }
        assert(pm.subrange(i as int, pm.len() as int) =~= Seq::<(Seq<char>, Seq<char>)>::empty());
    }

    /// The head of a function; returns where the jump over its body is written.
    fn compile_func_head(&mut self, name: &String, params: &Vec<(String, String)>) -> (skip: usize)
        requires
            !(func_head_spec(old(self)@, name@, pairs_m(params@)) is Abort),
        ensures
            func_head_spec(old(self)@, name@, pairs_m(params@)) == Step::Done(final(self)@),
            skip == old(self)@.code.len() + 1,
            final(self)@.code.len() >= old(self)@.code.len() + 5,
    {
        let ghost st = self@;
        let full = self.qualify(name);
        self.emit_u8(OP_JUMP);
        let skip = self.emit_u32_placeholder();
        let ghost s1 = self@;
        assert(s1 == emit(st, seq![OP_JUMP] + zeros4())) by {
            assert(s1.code =~= st.code + (seq![OP_JUMP] + zeros4()));
        }
        let entry = self.bytecode.len() as u32;
        self.function_table.insert(full, entry);
        let ghost s2 = self@;
        assert(s2 == (CState { functions: s1.functions.insert(qualified(st.module, name@), here(s1)), ..s1 }));
        self.emit_u8(OP_BIND_PARAMS);
        self.emit_u8((params.len() % 256) as u8);
        assert(self@ == emit(s2, seq![OP_BIND_PARAMS, (pairs_m(params@).len() % 256) as u8])) by {
            assert(self@.code =~= s2.code + seq![OP_BIND_PARAMS, (pairs_m(params@).len() % 256) as u8]);
        }
        let ghost s3 = self@;
        proof {
            lemma_params_grows(s3, pairs_m(params@));
        }
        self.compile_params(params);
        skip
    }

    /// Compiles statements in order.
    fn compile_nodes(&mut self, nodes: &Vec<ASTNode>) -> (r: Result<(), CompileError>)
        requires
            !(nodes_spec(old(self)@, nodes_m(nodes@)) is Abort),
        ensures
            step_agrees(nodes_spec(old(self)@, nodes_m(nodes@)), final(self)@, r),
        decreases nodes, 0nat,
    {
        let ghost nm = nodes_m(nodes@);
        let ghost st = self@;
        proof {
            lemma_nodes_m(nodes@);
            assert(nm.subrange(0, nm.len() as int) =~= nm);
        }
        let mut i: usize = 0;
        while i < nodes.len()
            invariant
                i <= nodes@.len(),
                nm == nodes_m(nodes@),
                nm.len() == nodes@.len(),
                forall|j: int| 0 <= j < nodes@.len() ==> #[trigger] nm[j] == node_m(nodes@[j]),
                st == old(self)@,
                nodes_spec(st, nm) == nodes_spec(self@, nm.subrange(i as int, nm.len() as int)),
                !(nodes_spec(st, nm) is Abort),
            decreases nodes@.len() - i,
        {
            let ghost cur = self@;
            let ghost rest = nm.subrange(i as int, nm.len() as int);
            assert(rest[0] == nm[i as int]);
            assert(rest.drop_first() =~= nm.subrange(i + 1, nm.len() as int));
            assert(decreases_to!(*nodes => nodes@));
            assert(decreases_to!(nodes@ => nodes@[i as int]));
            proof {
                lemma_nodes_step(cur, rest);
            }
            let res = self.compile_node(&nodes[i]);
            match res {
                Ok(()) => {},
                Err(x) => {
                    return Err(x);
                },
            }
            i = i + 1;
        }
        assert(nm.subrange(i as int, nm.len() as int) =~= Seq::<NodeM>::empty());
        Ok(())
    }

    /// Compiles one statement.  Declarations inside a module are recorded under
    /// `module::name`; jumps of functions, conditionals and loops are patched
    /// once their targets are known.
    pub fn compile(&mut self, node: ASTNode) -> (r: Result<(), CompileError>)
        requires
            !(node_spec(old(self)@, node@) is Abort),
        ensures
            step_agrees(node_spec(old(self)@, node@), final(self)@, r),
    {
        self.compile_node(&node)
    }

    #[verifier::rlimit(40)]
    fn compile_node(&mut self, node: &ASTNode) -> (r: Result<(), CompileError>)
        requires
            !(node_spec(old(self)@, node@) is Abort),
        ensures
            step_agrees(node_spec(old(self)@, node@), final(self)@, r),
        decreases node, 1nat,
    {
        let ghost st = self@;
        proof {
            reveal(node_spec);
        }
        match node {
            ASTNode::VarDecl { name, value, .. } => {
                let full = self.qualify(name);
                match self.compile_expr_ref(value) {
                    Ok(()) => {},
                    Err(x) => {
                        return Err(x);
                    },
                }
                proof {
                    lemma_expr_grows(st, value@);
                }
                self.emit_u8(OP_STORE_VAR);
                self.emit_string(full.as_str());
                Ok(())
            },
            ASTNode::FuncDecl { name, parameters, body, .. } => {
                let skip = self.compile_func_head(name, parameters);
                let ghost s4 = self@;
                match self.compile_nodes(body) {
                    Ok(()) => {},
                    Err(x) => {
                        return Err(x);
                    },
                }
                proof {
                    lemma_nodes_grows(s4, nodes_m(body@));
                }
                self.emit_u8(OP_RETURN);
                let post = self.bytecode.len() as u32;
                self.emit_u32_at(skip, post);
                Ok(())
            },
            ASTNode::IfStmt { .. } => {
                self.compile_if(node)
            },
            ASTNode::WhileStmt { condition, body } => {
                let start = self.bytecode.len() as u32;
                match self.compile_expr_ref(condition) {
                    Ok(()) => {},
                    Err(x) => {
                        return Err(x);
                    },
                }
                proof {
                    lemma_expr_grows(st, condition@);
                }
                let ghost s1 = self@;
                self.emit_u8(OP_JUMP_IF_FALSE);
                let exit_ph = self.emit_u32_placeholder();
                assert(self@ == emit(s1, seq![OP_JUMP_IF_FALSE] + zeros4())) by {
                    assert(self@.code =~= s1.code + (seq![OP_JUMP_IF_FALSE] + zeros4()));
                }
                let ghost s2 = self@;
                match self.compile_nodes(body) {
                    Ok(()) => {},
                    Err(x) => {
                        return Err(x);
                    },
                }
                proof {
                    lemma_nodes_grows(s2, nodes_m(body@));
                }
                let ghost s3 = self@;
                self.emit_u8(OP_JUMP);
                let back_ph = self.emit_u32_placeholder();
                assert(self@ == emit(s3, seq![OP_JUMP] + zeros4())) by {
                    assert(self@.code =~= s3.code + (seq![OP_JUMP] + zeros4()));
                }
                self.emit_u32_at(back_ph, start);
                let exit_pc = self.bytecode.len() as u32;
                self.emit_u32_at(exit_ph, exit_pc);
                Ok(())
            },
            ASTNode::StructDecl { name, fields, .. } => {
                let mut names: Vec<String> = Vec::new();
                let mut i: usize = 0;
                while i < fields.len()
                    invariant
                        i <= fields@.len(),
                        names@.len() == i,
                        forall|j: int| 0 <= j < i ==> #[trigger] names@[j]@ == fields@[j].0@,
                    decreases fields@.len() - i,
                {
                    names.push(fields[i].0.clone());
                    i = i + 1;
                }
                let ghost fnames = pairs_m(fields@).map_values(|f: (Seq<char>, Seq<char>)| f.0);
                assert(strs_m(names@) =~= fnames);
                self.struct_registry.insert(name.clone(), names);
                assert(self@.structs =~= st.structs.insert(name@, fnames));
                assert(self@ == (CState { structs: st.structs.insert(name@, fnames), ..st }));
                Ok(())
            },
            ASTNode::FFIDecl { library_path, symbol_name, parameters, .. } => {
                self.foreign_table.insert(symbol_name.clone(), (library_path.clone(), symbol_name.clone(), parameters.len()));
                let ghost entry = (library_path@, symbol_name@, pairs_m(parameters@).len() as usize);
                assert(self@.foreign =~= st.foreign.insert(symbol_name@, entry));
                assert(self@ == (CState { foreign: st.foreign.insert(symbol_name@, entry), ..st }));
                Ok(())
            },
            ASTNode::ModuleDef { name, body } => {
                let old_mod = match &self.current_module {
                    Some(m) => Some(m.clone()),
                    None => None,
                };
                self.current_module = Some(name.clone());
                assert(self@ == (CState { module: Some(name@), ..st }));
                match self.compile_nodes(body) {
                    Ok(()) => {},
                    Err(x) => {
                        return Err(x);
                    },
                }
                let ghost s1 = self@;
                self.current_module = old_mod;
                assert(self@ == (CState { module: st.module, ..s1 }));
                Ok(())
            },
            ASTNode::StatementExpr(e) => {
                self.compile_expr_ref(e)
            },
            ASTNode::ReturnStmt(e) => {
                match self.compile_expr_ref(e) {
                    Ok(()) => {},
                    Err(x) => {
                        return Err(x);
                    },
                }
                self.emit_u8(OP_RETURN);
                Ok(())
            },
            ASTNode::Block(stmts) => {
                self.compile_nodes(stmts)
            },
            ASTNode::MacroCall { name, .. } => {
                let mut m = owned("macro call '");
                push_str(&mut m, name.as_str());
                push_str(&mut m, "!' reached bytecode generation before expansion");
                Err(CompileError::UnsupportedNode(m))
            },
            ASTNode::GenericFuncDecl { name, .. } => {
                let mut m = owned("generic function '");
                push_str(&mut m, name.as_str());
                push_str(&mut m, "' reached bytecode generation before monomorphization");
                Err(CompileError::UnsupportedNode(m))
            },
            ASTNode::AsyncFuncDecl { name, .. } => {
                let mut m = owned("async function '");
                push_str(&mut m, name.as_str());
                push_str(&mut m, "' is parsed but not executable yet");
                Err(CompileError::UnsupportedNode(m))
            },
            ASTNode::SpawnStmt(_) => {
                Err(CompileError::UnsupportedNode(owned("spawn statements are not executable yet")))
            },
            ASTNode::DelayStmt(_) => {
                Err(CompileError::UnsupportedNode(owned("delay statements are not executable yet")))
            },
            _ => Ok(()),
        }
    }

    fn compile_if(&mut self, node: &ASTNode) -> (r: Result<(), CompileError>)
        requires
            node is IfStmt,
            !(node_spec(old(self)@, node@) is Abort),
        ensures
            step_agrees(node_spec(old(self)@, node@), final(self)@, r),
        decreases node, 0nat,
    {
        proof {
            reveal(node_spec);
        }
        let (condition, then_branch, else_branch) = match node {
            ASTNode::IfStmt { condition, then_branch, else_branch } => (condition, then_branch, else_branch),
            _ => {
                return Ok(());
            },
        };
        let ghost st = self@;
        match self.compile_expr_ref(condition) {
            Ok(()) => {},
            Err(x) => {
                return Err(x);
            },
        }
        proof {
            lemma_expr_grows(st, condition@);
        }
        let ghost s1 = self@;
        self.emit_u8(OP_JUMP_IF_FALSE);
        let else_ph = self.emit_u32_placeholder();
        assert(self@ == emit(s1, seq![OP_JUMP_IF_FALSE] + zeros4())) by {
            assert(self@.code =~= s1.code + (seq![OP_JUMP_IF_FALSE] + zeros4()));
        }
        let ghost s2 = self@;
        match self.compile_nodes(then_branch) {
            Ok(()) => {},
            Err(x) => {
                return Err(x);
            },
        }
        proof {
            lemma_nodes_grows(s2, nodes_m(then_branch@));
        }
        let ghost s3 = self@;
        self.emit_u8(OP_JUMP);
        let end_ph = self.emit_u32_placeholder();
        assert(self@ == emit(s3, seq![OP_JUMP] + zeros4())) by {
            assert(self@.code =~= s3.code + (seq![OP_JUMP] + zeros4()));
        }
        let else_pc = self.bytecode.len() as u32;
        self.emit_u32_at(else_ph, else_pc);
        let ghost s5 = self@;
        match else_branch {
            Some(b) => {
                match self.compile_nodes(b) {
                    Ok(()) => {},
                    Err(x) => {
                        return Err(x);
                    },
                }
                proof {
                    lemma_nodes_grows(s5, nodes_m(b@));
                }
            },
            None => {},
        }
        let end_pc = self.bytecode.len() as u32;
        self.emit_u32_at(end_ph, end_pc);
        Ok(())
    }

    /// Writes each recorded call site's target address, skipping built-ins.
    pub fn link_unresolved_references(&mut self) -> (r: Result<(), CompileError>)
        requires
            calls_within(old(self)@),
        ensures
            match link_spec(old(self)@.code, old(self)@.functions, old(self)@.calls) {
                Ok(code) => r is Ok && final(self)@ == (CState { code: code, ..old(self)@ }),
                Err(name) => r matches Err(x)
                    && x@ == CompileErrorM::LinkError("failed to locate function target '"@ + name + "'"@),
            },
    {
        let ghost st = self@;
        let ghost calls = st.calls;
        assert(calls.subrange(0, calls.len() as int) =~= calls);
        let mut i: usize = 0;
        while i < self.unresolved_calls.len()
            invariant
                i <= self.unresolved_calls@.len(),
                calls == st.calls,
                st == old(self)@,
                calls_m(self.unresolved_calls@) == calls,
                calls.len() == self.unresolved_calls@.len(),
                self@ == (CState { code: self@.code, ..st }),
                self@.code.len() == st.code.len(),
                calls_within(st),
                link_spec(st.code, st.functions, calls) == link_spec(self@.code, st.functions, calls.subrange(i as int, calls.len() as int)),
            decreases self.unresolved_calls@.len() - i,
        {
            let ghost rest = calls.subrange(i as int, calls.len() as int);
            assert(rest[0] == calls[i as int]);
            assert(calls[i as int] == (self.unresolved_calls@[i as int].0 as int, self.unresolved_calls@[i as int].1@));
            assert(rest.drop_first() =~= calls.subrange(i + 1, calls.len() as int));
            let idx = self.unresolved_calls[i].0;
            let builtin = is_builtin(self.unresolved_calls[i].1.as_str());
            if !builtin {
                let found = match self.function_table.get(self.unresolved_calls[i].1.as_str()) {
                    Some(a) => Some(*a),
                    None => None,
                };
                match found {
                    Some(addr) => {
                        assert(idx + 4 <= self@.code.len());
                        self.emit_u32_at(idx, addr);
                    },
                    None => {
                        let mut m = owned("failed to locate function target '");
                        push_str(&mut m, self.unresolved_calls[i].1.as_str());
                        push_str(&mut m, "'");
                        proof {
                            assert(!st.functions.dom().contains(calls[i as int].1));
                            assert(!spec_is_builtin(calls[i as int].1));
                            assert(link_spec(self@.code, st.functions, rest) == Err::<Seq<u8>, Seq<char>>(calls[i as int].1));
                        }
                        return Err(CompileError::LinkError(m));
                    },
                }
            }
            i = i + 1;
        }
        assert(calls.subrange(i as int, calls.len() as int) =~= Seq::<(int, Seq<char>)>::empty());
        Ok(())
    }
}

} // verus!
