//! What compiling never undoes: the code written before a piece of syntax
//! stays as it was, and the function table changes only at the names the
//! piece declares.  From these, the frame of a compiled function.
use vstd::prelude::*;
use crate::ast::{ExprM, NodeM, AccessModifier};
use crate::bytecode::{OP_PUSH_CONST, OP_DUP, OP_DROP, OP_GET_VARIANT, OP_STORE_VAR, OP_EQUAL, OP_JUMP, OP_JUMP_IF_FALSE,
    OP_JUMP_IF_TRUE, OP_EXTRACT, OP_RETURN, OP_BIND_PARAMS, OP_CALL_BUILTIN, OP_CALL_FOREIGN, OP_GET_FIELD, TAG_STR,
    TAG_INT, TAG_STRUCT, zeros4, be32, be64};
use crate::compiler::{CState, Step, emit, patch, patch_code, here, emit_str, fields_spec, field_const_code, binds_spec,
    literal_spec, expr_spec, binary_spec, call_spec, call_tail, call_site, match_spec, args_spec, arm_head_spec,
    arm_next, arm_spec, arms_spec, arm_ends, patch_all, params_spec, func_head_spec, node_spec, nodes_spec, qualified,
    lemma_expr_grows, lemma_arm_head, lemma_arm_grows, lemma_arms_grows, lemma_args_grows, lemma_params_grows,
    lemma_nodes_grows, lemma_node_grows, lemma_nodes_step, lemma_patch_len, extends};
use crate::vm::ValueM;

verus! {

/// The code of `b` begins with the code of `a`.
pub open spec fn keeps(a: CState, b: CState) -> bool {
    a.code.len() <= b.code.len() && b.code.subrange(0, a.code.len() as int) == a.code
}

pub proof fn lemma_keeps_refl(a: CState)
    ensures
        keeps(a, a),
{
    assert(a.code.subrange(0, a.code.len() as int) =~= a.code);
}

pub proof fn lemma_keeps_trans(a: CState, b: CState, c: CState)
    requires
        keeps(a, b),
        keeps(b, c),
    ensures
        keeps(a, c),
{
    assert forall|k: int| 0 <= k < a.code.len() implies c.code.subrange(0, a.code.len() as int)[k] == a.code[k] by {
        assert(c.code.subrange(0, b.code.len() as int)[k] == c.code[k]);
        assert(b.code.subrange(0, a.code.len() as int)[k] == b.code[k]);
    }
    assert(c.code.subrange(0, a.code.len() as int) =~= a.code);
}

pub proof fn lemma_keeps_emit(st: CState, b: Seq<u8>)
    ensures
        keeps(st, emit(st, b)),
{
    assert(emit(st, b).code.subrange(0, st.code.len() as int) =~= st.code);
}

pub proof fn lemma_keeps_patch(a: CState, st: CState, idx: int, v: u32)
    requires
        keeps(a, st),
        a.code.len() <= idx,
        idx + 4 <= st.code.len(),
    ensures
        keeps(a, patch(st, idx, v)),
        patch(st, idx, v).code.len() == st.code.len(),
{
    let r = patch(st, idx, v);
    assert forall|k: int| 0 <= k < a.code.len() implies r.code.subrange(0, a.code.len() as int)[k] == a.code[k] by {
        assert(r.code[k] == st.code[k]);
        assert(st.code.subrange(0, a.code.len() as int)[k] == st.code[k]);
    }
    assert(r.code.subrange(0, a.code.len() as int) =~= a.code);
}

pub proof fn lemma_keeps_emit_str(st: CState, s: Seq<char>)
    ensures
        emit_str(st, s) matches Step::Done(s1) ==> keeps(st, s1),
{
    lemma_keeps_emit(st, crate::bytecode::str_code(s));
}

pub proof fn lemma_keeps_call_site(st: CState, name: Seq<char>)
    ensures
        keeps(st, call_site(st, name)),
{
    assert(call_site(st, name).code.subrange(0, st.code.len() as int) =~= st.code);
}

pub proof fn lemma_fields_keeps(st: CState, fields: Seq<(Seq<char>, ValueM)>)
    ensures
        fields_spec(st, fields) matches Step::Done(s) ==> keeps(st, s),
    decreases fields.len(),
{
    if fields.len() == 0 {
        lemma_keeps_refl(st);
    } else {
        lemma_keeps_emit_str(st, fields[0].0);
        if let Step::Done(s1) = emit_str(st, fields[0].0) {
            if let Some(b) = field_const_code(fields[0].1) {
                let s2 = emit(s1, seq![OP_PUSH_CONST] + b);
                lemma_keeps_emit(s1, seq![OP_PUSH_CONST] + b);
                lemma_fields_keeps(s2, fields.drop_first());
                if let Step::Done(s) = fields_spec(s2, fields.drop_first()) {
                    lemma_keeps_trans(st, s1, s2);
                    lemma_keeps_trans(st, s2, s);
                }
            }
        }
    }
}

pub proof fn lemma_binds_keeps(st: CState, binds: Seq<Seq<char>>)
    ensures
        binds_spec(st, binds) matches Step::Done(s) ==> keeps(st, s),
    decreases binds.len(),
{
    if binds.len() == 0 {
        lemma_keeps_refl(st);
    } else {
        let s0 = emit(st, seq![OP_DUP, OP_STORE_VAR]);
        lemma_keeps_emit(st, seq![OP_DUP, OP_STORE_VAR]);
        lemma_keeps_emit_str(s0, binds[0]);
        if let Step::Done(s1) = emit_str(s0, binds[0]) {
            lemma_binds_keeps(s1, binds.drop_first());
            if let Step::Done(s) = binds_spec(s1, binds.drop_first()) {
                lemma_keeps_trans(st, s0, s1);
                lemma_keeps_trans(st, s1, s);
            }
        }
    }
}

pub proof fn lemma_literal_keeps(st: CState, v: ValueM)
    ensures
        literal_spec(st, v) matches Step::Done(s) ==> keeps(st, s),
{
    let s1 = emit(st, seq![OP_PUSH_CONST]);
    lemma_keeps_emit(st, seq![OP_PUSH_CONST]);
    match v {
        ValueM::Int(n) => { lemma_keeps_emit(s1, seq![TAG_INT] + be64(n as u64)); lemma_keeps_trans(st, s1, emit(s1, seq![TAG_INT] + be64(n as u64))); },
        ValueM::Bool(b) => {
            let t = seq![crate::bytecode::TAG_BOOL, if b { 1u8 } else { 0u8 }];
            lemma_keeps_emit(s1, t);
            lemma_keeps_trans(st, s1, emit(s1, t));
        },
        ValueM::Str(s) => {
            let s2 = emit(s1, seq![TAG_STR]);
            lemma_keeps_emit(s1, seq![TAG_STR]);
            lemma_keeps_trans(st, s1, s2);
            lemma_keeps_emit_str(s2, s);
            if let Step::Done(s3) = emit_str(s2, s) { lemma_keeps_trans(st, s2, s3); }
        },
        ValueM::Float(bits) => {
            let t = seq![crate::bytecode::TAG_FLOAT] + be64(bits);
            lemma_keeps_emit(s1, t);
            lemma_keeps_trans(st, s1, emit(s1, t));
        },
        ValueM::Enum(name, _) => {
            let s2 = emit(s1, seq![crate::bytecode::TAG_ENUM]);
            lemma_keeps_emit(s1, seq![crate::bytecode::TAG_ENUM]);
            lemma_keeps_trans(st, s1, s2);
            lemma_keeps_emit_str(s2, name);
            if let Step::Done(s3) = emit_str(s2, name) { lemma_keeps_trans(st, s2, s3); }
        },
        ValueM::Struct(fields) => {
            let t = seq![TAG_STRUCT, (fields.len() % 256) as u8];
            let s2 = emit(s1, t);
            lemma_keeps_emit(s1, t);
            lemma_keeps_trans(st, s1, s2);
            lemma_fields_keeps(s2, fields);
            if let Step::Done(s3) = fields_spec(s2, fields) { lemma_keeps_trans(st, s2, s3); }
        },
        _ => {},
    }
}

pub proof fn lemma_expr_keeps(st: CState, e: ExprM)
    ensures
        expr_spec(st, e) matches Step::Done(s) ==> keeps(st, s),
    decreases e, 1nat,
{
    match e {
        ExprM::Literal(v) => {
            lemma_literal_keeps(st, v);
        },
        ExprM::IntLiteral(n) => {
            lemma_keeps_emit(st, seq![OP_PUSH_CONST, TAG_INT] + be64(n as u64));
        },
        ExprM::Variable(name) => {
            let s1 = emit(st, seq![crate::bytecode::OP_LOAD_VAR]);
            lemma_keeps_emit(st, seq![crate::bytecode::OP_LOAD_VAR]);
            lemma_keeps_emit_str(s1, name);
            if let Step::Done(s2) = emit_str(s1, name) { lemma_keeps_trans(st, s1, s2); }
        },
        ExprM::Binary { .. } => {
            lemma_binary_keeps(st, e);
        },
        ExprM::MatchExpr { .. } => {
            lemma_match_keeps(st, e);
        },
        ExprM::FieldAccess { object, field } => {
            lemma_expr_keeps(st, *object);
            if let Step::Done(s1) = expr_spec(st, *object) {
                let s2 = emit(s1, seq![OP_GET_FIELD]);
                lemma_keeps_emit(s1, seq![OP_GET_FIELD]);
                lemma_keeps_trans(st, s1, s2);
                lemma_keeps_emit_str(s2, field);
                if let Step::Done(s3) = emit_str(s2, field) { lemma_keeps_trans(st, s2, s3); }
            }
        },
        ExprM::MethodCall { instance, method_name, args } => {
            lemma_expr_keeps(st, *instance);
            if let Step::Done(s1) = expr_spec(st, *instance) {
                lemma_args_keeps(s1, args);
                if let Step::Done(s2) = args_spec(s1, args) {
                    lemma_keeps_trans(st, s1, s2);
                    lemma_keeps_call_site(s2, method_name);
                    lemma_keeps_trans(st, s2, call_site(s2, method_name));
                }
            }
        },
        ExprM::Call { .. } => {
            lemma_call_keeps(st, e);
        },
        _ => {},
    }
}

pub proof fn lemma_binary_keeps(st: CState, e: ExprM)
    ensures
        binary_spec(st, e) matches Step::Done(s) ==> keeps(st, s),
    decreases e, 0nat,
{
    if let ExprM::Binary { left, op, right } = e {
        lemma_expr_keeps(st, *left);
        if let Step::Done(s1) = expr_spec(st, *left) {
            lemma_expr_keeps(s1, *right);
            if let Step::Done(s2) = expr_spec(s1, *right) {
                lemma_keeps_trans(st, s1, s2);
                if let Some(b) = crate::compiler::binary_opcode(op) {
                    lemma_keeps_emit(s2, seq![b]);
                    lemma_keeps_trans(st, s2, emit(s2, seq![b]));
                }
            }
            let ta = seq![OP_DUP, OP_JUMP_IF_FALSE] + zeros4() + seq![OP_DROP];
            let tb = seq![OP_DUP, OP_JUMP_IF_TRUE] + zeros4() + seq![OP_DROP];
            let a = emit(s1, ta);
            let b = emit(s1, tb);
            lemma_keeps_emit(s1, ta);
            lemma_keeps_emit(s1, tb);
            lemma_keeps_trans(st, s1, a);
            lemma_keeps_trans(st, s1, b);
            lemma_expr_keeps(a, *right);
            lemma_expr_keeps(b, *right);
            if let Step::Done(s3) = expr_spec(a, *right) {
                lemma_keeps_trans(st, a, s3);
                lemma_keeps_patch(st, s3, s1.code.len() + 2int, here(s3));
            }
            if let Step::Done(s3) = expr_spec(b, *right) {
                lemma_keeps_trans(st, b, s3);
                lemma_keeps_patch(st, s3, s1.code.len() + 2int, here(s3));
            }
        }
    }
}

pub proof fn lemma_call_keeps(st: CState, e: ExprM)
    ensures
        call_spec(st, e) matches Step::Done(s) ==> keeps(st, s),
    decreases e, 0nat,
{
    if let ExprM::Call { name, args } = e {
        lemma_args_keeps(st, args);
        if let Step::Done(s1) = args_spec(st, args) {
            lemma_call_tail_keeps(s1, name, args.len());
            if let Step::Done(s) = call_tail(s1, name, args.len()) {
                lemma_keeps_trans(st, s1, s);
            }
        }
    }
}

pub proof fn lemma_call_tail_keeps(s1: CState, name: Seq<char>, nargs: nat)
    ensures
        call_tail(s1, name, nargs) matches Step::Done(s) ==> keeps(s1, s),
{
    let n = (nargs % 256) as u8;
    let b = emit(s1, seq![OP_CALL_BUILTIN]);
    lemma_keeps_emit(s1, seq![OP_CALL_BUILTIN]);
    lemma_keeps_emit_str(b, name);
    if let Step::Done(s2) = emit_str(b, name) {
        lemma_keeps_trans(s1, b, s2);
        lemma_keeps_emit(s2, seq![n]);
        lemma_keeps_trans(s1, s2, emit(s2, seq![n]));
    }
    if s1.foreign.dom().contains(name) {
        let f = s1.foreign[name];
        let c = emit(s1, seq![OP_CALL_FOREIGN]);
        lemma_keeps_emit(s1, seq![OP_CALL_FOREIGN]);
        lemma_keeps_emit_str(c, f.0);
        if let Step::Done(s2) = emit_str(c, f.0) {
            lemma_keeps_trans(s1, c, s2);
            lemma_keeps_emit_str(s2, f.1);
            if let Step::Done(s3) = emit_str(s2, f.1) {
                lemma_keeps_trans(s1, s2, s3);
                lemma_keeps_emit(s3, seq![n]);
                lemma_keeps_trans(s1, s3, emit(s3, seq![n]));
            }
        }
    }
    lemma_keeps_call_site(s1, name);
}

pub proof fn lemma_args_keeps(st: CState, args: Seq<ExprM>)
    ensures
        args_spec(st, args) matches Step::Done(s) ==> keeps(st, s),
    decreases args, 0nat,
{
    if args.len() == 0 {
        lemma_keeps_refl(st);
    } else {
        lemma_expr_keeps(st, args[0]);
        if let Step::Done(s1) = expr_spec(st, args[0]) {
            lemma_args_keeps(s1, args.drop_first());
            if let Step::Done(s) = args_spec(s1, args.drop_first()) {
                lemma_keeps_trans(st, s1, s);
            }
        }
    }
}

pub proof fn lemma_arm_head_keeps(st: CState, pattern: Seq<char>, binds: Seq<Seq<char>>)
    ensures
        arm_head_spec(st, pattern, binds) matches Step::Done(s) ==> keeps(st, s),
{
    let t0 = seq![OP_DUP, OP_GET_VARIANT, OP_PUSH_CONST, TAG_STR];
    let s0 = emit(st, t0);
    lemma_keeps_emit(st, t0);
    lemma_keeps_emit_str(s0, pattern);
    if let Step::Done(s1) = emit_str(s0, pattern) {
        lemma_keeps_trans(st, s0, s1);
        let t2 = seq![OP_EQUAL, OP_JUMP_IF_FALSE] + zeros4() + seq![OP_EXTRACT];
        let s2 = emit(s1, t2);
        lemma_keeps_emit(s1, t2);
        lemma_keeps_trans(st, s1, s2);
        lemma_binds_keeps(s2, binds);
        if let Step::Done(s4) = binds_spec(s2, binds) {
            lemma_keeps_trans(st, s2, s4);
            lemma_keeps_emit(s4, seq![OP_DROP]);
            lemma_keeps_trans(st, s4, emit(s4, seq![OP_DROP]));
        }
    }
}

pub proof fn lemma_arm_keeps(st: CState, arm: (Seq<char>, Seq<Seq<char>>, ExprM))
    ensures
        arm_spec(st, arm) matches Step::Done(s) ==> keeps(st, s),
    decreases arm, 0nat,
{
    lemma_arm_head_keeps(st, arm.0, arm.1);
    lemma_arm_head(st, arm.0, arm.1);
    if let Step::Done(s5) = arm_head_spec(st, arm.0, arm.1) {
        lemma_expr_keeps(s5, arm.2);
        lemma_expr_grows(s5, arm.2);
        if let Step::Done(s6) = expr_spec(s5, arm.2) {
            lemma_keeps_trans(st, s5, s6);
            let s7 = emit(s6, seq![OP_JUMP] + zeros4());
            lemma_keeps_emit(s6, seq![OP_JUMP] + zeros4());
            lemma_keeps_trans(st, s6, s7);
            lemma_keeps_patch(st, s7, arm_next(st, arm.0), here(s7));
        }
    }
}

pub proof fn lemma_arms_keeps(st: CState, arms: Seq<(Seq<char>, Seq<Seq<char>>, ExprM)>)
    ensures
        arms_spec(st, arms) matches Step::Done(s) ==> keeps(st, s),
    decreases arms, 0nat,
{
    if arms.len() == 0 {
        lemma_keeps_refl(st);
    } else {
        lemma_arm_keeps(st, arms[0]);
        if let Step::Done(s1) = arm_spec(st, arms[0]) {
            lemma_arms_keeps(s1, arms.drop_first());
            if let Step::Done(s) = arms_spec(s1, arms.drop_first()) {
                lemma_keeps_trans(st, s1, s);
            }
        }
    }
}

pub proof fn lemma_patch_all_keeps(a: CState, st: CState, idxs: Seq<int>, v: u32)
    requires
        keeps(a, st),
        forall|i: int| 0 <= i < idxs.len() ==> a.code.len() <= #[trigger] idxs[i] && idxs[i] + 4 <= st.code.len(),
    ensures
        keeps(a, patch_all(st, idxs, v)),
    decreases idxs.len(),
{
    if idxs.len() > 0 {
        lemma_keeps_patch(a, st, idxs[0], v);
        let p = patch(st, idxs[0], v);
        assert forall|i: int| 0 <= i < idxs.drop_first().len() implies a.code.len() <= #[trigger] idxs.drop_first()[i]
            && idxs.drop_first()[i] + 4 <= p.code.len() by {
            assert(idxs.drop_first()[i] == idxs[i + 1]);
        }
        lemma_patch_all_keeps(a, p, idxs.drop_first(), v);
    }
}

pub proof fn lemma_match_keeps(st: CState, e: ExprM)
    ensures
        match_spec(st, e) matches Step::Done(s) ==> keeps(st, s),
    decreases e, 0nat,
{
    if let ExprM::MatchExpr { eval_target, arms } = e {
        lemma_expr_keeps(st, *eval_target);
        lemma_expr_grows(st, *eval_target);
        if let Step::Done(s1) = expr_spec(st, *eval_target) {
            lemma_arms_keeps(s1, arms);
            lemma_arms_grows(s1, arms);
            if let Step::Done(s2) = arms_spec(s1, arms) {
                lemma_keeps_trans(st, s1, s2);
                let t = seq![OP_DROP, OP_PUSH_CONST, TAG_INT] + be64(0u64);
                let s3 = emit(s2, t);
                lemma_keeps_emit(s2, t);
                lemma_keeps_trans(st, s2, s3);
                let idxs = arm_ends(s1, arms);
                assert forall|i: int| 0 <= i < idxs.len() implies st.code.len() <= #[trigger] idxs[i] && idxs[i] + 4 <= s3.code.len() by {
                }
                lemma_patch_all_keeps(st, s3, idxs, here(s3));
            }
        }
    }
}

pub proof fn lemma_params_keeps(st: CState, params: Seq<(Seq<char>, Seq<char>)>)
    ensures
        params_spec(st, params) matches Step::Done(s) ==> keeps(st, s),
    decreases params.len(),
{
    if params.len() == 0 {
        lemma_keeps_refl(st);
    } else {
        lemma_keeps_emit_str(st, params[0].0);
        if let Step::Done(s1) = emit_str(st, params[0].0) {
            lemma_params_keeps(s1, params.drop_first());
            if let Step::Done(s) = params_spec(s1, params.drop_first()) {
                lemma_keeps_trans(st, s1, s);
            }
        }
    }
}

/// Whether compiling a statement under `module` declares a function whose
/// table key is `k`.
pub open spec fn node_declares(module: Option<Seq<char>>, n: NodeM, k: Seq<char>) -> bool
    decreases n, 1nat,
{
    match n {
        NodeM::FuncDecl { name, body, .. } => qualified(module, name) == k || nodes_declare(module, body, k),
        NodeM::IfStmt { then_branch, else_branch, .. } => nodes_declare(module, then_branch, k) || match else_branch {
            Some(eb) => nodes_declare(module, eb, k),
            None => false,
        },
        NodeM::WhileStmt { body, .. } => nodes_declare(module, body, k),
        NodeM::ModuleDef { name, body } => nodes_declare(Some(name), body, k),
        NodeM::Block(b) => nodes_declare(module, b, k),
        _ => false,
    }
}

pub open spec fn nodes_declare(module: Option<Seq<char>>, ns: Seq<NodeM>, k: Seq<char>) -> bool
    decreases ns, 0nat,
{
    ns.len() > 0 && (node_declares(module, ns[0], k) || nodes_declare(module, ns.drop_first(), k))
}

/// Two states hold the same function-table entry at `k`.
pub open spec fn agrees_at(a: CState, b: CState, k: Seq<char>) -> bool {
    &&& a.functions.dom().contains(k) == b.functions.dom().contains(k)
    &&& a.functions.dom().contains(k) ==> a.functions[k] == b.functions[k]
}

/// The frame of compiling a statement: the earlier code is kept, the module
/// is restored, and the table entry at a name the statement does not
/// declare is unchanged.
pub proof fn lemma_node_frame(st: CState, n: NodeM, k: Seq<char>)
    ensures
        node_spec(st, n) matches Step::Done(s) ==> keeps(st, s) && s.module == st.module
            && (!node_declares(st.module, n, k) ==> agrees_at(st, s, k)),
    decreases n, 1nat,
{
    reveal(node_spec);
    match n {
        NodeM::VarDecl { name, value, .. } => {
            lemma_expr_keeps(st, value);
            lemma_expr_grows(st, value);
            if let Step::Done(s1) = expr_spec(st, value) {
                let s2 = emit(s1, seq![OP_STORE_VAR]);
                lemma_keeps_emit(s1, seq![OP_STORE_VAR]);
                lemma_keeps_trans(st, s1, s2);
                lemma_keeps_emit_str(s2, qualified(st.module, name));
                if let Step::Done(s3) = emit_str(s2, qualified(st.module, name)) {
                    lemma_keeps_trans(st, s2, s3);
                }
            }
        },
        NodeM::FuncDecl { name, parameters, body, .. } => {
            let s1 = emit(st, seq![OP_JUMP] + zeros4());
            lemma_keeps_emit(st, seq![OP_JUMP] + zeros4());
            let s2 = CState { functions: s1.functions.insert(qualified(st.module, name), here(s1)), ..s1 };
            let t = seq![OP_BIND_PARAMS, (parameters.len() % 256) as u8];
            let s3 = emit(s2, t);
            lemma_keeps_emit(s2, t);
            assert(keeps(st, s2));
            lemma_keeps_trans(st, s2, s3);
            lemma_params_keeps(s3, parameters);
            lemma_params_grows(s3, parameters);
            if let Step::Done(s4) = func_head_spec(st, name, parameters) {
                lemma_keeps_trans(st, s3, s4);
                lemma_nodes_frame(s4, body, k);
                if let Step::Done(s5) = nodes_spec(s4, body) {
                    lemma_keeps_trans(st, s4, s5);
                    let s6 = emit(s5, seq![OP_RETURN]);
                    lemma_keeps_emit(s5, seq![OP_RETURN]);
                    lemma_keeps_trans(st, s5, s6);
                    lemma_keeps_patch(st, s6, st.code.len() + 1int, here(s6));
                }
            }
        },
        NodeM::IfStmt { condition, then_branch, else_branch } => {
            lemma_expr_keeps(st, condition);
            lemma_expr_grows(st, condition);
            if let Step::Done(s1) = expr_spec(st, condition) {
                let a = emit(s1, seq![OP_JUMP_IF_FALSE] + zeros4());
                lemma_keeps_emit(s1, seq![OP_JUMP_IF_FALSE] + zeros4());
                lemma_keeps_trans(st, s1, a);
                lemma_nodes_frame(a, then_branch, k);
                if let Step::Done(s3) = nodes_spec(a, then_branch) {
                    lemma_keeps_trans(st, a, s3);
                    let s4 = emit(s3, seq![OP_JUMP] + zeros4());
                    lemma_keeps_emit(s3, seq![OP_JUMP] + zeros4());
                    lemma_keeps_trans(st, s3, s4);
                    lemma_keeps_patch(st, s4, s1.code.len() + 1int, here(s4));
                    let s5 = patch(s4, s1.code.len() + 1int, here(s4));
                    match else_branch {
                        Some(b) => {
                            lemma_nodes_frame(s5, b, k);
                            if let Step::Done(s6) = nodes_spec(s5, b) {
                                lemma_keeps_trans(st, s5, s6);
                                lemma_keeps_patch(st, s6, s3.code.len() + 1int, here(s6));
                            }
                        },
                        None => {
                            lemma_keeps_patch(st, s5, s3.code.len() + 1int, here(s5));
                        },
                    }
                }
            }
        },
        NodeM::WhileStmt { condition, body } => {
            lemma_expr_keeps(st, condition);
            lemma_expr_grows(st, condition);
            if let Step::Done(s1) = expr_spec(st, condition) {
                let a = emit(s1, seq![OP_JUMP_IF_FALSE] + zeros4());
                lemma_keeps_emit(s1, seq![OP_JUMP_IF_FALSE] + zeros4());
                lemma_keeps_trans(st, s1, a);
                lemma_nodes_frame(a, body, k);
                if let Step::Done(s3) = nodes_spec(a, body) {
                    lemma_keeps_trans(st, a, s3);
                    let s4a = emit(s3, seq![OP_JUMP] + zeros4());
                    lemma_keeps_emit(s3, seq![OP_JUMP] + zeros4());
                    lemma_keeps_trans(st, s3, s4a);
                    lemma_keeps_patch(st, s4a, s3.code.len() + 1int, here(st));
                    let s4 = patch(s4a, s3.code.len() + 1int, here(st));
                    lemma_keeps_patch(st, s4, s1.code.len() + 1int, here(s4));
                }
            }
        },
        NodeM::ModuleDef { name, body } => {
            let inner = CState { module: Some(name), ..st };
            lemma_nodes_frame(inner, body, k);
            if let Step::Done(s1) = nodes_spec(inner, body) {
                assert(keeps(st, CState { module: st.module, ..s1 }));
            }
        },
        NodeM::StatementExpr(e) => {
            lemma_expr_keeps(st, e);
            lemma_expr_grows(st, e);
        },
        NodeM::ReturnStmt(e) => {
            lemma_expr_keeps(st, e);
            lemma_expr_grows(st, e);
            if let Step::Done(s1) = expr_spec(st, e) {
                lemma_keeps_emit(s1, seq![OP_RETURN]);
                lemma_keeps_trans(st, s1, emit(s1, seq![OP_RETURN]));
            }
        },
        NodeM::Block(b) => {
            lemma_nodes_frame(st, b, k);
        },
        _ => {
            lemma_keeps_refl(st);
        },
    }
}

pub proof fn lemma_nodes_frame(st: CState, ns: Seq<NodeM>, k: Seq<char>)
    ensures
        nodes_spec(st, ns) matches Step::Done(s) ==> keeps(st, s) && s.module == st.module
            && (!nodes_declare(st.module, ns, k) ==> agrees_at(st, s, k)),
    decreases ns, 0nat,
{
    if ns.len() == 0 {
        lemma_keeps_refl(st);
    } else {
        lemma_nodes_step(st, ns);
        lemma_node_frame(st, ns[0], k);
        if let Step::Done(s1) = node_spec(st, ns[0]) {
            lemma_nodes_frame(s1, ns.drop_first(), k);
            if let Step::Done(s) = nodes_spec(s1, ns.drop_first()) {
                lemma_keeps_trans(st, s1, s);
            }
        }
    }
}

/// The frame of a compiled function, where its body declares no function
/// under the same table key: the code before it is kept; at its start a
/// jump that lands just past its end; the table entry of its name pointing
/// just after that jump, where the parameter binding begins with the number
/// of parameters (modulo 256); and a return as its last byte.
pub proof fn law_function_layout(st: CState, name: Seq<char>, parameters: Seq<(Seq<char>, Seq<char>)>,
    return_type: Seq<char>, body: Seq<NodeM>, access_level: AccessModifier)
    requires
        !nodes_declare(st.module, body, qualified(st.module, name)),
    ensures
        node_spec(st, NodeM::FuncDecl { name, parameters, return_type, body, access_level }) matches Step::Done(s) ==> ({
            let l = st.code.len() as int;
            let key = qualified(st.module, name);
            &&& keeps(st, s)
            &&& s.code.len() >= l + 8
            &&& s.code[l] == OP_JUMP
            &&& s.code.subrange(l + 1, l + 5) == be32(s.code.len() as u32)
            &&& s.functions.dom().contains(key)
            &&& s.functions[key] == (l + 5) as u32
            &&& s.code[l + 5] == OP_BIND_PARAMS
            &&& s.code[l + 6] == (parameters.len() % 256) as u8
            &&& s.code.last() == OP_RETURN
        }),
{
    reveal(node_spec);
    let l = st.code.len() as int;
    let key = qualified(st.module, name);
    let s1 = emit(st, seq![OP_JUMP] + zeros4());
    let s2 = CState { functions: s1.functions.insert(key, here(s1)), ..s1 };
    let t = seq![OP_BIND_PARAMS, (parameters.len() % 256) as u8];
    let s3 = emit(s2, t);
    assert(s3.code[l] == OP_JUMP && s3.code[l + 5] == OP_BIND_PARAMS && s3.code[l + 6] == (parameters.len() % 256) as u8);
    assert(s3.code.len() == l + 7);
    lemma_keeps_emit(st, seq![OP_JUMP] + zeros4());
    lemma_keeps_emit(s2, t);
    assert(keeps(st, s2));
    lemma_keeps_trans(st, s2, s3);
    lemma_params_keeps(s3, parameters);
    lemma_params_grows(s3, parameters);
    if let Step::Done(s4) = func_head_spec(st, name, parameters) {
        lemma_keeps_trans(st, s3, s4);
        lemma_nodes_frame(s4, body, key);
        if let Step::Done(s5) = nodes_spec(s4, body) {
            lemma_keeps_trans(s3, s4, s5);
            lemma_keeps_trans(st, s4, s5);
            let s6 = emit(s5, seq![OP_RETURN]);
            lemma_keeps_emit(s5, seq![OP_RETURN]);
            lemma_keeps_trans(s3, s5, s6);
            lemma_keeps_trans(st, s5, s6);
            assert(s6.code[l] == s6.code.subrange(0, s3.code.len() as int)[l]);
            assert(s6.code[l + 5] == s6.code.subrange(0, s3.code.len() as int)[l + 5]);
            assert(s6.code[l + 6] == s6.code.subrange(0, s3.code.len() as int)[l + 6]);
            let idx = l + 1;
            lemma_keeps_patch(st, s6, idx, here(s6));
            let r = patch(s6, idx, here(s6));
            assert(r.code == s6.code.subrange(0, idx) + be32(here(s6)) + s6.code.subrange(idx + 4, s6.code.len() as int));
            assert(r.code.subrange(idx, idx + 4) =~= be32(here(s6)));
            assert(r.code[l] == s6.code[l]);
            assert(r.code[l + 5] == s6.code[l + 5]);
            assert(r.code[l + 6] == s6.code[l + 6]);
            assert(r.code.last() == s6.code.last());
            assert(s6.code.last() == OP_RETURN);
            assert(s4.functions == s2.functions);
            assert(s2.functions.dom().contains(key) && s2.functions[key] == here(s1));
        }
    }
}

} // verus!
