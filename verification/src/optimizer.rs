//! Constant folding and dead-branch elimination on the syntax tree.
use vstd::prelude::*;
use crate::ast::{ASTNode, AccessModifier, Expression, ExprM, NodeM, expr_m, node_m, nodes_m, clone_expr, clone_node,
    lemma_nodes_m, lemma_nodes_m_push};
use crate::vm::{Value, ValueM};
use crate::util::str_eq;

verus! {

/// An integer literal in its folded form.
pub open spec fn normalize_int(e: ExprM) -> ExprM {
    match e {
        ExprM::IntLiteral(n) => ExprM::Literal(ValueM::Int(n)),
        _ => e,
    }
}

/// Folding `l op r` on two integer constants, where the operator folds and
/// the result is defined; `None` leaves the operation in place.
pub open spec fn fold_ints(op: Seq<char>, l: i64, r: i64) -> Option<ValueM> {
    if op == "+"@ {
        Some(ValueM::Int((l + r) as i64))
    } else if op == "-"@ {
        Some(ValueM::Int((l - r) as i64))
    } else if op == "*"@ {
        Some(ValueM::Int((l * r) as i64))
    } else if op == "/"@ {
        if r == 0 { None } else { Some(ValueM::Int(trunc_div(l as int, r as int) as i64)) }
    } else if op == "=="@ {
        Some(ValueM::Bool(l == r))
    } else {
        None
    }
}

/// Integer division rounding toward zero, as Rust's `/` does.
pub open spec fn trunc_div(l: int, r: int) -> int {
    if l >= 0 && r > 0 {
        l / r
    } else if l < 0 && r < 0 {
        (-l) / (-r)
    } else if l < 0 {
        -((-l) / r)
    } else {
        -(l / (-r))
    }
}

/// Whether folding `l op r` stays within 64 bits.
pub open spec fn fold_fits(op: Seq<char>, l: i64, r: i64) -> bool {
    if op == "+"@ {
        i64::MIN <= l + r <= i64::MAX
    } else if op == "-"@ {
        i64::MIN <= l - r <= i64::MAX
    } else if op == "*"@ {
        i64::MIN <= l * r <= i64::MAX
    } else if op == "/"@ {
        !(l == i64::MIN && r == -1)
    } else {
        true
    }
}

/// The optimised form of an expression.
pub open spec fn opt_expr(e: ExprM) -> ExprM
    decreases e,
{
    match e {
        ExprM::Binary { left, op, right } => {
            let l = normalize_int(opt_expr(*left));
            let r = normalize_int(opt_expr(*right));
            match (l, r) {
                (ExprM::Literal(ValueM::Int(a)), ExprM::Literal(ValueM::Int(b))) => match fold_ints(op, a, b) {
                    Some(v) => ExprM::Literal(v),
                    None => ExprM::Binary { left: Box::new(l), op: op, right: Box::new(r) },
                },
                _ => ExprM::Binary { left: Box::new(l), op: op, right: Box::new(r) },
            }
        },
        ExprM::IntLiteral(n) => ExprM::Literal(ValueM::Int(n)),
        _ => e,
    }
}

/// Whether every fold in an expression stays within 64 bits.
pub open spec fn folds_fit(e: ExprM) -> bool
    decreases e,
{
    match e {
        ExprM::Binary { left, op, right } => {
            folds_fit(*left) && folds_fit(*right) && match (normalize_int(opt_expr(*left)), normalize_int(opt_expr(*right))) {
                (ExprM::Literal(ValueM::Int(a)), ExprM::Literal(ValueM::Int(b))) => fold_fits(op, a, b),
                _ => true,
            }
        },
        _ => true,
    }
}

/// The optimised form of a statement: constant conditions select their
/// branch, expressions are folded, declarations become private.
pub open spec fn opt_node(n: NodeM) -> NodeM
    decreases n, 1nat,
{
    match n {
        NodeM::VarDecl { name, data_type, value, .. } => NodeM::VarDecl {
            name: name,
            data_type: data_type,
            value: opt_expr(value),
            access_level: AccessModifier::Private,
        },
        NodeM::IfStmt { condition, then_branch, else_branch } => match opt_expr(condition) {
            ExprM::Literal(ValueM::Bool(true)) => NodeM::Block(opt_nodes(then_branch)),
            ExprM::Literal(ValueM::Bool(false)) => match else_branch {
                Some(eb) => NodeM::Block(opt_nodes(eb)),
                None => NodeM::NoOp,
            },
            c => NodeM::IfStmt {
                condition: c,
                then_branch: opt_nodes(then_branch),
                else_branch: match else_branch {
                    Some(eb) => Some(opt_nodes(eb)),
                    None => None,
                },
            },
        },
        NodeM::ReturnStmt(e) => NodeM::ReturnStmt(opt_expr(e)),
        NodeM::ModuleDecl { name, body } => NodeM::ModuleDecl { name: name, body: opt_nodes(body) },
        NodeM::ModuleDef { name, body } => NodeM::ModuleDef { name: name, body: opt_nodes(body) },
        _ => n,
    }
}

pub open spec fn opt_nodes(ns: Seq<NodeM>) -> Seq<NodeM>
    decreases ns, 0nat,
{
    if ns.len() == 0 {
        Seq::empty()
    } else {
        seq![opt_node(ns[0])] + opt_nodes(ns.drop_first())
    }
}

/// Whether every fold in a statement stays within 64 bits.
pub open spec fn node_folds_fit(n: NodeM) -> bool
    decreases n, 1nat,
{
    match n {
        NodeM::VarDecl { value, .. } => folds_fit(value),
        NodeM::IfStmt { condition, then_branch, else_branch } => folds_fit(condition) && match opt_expr(condition) {
            ExprM::Literal(ValueM::Bool(true)) => nodes_folds_fit(then_branch),
            ExprM::Literal(ValueM::Bool(false)) => match else_branch {
                Some(eb) => nodes_folds_fit(eb),
                None => true,
            },
            _ => nodes_folds_fit(then_branch) && match else_branch {
                Some(eb) => nodes_folds_fit(eb),
                None => true,
            },
        },
        NodeM::ReturnStmt(e) => folds_fit(e),
        NodeM::ModuleDecl { body, .. } => nodes_folds_fit(body),
        NodeM::ModuleDef { body, .. } => nodes_folds_fit(body),
        _ => true,
    }
}

pub open spec fn nodes_folds_fit(ns: Seq<NodeM>) -> bool
    decreases ns, 0nat,
{
    if ns.len() == 0 {
        true
    } else {
        node_folds_fit(ns[0]) && nodes_folds_fit(ns.drop_first())
    }
}

/// An optimised expression is a fixed point: optimising it again changes
/// nothing, no fold is left in it that could overflow, and it is no integer
/// literal in unfolded form.
pub proof fn lemma_opt_expr_fixed(e: ExprM)
    ensures
        opt_expr(opt_expr(e)) == opt_expr(e),
        folds_fit(opt_expr(e)),
        normalize_int(opt_expr(e)) == opt_expr(e),
    decreases e,
{
    match e {
        ExprM::Binary { left, op, right } => {
            lemma_opt_expr_fixed(*left);
            lemma_opt_expr_fixed(*right);
            let l = normalize_int(opt_expr(*left));
            let r = normalize_int(opt_expr(*right));
            assert(l == opt_expr(*left));
            assert(r == opt_expr(*right));
            match (l, r) {
                (ExprM::Literal(ValueM::Int(a)), ExprM::Literal(ValueM::Int(b))) => {
                    match fold_ints(op, a, b) {
                        Some(v) => {},
                        None => {
                            let o = ExprM::Binary { left: Box::new(l), op: op, right: Box::new(r) };
                            assert(opt_expr(e) == o);
                            assert(normalize_int(opt_expr(l)) == l);
                            assert(normalize_int(opt_expr(r)) == r);
                            assert(opt_expr(o) == o);
                            assert(fold_fits(op, a, b));
                        },
                    }
                },
                _ => {
                    let o = ExprM::Binary { left: Box::new(l), op: op, right: Box::new(r) };
                    assert(opt_expr(e) == o);
                    assert(normalize_int(opt_expr(l)) == l);
                    assert(normalize_int(opt_expr(r)) == r);
                    assert(opt_expr(o) == o);
                },
            }
        },
        _ => {},
    }
}

/// An optimised statement is a fixed point, with no fold left that could
/// overflow.
pub proof fn lemma_opt_node_fixed(n: NodeM)
    ensures
        opt_node(opt_node(n)) == opt_node(n),
        node_folds_fit(opt_node(n)),
    decreases n, 1nat,
{
    match n {
        NodeM::VarDecl { value, .. } => {
            lemma_opt_expr_fixed(value);
        },
        NodeM::IfStmt { condition, then_branch, else_branch } => {
            lemma_opt_expr_fixed(condition);
            lemma_opt_nodes_fixed(then_branch);
            match else_branch {
                Some(eb) => {
                    lemma_opt_nodes_fixed(eb);
                },
                None => {},
            }
        },
        NodeM::ReturnStmt(e) => {
            lemma_opt_expr_fixed(e);
        },
        NodeM::ModuleDecl { body, .. } => {
            lemma_opt_nodes_fixed(body);
        },
        NodeM::ModuleDef { body, .. } => {
            lemma_opt_nodes_fixed(body);
        },
        _ => {},
    }
}

pub proof fn lemma_opt_nodes_fixed(ns: Seq<NodeM>)
    ensures
        opt_nodes(opt_nodes(ns)) == opt_nodes(ns),
        nodes_folds_fit(opt_nodes(ns)),
    decreases ns, 0nat,
{
    if ns.len() > 0 {
        lemma_opt_node_fixed(ns[0]);
        assert(decreases_to!(ns => ns.drop_first()));
        lemma_opt_nodes_fixed(ns.drop_first());
        let o = opt_nodes(ns);
        assert(o[0] == opt_node(ns[0]));
        assert(o.drop_first() =~= opt_nodes(ns.drop_first()));
        assert(opt_nodes(o) =~= o);
    }
}

/// Optimising takes one pass: the optimised program has no fold left that
/// could overflow, and optimising it again changes nothing.
pub proof fn law_optimize_once(ns: Seq<NodeM>)
    ensures
        nodes_folds_fit(opt_nodes(ns)),
        opt_nodes(opt_nodes(ns)) == opt_nodes(ns),
{
    lemma_opt_nodes_fixed(ns);
}

/// Optimising keeps one statement for each statement of the program.
pub proof fn law_optimize_keeps_count(ns: Seq<NodeM>)
    ensures
        opt_nodes(ns).len() == ns.len(),
    decreases ns.len(),
{
    if ns.len() > 0 {
        law_optimize_keeps_count(ns.drop_first());
    }
}

/// The constant folder.
pub struct ASTOptimizer;

impl ASTOptimizer {
    pub fn new() -> (r: Self) {
        ASTOptimizer
    }

    /// Optimises each statement of a program.  Every fold must stay within
    /// 64 bits.
    pub fn optimize_program(&self, nodes: Vec<ASTNode>) -> (r: Vec<ASTNode>)
        requires
            nodes_folds_fit(nodes_m(nodes@)),
        ensures
            nodes_m(r@) == opt_nodes(nodes_m(nodes@)),
    {
        match self.optimize_nodes(&nodes) {
            Some(r) => r,
            None => Vec::new(),
        }
    }

    /// Optimises each statement of a program, or gives `None` where a fold
    /// would leave 64 bits.
    pub fn try_optimize_program(&self, nodes: Vec<ASTNode>) -> (r: Option<Vec<ASTNode>>)
        ensures
            match r {
                Some(v) => nodes_folds_fit(nodes_m(nodes@)) && nodes_m(v@) == opt_nodes(nodes_m(nodes@)),
                None => !nodes_folds_fit(nodes_m(nodes@)),
            },
    {
        self.optimize_nodes(&nodes)
    }

    fn optimize_nodes(&self, nodes: &Vec<ASTNode>) -> (r: Option<Vec<ASTNode>>)
        ensures
            match r {
                Some(v) => nodes_folds_fit(nodes_m(nodes@)) && nodes_m(v@) == opt_nodes(nodes_m(nodes@)),
                None => !nodes_folds_fit(nodes_m(nodes@)),
            },
        decreases nodes, 0nat,
    {
        let ghost nm = nodes_m(nodes@);
        proof {
            lemma_nodes_m(nodes@);
            assert(nm.subrange(0, nm.len() as int) =~= nm);
        }
        let mut out: Vec<ASTNode> = Vec::new();
        let mut i: usize = 0;
        assert(nodes_m(out@) + opt_nodes(nm) =~= opt_nodes(nm));
        while i < nodes.len()
            invariant
                i <= nodes@.len(),
                nm == nodes_m(nodes@),
                nm.len() == nodes@.len(),
                forall|q: int| 0 <= q < nodes@.len() ==> #[trigger] nm[q] == node_m(nodes@[q]),
                nodes_folds_fit(nm) == nodes_folds_fit(nm.subrange(i as int, nm.len() as int)),
                opt_nodes(nm) == nodes_m(out@) + opt_nodes(nm.subrange(i as int, nm.len() as int)),
            decreases nodes@.len() - i,
        {
            let ghost rest = nm.subrange(i as int, nm.len() as int);
            assert(rest[0] == nm[i as int]);
            assert(rest.drop_first() =~= nm.subrange(i + 1, nm.len() as int));
            assert(decreases_to!(*nodes => nodes@));
            assert(decreases_to!(nodes@ => nodes@[i as int]));
            let ghost before = nodes_m(out@);
            let c = match self.optimize_node(&nodes[i]) {
                Some(c) => c,
                None => {
                    return None;
                },
            };
            proof {
                lemma_nodes_m_push(out@, c);
            }
            out.push(c);
            assert(before + (seq![opt_node(rest[0])] + opt_nodes(rest.drop_first())) =~= nodes_m(out@) + opt_nodes(rest.drop_first()));
            i = i + 1;
        }
        assert(nodes_m(out@) + opt_nodes(nm.subrange(i as int, nm.len() as int)) =~= nodes_m(out@));
        Some(out)
    }

    fn optimize_list_opt(&self, nodes: &Option<Vec<ASTNode>>) -> (r: Option<Option<Vec<ASTNode>>>)
        ensures
            match nodes {
                Some(b) => match r {
                    Some(Some(v)) => nodes_folds_fit(nodes_m(b@)) && nodes_m(v@) == opt_nodes(nodes_m(b@)),
                    Some(None) => false,
                    None => !nodes_folds_fit(nodes_m(b@)),
                },
                None => r == Some(None::<Vec<ASTNode>>),
            },
        decreases nodes, 0nat,
    {
        match nodes {
            Some(b) => {
                assert(decreases_to!(*nodes => *b));
                match self.optimize_nodes(b) {
                    Some(v) => Some(Some(v)),
                    None => None,
                }
            },
            None => Some(None),
        }
    }

    fn optimize_node(&self, node: &ASTNode) -> (r: Option<ASTNode>)
        ensures
            match r {
                Some(x) => node_folds_fit(node@) && x@ == opt_node(node@),
                None => !node_folds_fit(node@),
            },
        decreases node, 1nat,
    {
        match node {
            ASTNode::VarDecl { name, data_type, value, .. } => {
                let dt = match data_type {
                    Some(d) => Some(d.clone()),
                    None => None,
                };
                match self.optimize_expr(value) {
                    Some(v) => Some(ASTNode::VarDecl { name: name.clone(), data_type: dt, value: v, access_level: AccessModifier::Private }),
                    None => None,
                }
            },
            ASTNode::IfStmt { condition, then_branch, else_branch } => {
                let c = match self.optimize_expr(condition) {
                    Some(c) => c,
                    None => {
                        return None;
                    },
                };
                match c {
                    Expression::Literal(Value::Bool(true)) => match self.optimize_nodes(then_branch) {
                        Some(v) => Some(ASTNode::Block(v)),
                        None => None,
                    },
                    Expression::Literal(Value::Bool(false)) => match else_branch {
                        Some(eb) => match self.optimize_nodes(eb) {
                            Some(v) => Some(ASTNode::Block(v)),
                            None => None,
                        },
                        None => Some(ASTNode::NoOp),
                    },
                    c => {
                        let tb = match self.optimize_nodes(then_branch) {
                            Some(v) => v,
                            None => {
                                return None;
                            },
                        };
                        let eb = match self.optimize_list_opt(else_branch) {
                            Some(e) => e,
                            None => {
                                return None;
                            },
                        };
                        Some(ASTNode::IfStmt { condition: c, then_branch: tb, else_branch: eb })
                    },
                }
            },
            ASTNode::ReturnStmt(e) => match self.optimize_expr(e) {
                Some(v) => Some(ASTNode::ReturnStmt(v)),
                None => None,
            },
            ASTNode::ModuleDecl { name, body } => match self.optimize_nodes(body) {
                Some(v) => Some(ASTNode::ModuleDecl { name: name.clone(), body: v }),
                None => None,
            },
            ASTNode::ModuleDef { name, body } => match self.optimize_nodes(body) {
                Some(v) => Some(ASTNode::ModuleDef { name: name.clone(), body: v }),
                None => None,
            },
            _ => Some(clone_node(node)),
        }
    }

    fn normalize_int(e: Expression) -> (r: Expression)
        ensures
            r@ == normalize_int(e@),
    {
        match e {
            Expression::IntLiteral(n) => Expression::Literal(Value::Int(n)),
            other => other,
        }
    }

    fn optimize_expr(&self, expr: &Expression) -> (r: Option<Expression>)
        ensures
            match r {
                Some(x) => folds_fit(expr@) && x@ == opt_expr(expr@),
                None => !folds_fit(expr@),
            },
        decreases expr,
    {
        match expr {
            Expression::Binary { left, op, right } => {
                let l = match self.optimize_expr(&**left) {
                    Some(x) => Self::normalize_int(x),
                    None => {
                        return None;
                    },
                };
                let r = match self.optimize_expr(&**right) {
                    Some(x) => Self::normalize_int(x),
                    None => {
                        return None;
                    },
                };
                let folded: Option<Option<Value>> = match (&l, &r) {
                    (Expression::Literal(Value::Int(a)), Expression::Literal(Value::Int(b))) => {
                        let (a, b) = (*a, *b);
                        if str_eq(op.as_str(), "+") {
                            match a.checked_add(b) {
                                Some(s) => Some(Some(Value::Int(s))),
                                None => None,
                            }
                        } else if str_eq(op.as_str(), "-") {
                            match a.checked_sub(b) {
                                Some(s) => Some(Some(Value::Int(s))),
                                None => None,
                            }
                        } else if str_eq(op.as_str(), "*") {
                            match a.checked_mul(b) {
                                Some(s) => Some(Some(Value::Int(s))),
                                None => None,
                            }
                        } else if str_eq(op.as_str(), "/") {
                            if b == 0 {
                                Some(None)
                            } else if a == i64::MIN && b == -1 {
                                None
                            } else {
                                Some(Some(Value::Int(trunc_div_i64(a, b))))
                            }
                        } else if str_eq(op.as_str(), "==") {
                            Some(Some(Value::Bool(a == b)))
                        } else {
                            Some(None)
                        }
                    },
                    _ => Some(None),
                };
                match folded {
                    Some(Some(v)) => Some(Expression::Literal(v)),
                    Some(None) => Some(Expression::Binary { left: Box::new(l), op: op.clone(), right: Box::new(r) }),
                    None => None,
                }
            },
            Expression::IntLiteral(n) => Some(Expression::Literal(Value::Int(*n))),
            _ => Some(clone_expr(expr)),
        }
    }
}

/// Rust's `/` on 64-bit integers, rounding toward zero.
pub(crate) fn trunc_div_i64(a: i64, b: i64) -> (q: i64)
    requires
        b != 0,
        !(a == i64::MIN && b == -1),
    ensures
        q == trunc_div(a as int, b as int),
{
    let a2 = a as i128;
    let b2 = b as i128;
    let ua = if a2 < 0 { -a2 } else { a2 };
    let ub = if b2 < 0 { -b2 } else { b2 };
    let uq = ua / ub;
    assert(uq <= ua) by (nonlinear_arith)
        requires
            ua >= 0,
            ub >= 1,
            uq == ua / ub,
    ;
    assert(ub >= 2 ==> uq <= ua / 2) by (nonlinear_arith)
        requires
            ua >= 0,
            ub >= 1,
            uq == ua / ub,
    ;
    let q = if (a2 < 0) != (b2 < 0) { -uq } else { uq };
    q as i64
}

} // verus!
