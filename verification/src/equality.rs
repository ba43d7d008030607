//! Structural equality of syntax trees and values, decided on their models.
use vstd::prelude::*;
use crate::ast::{ASTNode, Expression, AccessModifier, expr_m, exprs_m, arms_m, node_m, nodes_m, strs_m,
    pairs_m, variants_m, sigs_m, opt_str_m, lemma_exprs_m, lemma_arms_m, lemma_nodes_m};
use crate::vm::{Value, value_m, fields_m, lemma_fields_m};
use crate::util::str_eq;

verus! {

pub fn access_eq(a: &AccessModifier, b: &AccessModifier) -> (r: bool)
    ensures
        r == (*a == *b),
{
    match a {
        AccessModifier::Public => match b {
            AccessModifier::Public => true,
            _ => false,
        },
        AccessModifier::Private => match b {
            AccessModifier::Private => true,
            _ => false,
        },
        AccessModifier::Protected => match b {
            AccessModifier::Protected => true,
            _ => false,
        },
    }
}

pub fn opt_str_eq(a: &Option<String>, b: &Option<String>) -> (r: bool)
    ensures
        r == (opt_str_m(*a) == opt_str_m(*b)),
{
    match a {
        Some(x) => match b {
            Some(y) => str_eq(x.as_str(), y.as_str()),
            None => false,
        },
        None => match b {
            Some(_) => false,
            None => true,
        },
    }
}

pub fn strings_eq(a: &Vec<String>, b: &Vec<String>) -> (r: bool)
    ensures
        r == (strs_m(a@) == strs_m(b@)),
{
    if a.len() != b.len() {
        assert(strs_m(a@).len() != strs_m(b@).len());
        return false;
    }
    let mut i: usize = 0;
    while i < a.len()
        invariant
            i <= a@.len(),
            a@.len() == b@.len(),
            forall|q: int| 0 <= q < i ==> #[trigger] a@[q]@ == b@[q]@,
        decreases a@.len() - i,
    {
        if !str_eq(a[i].as_str(), b[i].as_str()) {
            assert(strs_m(a@)[i as int] != strs_m(b@)[i as int]);
            return false;
        }
        i = i + 1;
    }
    assert(strs_m(a@) =~= strs_m(b@));
    true
}

pub fn pairs_eq(a: &Vec<(String, String)>, b: &Vec<(String, String)>) -> (r: bool)
    ensures
        r == (pairs_m(a@) == pairs_m(b@)),
{
    if a.len() != b.len() {
        assert(pairs_m(a@).len() != pairs_m(b@).len());
        return false;
    }
    let mut i: usize = 0;
    while i < a.len()
        invariant
            i <= a@.len(),
            a@.len() == b@.len(),
            forall|q: int| 0 <= q < i ==> #[trigger] pairs_m(a@)[q] == pairs_m(b@)[q],
        decreases a@.len() - i,
    {
        let same = str_eq(a[i].0.as_str(), b[i].0.as_str()) && str_eq(a[i].1.as_str(), b[i].1.as_str());
        assert(same == (pairs_m(a@)[i as int] == pairs_m(b@)[i as int]));
        if !same {
            return false;
        }
        i = i + 1;
    }
    assert(pairs_m(a@) =~= pairs_m(b@));
    true
}

fn opt_strings_eq(a: &Option<Vec<String>>, b: &Option<Vec<String>>) -> (r: bool)
    ensures
        r == ((match *a { Some(v) => Some(strs_m(v@)), None => None::<Seq<Seq<char>>> })
            == (match *b { Some(v) => Some(strs_m(v@)), None => None::<Seq<Seq<char>>> })),
{
    match a {
        Some(x) => match b {
            Some(y) => strings_eq(x, y),
            None => false,
        },
        None => match b {
            Some(_) => false,
            None => true,
        },
    }
}

fn variants_eq(a: &Vec<(String, Option<Vec<String>>)>, b: &Vec<(String, Option<Vec<String>>)>) -> (r: bool)
    ensures
        r == (variants_m(a@) == variants_m(b@)),
{
    if a.len() != b.len() {
        assert(variants_m(a@).len() != variants_m(b@).len());
        return false;
    }
    let mut i: usize = 0;
    while i < a.len()
        invariant
            i <= a@.len(),
            a@.len() == b@.len(),
            forall|q: int| 0 <= q < i ==> #[trigger] variants_m(a@)[q] == variants_m(b@)[q],
        decreases a@.len() - i,
    {
        let same = str_eq(a[i].0.as_str(), b[i].0.as_str()) && opt_strings_eq(&a[i].1, &b[i].1);
        assert(same == (variants_m(a@)[i as int] == variants_m(b@)[i as int]));
        if !same {
            return false;
        }
        i = i + 1;
    }
    assert(variants_m(a@) =~= variants_m(b@));
    true
}

fn sigs_eq(a: &Vec<(String, Vec<(String, String)>, String)>, b: &Vec<(String, Vec<(String, String)>, String)>) -> (r: bool)
    ensures
        r == (sigs_m(a@) == sigs_m(b@)),
{
    if a.len() != b.len() {
        assert(sigs_m(a@).len() != sigs_m(b@).len());
        return false;
    }
    let mut i: usize = 0;
    while i < a.len()
        invariant
            i <= a@.len(),
            a@.len() == b@.len(),
            forall|q: int| 0 <= q < i ==> #[trigger] sigs_m(a@)[q] == sigs_m(b@)[q],
        decreases a@.len() - i,
    {
        let same = str_eq(a[i].0.as_str(), b[i].0.as_str()) && pairs_eq(&a[i].1, &b[i].1)
            && str_eq(a[i].2.as_str(), b[i].2.as_str());
        assert(same == (sigs_m(a@)[i as int] == sigs_m(b@)[i as int]));
        if !same {
            return false;
        }
        i = i + 1;
    }
    assert(sigs_m(a@) =~= sigs_m(b@));
    true
}

pub fn value_eq(a: &Value, b: &Value) -> (r: bool)
    ensures
        r == (a@ == b@),
    decreases a,
{
    match a {
        Value::Null => match b {
            Value::Null => true,
            _ => false,
        },
        Value::Int(x) => match b {
            Value::Int(y) => *x == *y,
            _ => false,
        },
        Value::Float(x) => match b {
            Value::Float(y) => *x == *y,
            _ => false,
        },
        Value::Bool(x) => match b {
            Value::Bool(y) => *x == *y,
            _ => false,
        },
        Value::Str(x) => match b {
            Value::Str(y) => str_eq(x.as_str(), y.as_str()),
            _ => false,
        },
        Value::Func(x) => match b {
            Value::Func(y) => *x == *y,
            _ => false,
        },
        Value::Enum(n1, p1) => match b {
            Value::Enum(n2, p2) => str_eq(n1.as_str(), n2.as_str()) && value_eq(&**p1, &**p2),
            _ => false,
        },
        Value::Struct(f1) => match b {
            Value::Struct(f2) => fields_eq(f1, f2),
            _ => false,
        },
    }
}

pub fn fields_eq(a: &Vec<(String, Value)>, b: &Vec<(String, Value)>) -> (r: bool)
    ensures
        r == (fields_m(a@) == fields_m(b@)),
    decreases a,
{
    proof {
        lemma_fields_m(a@);
        lemma_fields_m(b@);
    }
    if a.len() != b.len() {
        return false;
    }
    let mut i: usize = 0;
    while i < a.len()
        invariant
            i <= a@.len(),
            a@.len() == b@.len(),
            fields_m(a@).len() == a@.len(),
            fields_m(b@).len() == b@.len(),
            forall|q: int| 0 <= q < a@.len() ==> #[trigger] fields_m(a@)[q] == (a@[q].0@, value_m(a@[q].1)),
            forall|q: int| 0 <= q < b@.len() ==> #[trigger] fields_m(b@)[q] == (b@[q].0@, value_m(b@[q].1)),
            forall|q: int| 0 <= q < i ==> #[trigger] fields_m(a@)[q] == fields_m(b@)[q],
        decreases a@.len() - i,
    {
        assert(decreases_to!(a => a@[i as int].1));
        let same = str_eq(a[i].0.as_str(), b[i].0.as_str()) && value_eq(&a[i].1, &b[i].1);
        assert(same == (fields_m(a@)[i as int] == fields_m(b@)[i as int]));
        if !same {
            return false;
        }
        i = i + 1;
    }
    assert(fields_m(a@) =~= fields_m(b@));
    true
}

pub fn expr_eq(a: &Expression, b: &Expression) -> (r: bool)
    ensures
        r == (a@ == b@),
    decreases a,
{
    match a {
        Expression::Literal(x) => match b {
            Expression::Literal(y) => value_eq(x, y),
            _ => false,
        },
        Expression::IntLiteral(x) => match b {
            Expression::IntLiteral(y) => *x == *y,
            _ => false,
        },
        Expression::Variable(x) => match b {
            Expression::Variable(y) => str_eq(x.as_str(), y.as_str()),
            _ => false,
        },
        Expression::Binary { left: l1, op: o1, right: r1 } => match b {
            Expression::Binary { left: l2, op: o2, right: r2 } =>
                expr_eq(&**l1, &**l2) && str_eq(o1.as_str(), o2.as_str()) && expr_eq(&**r1, &**r2),
            _ => false,
        },
        Expression::FieldAccess { object: o1, field: f1 } => match b {
            Expression::FieldAccess { object: o2, field: f2 } =>
                expr_eq(&**o1, &**o2) && str_eq(f1.as_str(), f2.as_str()),
            _ => false,
        },
        Expression::Call { name: n1, args: a1 } => match b {
            Expression::Call { name: n2, args: a2 } => str_eq(n1.as_str(), n2.as_str()) && exprs_eq(a1, a2),
            _ => false,
        },
        Expression::GenericCall { name: n1, concrete_types: c1, args: a1 } => match b {
            Expression::GenericCall { name: n2, concrete_types: c2, args: a2 } =>
                str_eq(n1.as_str(), n2.as_str()) && strings_eq(c1, c2) && exprs_eq(a1, a2),
            _ => false,
        },
        Expression::MethodCall { instance: i1, method_name: m1, args: a1 } => match b {
            Expression::MethodCall { instance: i2, method_name: m2, args: a2 } =>
                expr_eq(&**i1, &**i2) && str_eq(m1.as_str(), m2.as_str()) && exprs_eq(a1, a2),
            _ => false,
        },
        Expression::BorrowExpr { target: t1, is_mutable: m1 } => match b {
            Expression::BorrowExpr { target: t2, is_mutable: m2 } => str_eq(t1.as_str(), t2.as_str()) && *m1 == *m2,
            _ => false,
        },
        Expression::MatchExpr { eval_target: e1, arms: a1 } => match b {
            Expression::MatchExpr { eval_target: e2, arms: a2 } => expr_eq(&**e1, &**e2) && arms_eq(a1, a2),
            _ => false,
        },
        Expression::AwaitExpr { target_future: t1 } => match b {
            Expression::AwaitExpr { target_future: t2 } => expr_eq(&**t1, &**t2),
            _ => false,
        },
    }
}

pub fn exprs_eq(a: &Vec<Expression>, b: &Vec<Expression>) -> (r: bool)
    ensures
        r == (exprs_m(a@) == exprs_m(b@)),
    decreases a,
{
    proof {
        lemma_exprs_m(a@);
        lemma_exprs_m(b@);
    }
    if a.len() != b.len() {
        return false;
    }
    let mut i: usize = 0;
    while i < a.len()
        invariant
            i <= a@.len(),
            a@.len() == b@.len(),
            exprs_m(a@).len() == a@.len(),
            exprs_m(b@).len() == b@.len(),
            forall|q: int| 0 <= q < a@.len() ==> #[trigger] exprs_m(a@)[q] == expr_m(a@[q]),
            forall|q: int| 0 <= q < b@.len() ==> #[trigger] exprs_m(b@)[q] == expr_m(b@[q]),
            forall|q: int| 0 <= q < i ==> #[trigger] exprs_m(a@)[q] == exprs_m(b@)[q],
        decreases a@.len() - i,
    {
        assert(decreases_to!(a => a@[i as int]));
        if !expr_eq(&a[i], &b[i]) {
            assert(exprs_m(a@)[i as int] != exprs_m(b@)[i as int]);
            return false;
        }
        i = i + 1;
    }
    assert(exprs_m(a@) =~= exprs_m(b@));
    true
}

fn arms_eq(a: &Vec<(String, Vec<String>, Expression)>, b: &Vec<(String, Vec<String>, Expression)>) -> (r: bool)
    ensures
        r == (arms_m(a@) == arms_m(b@)),
    decreases a,
{
    proof {
        lemma_arms_m(a@);
        lemma_arms_m(b@);
    }
    if a.len() != b.len() {
        return false;
    }
    let mut i: usize = 0;
    while i < a.len()
        invariant
            i <= a@.len(),
            a@.len() == b@.len(),
            arms_m(a@).len() == a@.len(),
            arms_m(b@).len() == b@.len(),
            forall|q: int| 0 <= q < a@.len() ==> #[trigger] arms_m(a@)[q] == (a@[q].0@, strs_m(a@[q].1@), expr_m(a@[q].2)),
            forall|q: int| 0 <= q < b@.len() ==> #[trigger] arms_m(b@)[q] == (b@[q].0@, strs_m(b@[q].1@), expr_m(b@[q].2)),
            forall|q: int| 0 <= q < i ==> #[trigger] arms_m(a@)[q] == arms_m(b@)[q],
        decreases a@.len() - i,
    {
        assert(decreases_to!(a => a@[i as int].2));
        let same = str_eq(a[i].0.as_str(), b[i].0.as_str()) && strings_eq(&a[i].1, &b[i].1)
            && expr_eq(&a[i].2, &b[i].2);
        assert(same == (arms_m(a@)[i as int] == arms_m(b@)[i as int]));
        if !same {
            return false;
        }
        i = i + 1;
    }
    assert(arms_m(a@) =~= arms_m(b@));
    true
}

fn opt_nodes_eq(a: &Option<Vec<ASTNode>>, b: &Option<Vec<ASTNode>>) -> (r: bool)
    ensures
        r == ((match *a { Some(v) => Some(nodes_m(v@)), None => None::<Seq<crate::ast::NodeM>> })
            == (match *b { Some(v) => Some(nodes_m(v@)), None => None::<Seq<crate::ast::NodeM>> })),
    decreases a,
{
    match a {
        Some(x) => match b {
            Some(y) => nodes_eq(x, y),
            None => false,
        },
        None => match b {
            Some(_) => false,
            None => true,
        },
    }
}

pub fn node_eq(a: &ASTNode, b: &ASTNode) -> (r: bool)
    ensures
        r == (a@ == b@),
    decreases a,
{
    match a {
        ASTNode::VarDecl { name: n1, data_type: d1, value: v1, access_level: x1 } => match b {
            ASTNode::VarDecl { name: n2, data_type: d2, value: v2, access_level: x2 } =>
                str_eq(n1.as_str(), n2.as_str()) && opt_str_eq(d1, d2) && expr_eq(v1, v2) && access_eq(x1, x2),
            _ => false,
        },
        ASTNode::FuncDecl { name: n1, parameters: p1, return_type: t1, body: b1, access_level: x1 } => match b {
            ASTNode::FuncDecl { name: n2, parameters: p2, return_type: t2, body: b2, access_level: x2 } =>
                str_eq(n1.as_str(), n2.as_str()) && pairs_eq(p1, p2) && str_eq(t1.as_str(), t2.as_str())
                    && nodes_eq(b1, b2) && access_eq(x1, x2),
            _ => false,
        },
        ASTNode::GenericFuncDecl { name: n1, type_params: g1, parameters: p1, return_type: t1, body: b1, access_level: x1 } => match b {
            ASTNode::GenericFuncDecl { name: n2, type_params: g2, parameters: p2, return_type: t2, body: b2, access_level: x2 } =>
                str_eq(n1.as_str(), n2.as_str()) && strings_eq(g1, g2) && pairs_eq(p1, p2)
                    && str_eq(t1.as_str(), t2.as_str()) && nodes_eq(b1, b2) && access_eq(x1, x2),
            _ => false,
        },
        ASTNode::AsyncFuncDecl { name: n1, parameters: p1, return_type: t1, body: b1, access_level: x1 } => match b {
            ASTNode::AsyncFuncDecl { name: n2, parameters: p2, return_type: t2, body: b2, access_level: x2 } =>
                str_eq(n1.as_str(), n2.as_str()) && pairs_eq(p1, p2) && str_eq(t1.as_str(), t2.as_str())
                    && nodes_eq(b1, b2) && access_eq(x1, x2),
            _ => false,
        },
        ASTNode::StructDecl { name: n1, attributes: a1, fields: f1, access_level: x1 } => match b {
            ASTNode::StructDecl { name: n2, attributes: a2, fields: f2, access_level: x2 } =>
                str_eq(n1.as_str(), n2.as_str()) && strings_eq(a1, a2) && pairs_eq(f1, f2) && access_eq(x1, x2),
            _ => false,
        },
        ASTNode::TraitDecl { name: n1, method_signatures: s1, access_level: x1 } => match b {
            ASTNode::TraitDecl { name: n2, method_signatures: s2, access_level: x2 } =>
                str_eq(n1.as_str(), n2.as_str()) && sigs_eq(s1, s2) && access_eq(x1, x2),
            _ => false,
        },
        ASTNode::ImplBlock { trait_name: n1, target_type: t1, methods: m1 } => match b {
            ASTNode::ImplBlock { trait_name: n2, target_type: t2, methods: m2 } =>
                str_eq(n1.as_str(), n2.as_str()) && str_eq(t1.as_str(), t2.as_str()) && nodes_eq(m1, m2),
            _ => false,
        },
        ASTNode::EnumDecl { name: n1, variants: v1, access_level: x1 } => match b {
            ASTNode::EnumDecl { name: n2, variants: v2, access_level: x2 } =>
                str_eq(n1.as_str(), n2.as_str()) && variants_eq(v1, v2) && access_eq(x1, x2),
            _ => false,
        },
        ASTNode::IfStmt { condition: c1, then_branch: t1, else_branch: e1 } => match b {
            ASTNode::IfStmt { condition: c2, then_branch: t2, else_branch: e2 } =>
                expr_eq(c1, c2) && nodes_eq(t1, t2) && opt_nodes_eq(e1, e2),
            _ => false,
        },
        ASTNode::WhileStmt { condition: c1, body: b1 } => match b {
            ASTNode::WhileStmt { condition: c2, body: b2 } => expr_eq(c1, c2) && nodes_eq(b1, b2),
            _ => false,
        },
        ASTNode::ModuleDecl { name: n1, body: b1 } => match b {
            ASTNode::ModuleDecl { name: n2, body: b2 } => str_eq(n1.as_str(), n2.as_str()) && nodes_eq(b1, b2),
            _ => false,
        },
        ASTNode::ModuleDef { name: n1, body: b1 } => match b {
            ASTNode::ModuleDef { name: n2, body: b2 } => str_eq(n1.as_str(), n2.as_str()) && nodes_eq(b1, b2),
            _ => false,
        },
        ASTNode::ImportDecl { file_path: f1, namespace_alias: n1 } => match b {
            ASTNode::ImportDecl { file_path: f2, namespace_alias: n2 } =>
                str_eq(f1.as_str(), f2.as_str()) && str_eq(n1.as_str(), n2.as_str()),
            _ => false,
        },
        ASTNode::SpawnStmt(e1) => match b {
            ASTNode::SpawnStmt(e2) => expr_eq(e1, e2),
            _ => false,
        },
        ASTNode::DelayStmt(e1) => match b {
            ASTNode::DelayStmt(e2) => expr_eq(e1, e2),
            _ => false,
        },
        ASTNode::ReturnStmt(e1) => match b {
            ASTNode::ReturnStmt(e2) => expr_eq(e1, e2),
            _ => false,
        },
        ASTNode::FFIDecl { library_path: l1, symbol_name: s1, parameters: p1, return_type: t1, access_level: x1 } => match b {
            ASTNode::FFIDecl { library_path: l2, symbol_name: s2, parameters: p2, return_type: t2, access_level: x2 } =>
                str_eq(l1.as_str(), l2.as_str()) && str_eq(s1.as_str(), s2.as_str()) && pairs_eq(p1, p2)
                    && str_eq(t1.as_str(), t2.as_str()) && access_eq(x1, x2),
            _ => false,
        },
        ASTNode::StatementExpr(e1) => match b {
            ASTNode::StatementExpr(e2) => expr_eq(e1, e2),
            _ => false,
        },
        ASTNode::Block(b1) => match b {
            ASTNode::Block(b2) => nodes_eq(b1, b2),
            _ => false,
        },
        ASTNode::MacroDecl { name: n1, params: p1, body: b1 } => match b {
            ASTNode::MacroDecl { name: n2, params: p2, body: b2 } =>
                str_eq(n1.as_str(), n2.as_str()) && strings_eq(p1, p2) && nodes_eq(b1, b2),
            _ => false,
        },
        ASTNode::MacroCall { name: n1, args: a1 } => match b {
            ASTNode::MacroCall { name: n2, args: a2 } => str_eq(n1.as_str(), n2.as_str()) && exprs_eq(a1, a2),
            _ => false,
        },
        ASTNode::NoOp => match b {
            ASTNode::NoOp => true,
            _ => false,
        },
    }
}

pub fn nodes_eq(a: &Vec<ASTNode>, b: &Vec<ASTNode>) -> (r: bool)
    ensures
        r == (nodes_m(a@) == nodes_m(b@)),
    decreases a,
{
    proof {
        lemma_nodes_m(a@);
        lemma_nodes_m(b@);
    }
    if a.len() != b.len() {
        return false;
    }
    let mut i: usize = 0;
    while i < a.len()
        invariant
            i <= a@.len(),
            a@.len() == b@.len(),
            nodes_m(a@).len() == a@.len(),
            nodes_m(b@).len() == b@.len(),
            forall|q: int| 0 <= q < a@.len() ==> #[trigger] nodes_m(a@)[q] == node_m(a@[q]),
            forall|q: int| 0 <= q < b@.len() ==> #[trigger] nodes_m(b@)[q] == node_m(b@[q]),
            forall|q: int| 0 <= q < i ==> #[trigger] nodes_m(a@)[q] == nodes_m(b@)[q],
        decreases a@.len() - i,
    {
        assert(decreases_to!(a => a@[i as int]));
        if !node_eq(&a[i], &b[i]) {
            assert(nodes_m(a@)[i as int] != nodes_m(b@)[i as int]);
            return false;
        }
        i = i + 1;
    }
    assert(nodes_m(a@) =~= nodes_m(b@));
    true
}

} // verus!
