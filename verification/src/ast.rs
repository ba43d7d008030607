//! The abstract syntax tree of Vyākṛti programs.
use vstd::prelude::*;
use crate::vm::{Value, ValueM, value_m, clone_value};

verus! {

/// Access modifiers mapped from Vedic Svara markers.
/// उदात्त = public, अनुदात्त = private, स्वरित = protected.
#[derive(Debug, Clone, Copy, PartialEq, Eq)]
pub enum AccessModifier {
    Public,
    Private,
    Protected,
}

#[derive(Debug, PartialEq)]
pub enum ASTNode {
    VarDecl { name: String, data_type: Option<String>, value: Expression, access_level: AccessModifier },
    FuncDecl {
        name: String,
        parameters: Vec<(String, String)>,
        return_type: String,
        body: Vec<ASTNode>,
        access_level: AccessModifier,
    },
    GenericFuncDecl {
        name: String,
        type_params: Vec<String>,
        parameters: Vec<(String, String)>,
        return_type: String,
        body: Vec<ASTNode>,
        access_level: AccessModifier,
    },
    AsyncFuncDecl {
        name: String,
        parameters: Vec<(String, String)>,
        return_type: String,
        body: Vec<ASTNode>,
        access_level: AccessModifier,
    },
    StructDecl { name: String, attributes: Vec<String>, fields: Vec<(String, String)>, access_level: AccessModifier },
    TraitDecl {
        name: String,
        method_signatures: Vec<(String, Vec<(String, String)>, String)>,
        access_level: AccessModifier,
    },
    ImplBlock { trait_name: String, target_type: String, methods: Vec<ASTNode> },
    EnumDecl { name: String, variants: Vec<(String, Option<Vec<String>>)>, access_level: AccessModifier },
    IfStmt { condition: Expression, then_branch: Vec<ASTNode>, else_branch: Option<Vec<ASTNode>> },
    WhileStmt { condition: Expression, body: Vec<ASTNode> },
    ModuleDecl { name: String, body: Vec<ASTNode> },
    ModuleDef { name: String, body: Vec<ASTNode> },
    ImportDecl { file_path: String, namespace_alias: String },
    SpawnStmt(Expression),
    DelayStmt(Expression),
    ReturnStmt(Expression),
    FFIDecl {
        library_path: String,
        symbol_name: String,
        parameters: Vec<(String, String)>,
        return_type: String,
        access_level: AccessModifier,
    },
    StatementExpr(Expression),
    Block(Vec<ASTNode>),
    MacroDecl { name: String, params: Vec<String>, body: Vec<ASTNode> },
    MacroCall { name: String, args: Vec<Expression> },
    NoOp,
}

#[derive(Debug, PartialEq)]
pub enum Expression {
    Literal(Value),
    IntLiteral(i64),
    Variable(String),
    Binary { left: Box<Expression>, op: String, right: Box<Expression> },
    FieldAccess { object: Box<Expression>, field: String },
    Call { name: String, args: Vec<Expression> },
    GenericCall { name: String, concrete_types: Vec<String>, args: Vec<Expression> },
    MethodCall { instance: Box<Expression>, method_name: String, args: Vec<Expression> },
    BorrowExpr { target: String, is_mutable: bool },
    MatchExpr { eval_target: Box<Expression>, arms: Vec<(String, Vec<String>, Expression)> },
    AwaitExpr { target_future: Box<Expression> },
}


/// Model of a list of strings.
pub open spec fn strs_m(s: Seq<String>) -> Seq<Seq<char>> {
    s.map_values(|x: String| x@)
}

/// Model of a list of string pairs.
pub open spec fn pairs_m(s: Seq<(String, String)>) -> Seq<(Seq<char>, Seq<char>)> {
    s.map_values(|x: (String, String)| (x.0@, x.1@))
}

pub open spec fn opt_str_m(o: Option<String>) -> Option<Seq<char>> {
    match o {
        Some(x) => Some(x@),
        None => None,
    }
}

pub open spec fn variants_m(s: Seq<(String, Option<Vec<String>>)>) -> Seq<(Seq<char>, Option<Seq<Seq<char>>>)> {
    s.map_values(|x: (String, Option<Vec<String>>)| (x.0@, match x.1 { Some(v) => Some(strs_m(v@)), None => None }))
}

pub open spec fn sigs_m(s: Seq<(String, Vec<(String, String)>, String)>) -> Seq<(Seq<char>, Seq<(Seq<char>, Seq<char>)>, Seq<char>)> {
    s.map_values(|x: (String, Vec<(String, String)>, String)| (x.0@, pairs_m(x.1@), x.2@))
}

/// The mathematical model of an expression.
pub enum ExprM {
    Literal(ValueM),
    IntLiteral(i64),
    Variable(Seq<char>),
    Binary { left: Box<ExprM>, op: Seq<char>, right: Box<ExprM> },
    FieldAccess { object: Box<ExprM>, field: Seq<char> },
    Call { name: Seq<char>, args: Seq<ExprM> },
    GenericCall { name: Seq<char>, concrete_types: Seq<Seq<char>>, args: Seq<ExprM> },
    MethodCall { instance: Box<ExprM>, method_name: Seq<char>, args: Seq<ExprM> },
    BorrowExpr { target: Seq<char>, is_mutable: bool },
    MatchExpr { eval_target: Box<ExprM>, arms: Seq<(Seq<char>, Seq<Seq<char>>, ExprM)> },
    AwaitExpr { target_future: Box<ExprM> },
}

/// The mathematical model of a statement.
pub enum NodeM {
    VarDecl { name: Seq<char>, data_type: Option<Seq<char>>, value: ExprM, access_level: AccessModifier },
    FuncDecl { name: Seq<char>, parameters: Seq<(Seq<char>, Seq<char>)>, return_type: Seq<char>, body: Seq<NodeM>, access_level: AccessModifier },
    GenericFuncDecl { name: Seq<char>, type_params: Seq<Seq<char>>, parameters: Seq<(Seq<char>, Seq<char>)>, return_type: Seq<char>, body: Seq<NodeM>, access_level: AccessModifier },
    AsyncFuncDecl { name: Seq<char>, parameters: Seq<(Seq<char>, Seq<char>)>, return_type: Seq<char>, body: Seq<NodeM>, access_level: AccessModifier },
    StructDecl { name: Seq<char>, attributes: Seq<Seq<char>>, fields: Seq<(Seq<char>, Seq<char>)>, access_level: AccessModifier },
    TraitDecl { name: Seq<char>, method_signatures: Seq<(Seq<char>, Seq<(Seq<char>, Seq<char>)>, Seq<char>)>, access_level: AccessModifier },
    ImplBlock { trait_name: Seq<char>, target_type: Seq<char>, methods: Seq<NodeM> },
    EnumDecl { name: Seq<char>, variants: Seq<(Seq<char>, Option<Seq<Seq<char>>>)>, access_level: AccessModifier },
    IfStmt { condition: ExprM, then_branch: Seq<NodeM>, else_branch: Option<Seq<NodeM>> },
    WhileStmt { condition: ExprM, body: Seq<NodeM> },
    ModuleDecl { name: Seq<char>, body: Seq<NodeM> },
    ModuleDef { name: Seq<char>, body: Seq<NodeM> },
    ImportDecl { file_path: Seq<char>, namespace_alias: Seq<char> },
    SpawnStmt(ExprM),
    DelayStmt(ExprM),
    ReturnStmt(ExprM),
    FFIDecl { library_path: Seq<char>, symbol_name: Seq<char>, parameters: Seq<(Seq<char>, Seq<char>)>, return_type: Seq<char>, access_level: AccessModifier },
    StatementExpr(ExprM),
    Block(Seq<NodeM>),
    MacroDecl { name: Seq<char>, params: Seq<Seq<char>>, body: Seq<NodeM> },
    MacroCall { name: Seq<char>, args: Seq<ExprM> },
    NoOp,
}

pub open spec fn expr_m(e: Expression) -> ExprM
    decreases e,
{
    match e {
        Expression::Literal(v) => ExprM::Literal(value_m(v)),
        Expression::IntLiteral(n) => ExprM::IntLiteral(n),
        Expression::Variable(s) => ExprM::Variable(s@),
        Expression::Binary { left, op, right } => ExprM::Binary { left: Box::new(expr_m(*left)), op: op@, right: Box::new(expr_m(*right)) },
        Expression::FieldAccess { object, field } => ExprM::FieldAccess { object: Box::new(expr_m(*object)), field: field@ },
        Expression::Call { name, args } => ExprM::Call { name: name@, args: exprs_m(args@) },
        Expression::GenericCall { name, concrete_types, args } => ExprM::GenericCall { name: name@, concrete_types: strs_m(concrete_types@), args: exprs_m(args@) },
        Expression::MethodCall { instance, method_name, args } => ExprM::MethodCall { instance: Box::new(expr_m(*instance)), method_name: method_name@, args: exprs_m(args@) },
        Expression::BorrowExpr { target, is_mutable } => ExprM::BorrowExpr { target: target@, is_mutable },
        Expression::MatchExpr { eval_target, arms } => ExprM::MatchExpr { eval_target: Box::new(expr_m(*eval_target)), arms: arms_m(arms@) },
        Expression::AwaitExpr { target_future } => ExprM::AwaitExpr { target_future: Box::new(expr_m(*target_future)) },
    }
}

pub open spec fn exprs_m(s: Seq<Expression>) -> Seq<ExprM>
    decreases s,
{
    if s.len() == 0 {
        Seq::empty()
    } else {
        exprs_m(s.drop_last()).push(expr_m(s.last()))
    }
}

pub open spec fn arms_m(s: Seq<(String, Vec<String>, Expression)>) -> Seq<(Seq<char>, Seq<Seq<char>>, ExprM)>
    decreases s,
{
    if s.len() == 0 {
        Seq::empty()
    } else {
        arms_m(s.drop_last()).push((s.last().0@, strs_m(s.last().1@), expr_m(s.last().2)))
    }
}

pub open spec fn node_m(n: ASTNode) -> NodeM
    decreases n,
{
    match n {
        ASTNode::VarDecl { name, data_type, value, access_level } => NodeM::VarDecl { name: name@, data_type: opt_str_m(data_type), value: expr_m(value), access_level },
        ASTNode::FuncDecl { name, parameters, return_type, body, access_level } => NodeM::FuncDecl { name: name@, parameters: pairs_m(parameters@), return_type: return_type@, body: nodes_m(body@), access_level },
        ASTNode::GenericFuncDecl { name, type_params, parameters, return_type, body, access_level } => NodeM::GenericFuncDecl { name: name@, type_params: strs_m(type_params@), parameters: pairs_m(parameters@), return_type: return_type@, body: nodes_m(body@), access_level },
        ASTNode::AsyncFuncDecl { name, parameters, return_type, body, access_level } => NodeM::AsyncFuncDecl { name: name@, parameters: pairs_m(parameters@), return_type: return_type@, body: nodes_m(body@), access_level },
        ASTNode::StructDecl { name, attributes, fields, access_level } => NodeM::StructDecl { name: name@, attributes: strs_m(attributes@), fields: pairs_m(fields@), access_level },
        ASTNode::TraitDecl { name, method_signatures, access_level } => NodeM::TraitDecl { name: name@, method_signatures: sigs_m(method_signatures@), access_level },
        ASTNode::ImplBlock { trait_name, target_type, methods } => NodeM::ImplBlock { trait_name: trait_name@, target_type: target_type@, methods: nodes_m(methods@) },
        ASTNode::EnumDecl { name, variants, access_level } => NodeM::EnumDecl { name: name@, variants: variants_m(variants@), access_level },
        ASTNode::IfStmt { condition, then_branch, else_branch } => NodeM::IfStmt { condition: expr_m(condition), then_branch: nodes_m(then_branch@), else_branch: match else_branch { Some(b) => Some(nodes_m(b@)), None => None } },
        ASTNode::WhileStmt { condition, body } => NodeM::WhileStmt { condition: expr_m(condition), body: nodes_m(body@) },
        ASTNode::ModuleDecl { name, body } => NodeM::ModuleDecl { name: name@, body: nodes_m(body@) },
        ASTNode::ModuleDef { name, body } => NodeM::ModuleDef { name: name@, body: nodes_m(body@) },
        ASTNode::ImportDecl { file_path, namespace_alias } => NodeM::ImportDecl { file_path: file_path@, namespace_alias: namespace_alias@ },
        ASTNode::SpawnStmt(e) => NodeM::SpawnStmt(expr_m(e)),
        ASTNode::DelayStmt(e) => NodeM::DelayStmt(expr_m(e)),
        ASTNode::ReturnStmt(e) => NodeM::ReturnStmt(expr_m(e)),
        ASTNode::FFIDecl { library_path, symbol_name, parameters, return_type, access_level } => NodeM::FFIDecl { library_path: library_path@, symbol_name: symbol_name@, parameters: pairs_m(parameters@), return_type: return_type@, access_level },
        ASTNode::StatementExpr(e) => NodeM::StatementExpr(expr_m(e)),
        ASTNode::Block(b) => NodeM::Block(nodes_m(b@)),
        ASTNode::MacroDecl { name, params, body } => NodeM::MacroDecl { name: name@, params: strs_m(params@), body: nodes_m(body@) },
        ASTNode::MacroCall { name, args } => NodeM::MacroCall { name: name@, args: exprs_m(args@) },
        ASTNode::NoOp => NodeM::NoOp,
    }
}

pub open spec fn nodes_m(s: Seq<ASTNode>) -> Seq<NodeM>
    decreases s,
{
    if s.len() == 0 {
        Seq::empty()
    } else {
        nodes_m(s.drop_last()).push(node_m(s.last()))
    }
}

impl View for Expression {
    type V = ExprM;

    open spec fn view(&self) -> ExprM {
        expr_m(*self)
    }
}

impl View for ASTNode {
    type V = NodeM;

    open spec fn view(&self) -> NodeM {
        node_m(*self)
    }
}

/// `exprs_m` distributes over sequence concatenation and maps each element.
pub proof fn lemma_exprs_m(s: Seq<Expression>)
    ensures
        exprs_m(s).len() == s.len(),
        forall|i: int| 0 <= i < s.len() ==> #[trigger] exprs_m(s)[i] == expr_m(s[i]),
    decreases s.len(),
{
    if s.len() > 0 {
        lemma_exprs_m(s.drop_last());
    }
}

pub proof fn lemma_arms_m(s: Seq<(String, Vec<String>, Expression)>)
    ensures
        arms_m(s).len() == s.len(),
        forall|i: int| 0 <= i < s.len() ==> #[trigger] arms_m(s)[i] == (s[i].0@, strs_m(s[i].1@), expr_m(s[i].2)),
    decreases s.len(),
{
    if s.len() > 0 {
        lemma_arms_m(s.drop_last());
    }
}

pub proof fn lemma_nodes_m(s: Seq<ASTNode>)
    ensures
        nodes_m(s).len() == s.len(),
        forall|i: int| 0 <= i < s.len() ==> #[trigger] nodes_m(s)[i] == node_m(s[i]),
    decreases s.len(),
{
    if s.len() > 0 {
        lemma_nodes_m(s.drop_last());
    }
}

pub proof fn lemma_nodes_m_push(s: Seq<ASTNode>, n: ASTNode)
    ensures
        nodes_m(s.push(n)) == nodes_m(s).push(node_m(n)),
{
    assert(s.push(n).drop_last() =~= s);
}

pub proof fn lemma_exprs_m_push(s: Seq<Expression>, e: Expression)
    ensures
        exprs_m(s.push(e)) == exprs_m(s).push(expr_m(e)),
{
    assert(s.push(e).drop_last() =~= s);
}

pub proof fn lemma_nodes_m_append(a: Seq<ASTNode>, b: Seq<ASTNode>)
    ensures
        nodes_m(a + b) == nodes_m(a) + nodes_m(b),
    decreases b.len(),
{
    if b.len() == 0 {
        assert(a + b =~= a);
        assert(nodes_m(a) + nodes_m(b) =~= nodes_m(a));
    } else {
        assert((a + b).drop_last() =~= a + b.drop_last());
        lemma_nodes_m_append(a, b.drop_last());
        assert(nodes_m(a) + nodes_m(b) =~= (nodes_m(a) + nodes_m(b.drop_last())).push(node_m(b.last())));
    }
}

/// A copy of a list of strings.
pub fn clone_strings(v: &Vec<String>) -> (r: Vec<String>)
    ensures
        r@ == v@,
        strs_m(r@) == strs_m(v@),
{
    let mut out: Vec<String> = Vec::new();
    let mut i: usize = 0;
    while i < v.len()
        invariant
            i <= v@.len(),
            out@ == v@.subrange(0, i as int),
        decreases v@.len() - i,
    {
        out.push(v[i].clone());
        i = i + 1;
        assert(out@ =~= v@.subrange(0, i as int));
    }
    assert(out@ =~= v@);
    out
}

/// A copy of a list of string pairs (parameters, fields).
pub fn clone_pairs(v: &Vec<(String, String)>) -> (r: Vec<(String, String)>)
    ensures
        r@ == v@,
        pairs_m(r@) == pairs_m(v@),
{
    let mut out: Vec<(String, String)> = Vec::new();
    let mut i: usize = 0;
    while i < v.len()
        invariant
            i <= v@.len(),
            out@ == v@.subrange(0, i as int),
        decreases v@.len() - i,
    {
        out.push((v[i].0.clone(), v[i].1.clone()));
        i = i + 1;
        assert(out@ =~= v@.subrange(0, i as int));
    }
    assert(out@ =~= v@);
    out
}

fn clone_opt_strings(v: &Option<Vec<String>>) -> (r: Option<Vec<String>>)
    ensures
        r is Some == v is Some,
        r is Some ==> strs_m(r->0@) == strs_m(v->0@),
{
    match v {
        Some(x) => Some(clone_strings(x)),
        None => None,
    }
}

fn clone_variants(v: &Vec<(String, Option<Vec<String>>)>) -> (r: Vec<(String, Option<Vec<String>>)>)
    ensures
        variants_m(r@) == variants_m(v@),
{
    let mut out: Vec<(String, Option<Vec<String>>)> = Vec::new();
    let mut i: usize = 0;
    while i < v.len()
        invariant
            i <= v@.len(),
            out@.len() == i,
            variants_m(out@) == variants_m(v@.subrange(0, i as int)),
        decreases v@.len() - i,
    {
        let ghost prev = out@;
        out.push((v[i].0.clone(), clone_opt_strings(&v[i].1)));
        i = i + 1;
        proof {
            let a = variants_m(out@);
            let b = variants_m(v@.subrange(0, i as int));
            assert forall|j: int| 0 <= j < i implies a[j] == b[j] by {
                if j < i - 1 {
                    assert(variants_m(prev)[j] == variants_m(v@.subrange(0, i - 1))[j]);
                }
            }
            assert(a =~= b);
        }
    }
    assert(variants_m(out@) =~= variants_m(v@));
    out
}

fn clone_signatures(v: &Vec<(String, Vec<(String, String)>, String)>) -> (r: Vec<(String, Vec<(String, String)>, String)>)
    ensures
        sigs_m(r@) == sigs_m(v@),
{
    let mut out: Vec<(String, Vec<(String, String)>, String)> = Vec::new();
    let mut i: usize = 0;
    while i < v.len()
        invariant
            i <= v@.len(),
            out@.len() == i,
            sigs_m(out@) == sigs_m(v@.subrange(0, i as int)),
        decreases v@.len() - i,
    {
        let ghost prev = out@;
        out.push((v[i].0.clone(), clone_pairs(&v[i].1), v[i].2.clone()));
        i = i + 1;
        proof {
            let a = sigs_m(out@);
            let b = sigs_m(v@.subrange(0, i as int));
            assert forall|j: int| 0 <= j < i implies a[j] == b[j] by {
                if j < i - 1 {
                    assert(sigs_m(prev)[j] == sigs_m(v@.subrange(0, i - 1))[j]);
                }
            }
            assert(a =~= b);
        }
    }
    assert(sigs_m(out@) =~= sigs_m(v@));
    out
}

/// A copy of an expression.
pub fn clone_expr(e: &Expression) -> (r: Expression)
    ensures
        r@ == e@,
    decreases e,
{
    match e {
        Expression::Literal(v) => Expression::Literal(clone_value(v)),
        Expression::IntLiteral(n) => Expression::IntLiteral(*n),
        Expression::Variable(s) => Expression::Variable(s.clone()),
        Expression::Binary { left, op, right } => Expression::Binary {
            left: Box::new(clone_expr(left)),
            op: op.clone(),
            right: Box::new(clone_expr(right)),
        },
        Expression::FieldAccess { object, field } => Expression::FieldAccess {
            object: Box::new(clone_expr(object)),
            field: field.clone(),
        },
        Expression::Call { name, args } => Expression::Call { name: name.clone(), args: clone_exprs(args) },
        Expression::GenericCall { name, concrete_types, args } => Expression::GenericCall {
            name: name.clone(),
            concrete_types: clone_strings(concrete_types),
            args: clone_exprs(args),
        },
        Expression::MethodCall { instance, method_name, args } => Expression::MethodCall {
            instance: Box::new(clone_expr(instance)),
            method_name: method_name.clone(),
            args: clone_exprs(args),
        },
        Expression::BorrowExpr { target, is_mutable } => Expression::BorrowExpr {
            target: target.clone(),
            is_mutable: *is_mutable,
        },
        Expression::MatchExpr { eval_target, arms } => Expression::MatchExpr {
            eval_target: Box::new(clone_expr(eval_target)),
            arms: clone_arms(arms),
        },
        Expression::AwaitExpr { target_future } => Expression::AwaitExpr {
            target_future: Box::new(clone_expr(target_future)),
        },
    }
}

/// A copy of a list of expressions.
pub fn clone_exprs(v: &Vec<Expression>) -> (r: Vec<Expression>)
    ensures
        exprs_m(r@) == exprs_m(v@),
    decreases v,
{
    let mut out: Vec<Expression> = Vec::new();
    let mut i: usize = 0;
    while i < v.len()
        invariant
            i <= v@.len(),
            out@.len() == i,
            exprs_m(out@) == exprs_m(v@.subrange(0, i as int)),
        decreases v@.len() - i,
    {
        assert(decreases_to!(v => v@[i as int]));
        let ghost prev = out@;
        out.push(clone_expr(&v[i]));
        i = i + 1;
        proof {
            lemma_exprs_m_push(prev, out@.last());
            assert(out@ =~= prev.push(out@.last()));
            assert(v@.subrange(0, i as int) =~= v@.subrange(0, i - 1).push(v@[i - 1]));
            lemma_exprs_m_push(v@.subrange(0, i - 1), v@[i - 1]);
        }
    }
    assert(v@.subrange(0, v@.len() as int) =~= v@);
    out
}

fn clone_arms(v: &Vec<(String, Vec<String>, Expression)>) -> (r: Vec<(String, Vec<String>, Expression)>)
    ensures
        arms_m(r@) == arms_m(v@),
    decreases v,
{
    let mut out: Vec<(String, Vec<String>, Expression)> = Vec::new();
    let mut i: usize = 0;
    while i < v.len()
        invariant
            i <= v@.len(),
            out@.len() == i,
            arms_m(out@) == arms_m(v@.subrange(0, i as int)),
        decreases v@.len() - i,
    {
        assert(decreases_to!(v => v@[i as int].2));
        let ghost prev = out@;
        out.push((v[i].0.clone(), clone_strings(&v[i].1), clone_expr(&v[i].2)));
        i = i + 1;
        proof {
            assert(out@.drop_last() =~= prev);
            assert(v@.subrange(0, i as int).drop_last() =~= v@.subrange(0, i - 1));
        }
    }
    assert(v@.subrange(0, v@.len() as int) =~= v@);
    out
}

/// A copy of a statement.
pub fn clone_node(n: &ASTNode) -> (r: ASTNode)
    ensures
        r@ == n@,
    decreases n,
{
    match n {
        ASTNode::VarDecl { name, data_type, value, access_level } => ASTNode::VarDecl {
            name: name.clone(),
            data_type: match data_type { Some(t) => Some(t.clone()), None => None },
            value: clone_expr(value),
            access_level: *access_level,
        },
        ASTNode::FuncDecl { name, parameters, return_type, body, access_level } => ASTNode::FuncDecl {
            name: name.clone(),
            parameters: clone_pairs(parameters),
            return_type: return_type.clone(),
            body: clone_nodes(body),
            access_level: *access_level,
        },
        ASTNode::GenericFuncDecl { name, type_params, parameters, return_type, body, access_level } =>
            ASTNode::GenericFuncDecl {
                name: name.clone(),
                type_params: clone_strings(type_params),
                parameters: clone_pairs(parameters),
                return_type: return_type.clone(),
                body: clone_nodes(body),
                access_level: *access_level,
            },
        ASTNode::AsyncFuncDecl { name, parameters, return_type, body, access_level } => ASTNode::AsyncFuncDecl {
            name: name.clone(),
            parameters: clone_pairs(parameters),
            return_type: return_type.clone(),
            body: clone_nodes(body),
            access_level: *access_level,
        },
        ASTNode::StructDecl { name, attributes, fields, access_level } => ASTNode::StructDecl {
            name: name.clone(),
            attributes: clone_strings(attributes),
            fields: clone_pairs(fields),
            access_level: *access_level,
        },
        ASTNode::TraitDecl { name, method_signatures, access_level } => ASTNode::TraitDecl {
            name: name.clone(),
            method_signatures: clone_signatures(method_signatures),
            access_level: *access_level,
        },
        ASTNode::ImplBlock { trait_name, target_type, methods } => ASTNode::ImplBlock {
            trait_name: trait_name.clone(),
            target_type: target_type.clone(),
            methods: clone_nodes(methods),
        },
        ASTNode::EnumDecl { name, variants, access_level } => ASTNode::EnumDecl {
            name: name.clone(),
            variants: clone_variants(variants),
            access_level: *access_level,
        },
        ASTNode::IfStmt { condition, then_branch, else_branch } => ASTNode::IfStmt {
            condition: clone_expr(condition),
            then_branch: clone_nodes(then_branch),
            else_branch: match else_branch { Some(b) => Some(clone_nodes(b)), None => None },
        },
        ASTNode::WhileStmt { condition, body } => ASTNode::WhileStmt {
            condition: clone_expr(condition),
            body: clone_nodes(body),
        },
        ASTNode::ModuleDecl { name, body } => ASTNode::ModuleDecl { name: name.clone(), body: clone_nodes(body) },
        ASTNode::ModuleDef { name, body } => ASTNode::ModuleDef { name: name.clone(), body: clone_nodes(body) },
        ASTNode::ImportDecl { file_path, namespace_alias } => ASTNode::ImportDecl {
            file_path: file_path.clone(),
            namespace_alias: namespace_alias.clone(),
        },
        ASTNode::SpawnStmt(e) => ASTNode::SpawnStmt(clone_expr(e)),
        ASTNode::DelayStmt(e) => ASTNode::DelayStmt(clone_expr(e)),
        ASTNode::ReturnStmt(e) => ASTNode::ReturnStmt(clone_expr(e)),
        ASTNode::FFIDecl { library_path, symbol_name, parameters, return_type, access_level } => ASTNode::FFIDecl {
            library_path: library_path.clone(),
            symbol_name: symbol_name.clone(),
            parameters: clone_pairs(parameters),
            return_type: return_type.clone(),
            access_level: *access_level,
        },
        ASTNode::StatementExpr(e) => ASTNode::StatementExpr(clone_expr(e)),
        ASTNode::Block(b) => ASTNode::Block(clone_nodes(b)),
        ASTNode::MacroDecl { name, params, body } => ASTNode::MacroDecl {
            name: name.clone(),
            params: clone_strings(params),
            body: clone_nodes(body),
        },
        ASTNode::MacroCall { name, args } => ASTNode::MacroCall { name: name.clone(), args: clone_exprs(args) },
        ASTNode::NoOp => ASTNode::NoOp,
    }
}

/// A copy of a list of statements.
pub fn clone_nodes(v: &Vec<ASTNode>) -> (r: Vec<ASTNode>)
    ensures
        nodes_m(r@) == nodes_m(v@),
    decreases v,
{
    let mut out: Vec<ASTNode> = Vec::new();
    let mut i: usize = 0;
    while i < v.len()
        invariant
            i <= v@.len(),
            out@.len() == i,
            nodes_m(out@) == nodes_m(v@.subrange(0, i as int)),
        decreases v@.len() - i,
    {
        assert(decreases_to!(v => v@[i as int]));
        let ghost prev = out@;
        out.push(clone_node(&v[i]));
        i = i + 1;
        proof {
            assert(out@.drop_last() =~= prev);
            assert(v@.subrange(0, i as int).drop_last() =~= v@.subrange(0, i - 1));
        }
    }
    assert(v@.subrange(0, v@.len() as int) =~= v@);
    out
}

impl Clone for Expression {
    fn clone(&self) -> (r: Self)
        ensures
            r@ == self@,
    {
        clone_expr(self)
    }
}

impl Clone for ASTNode {
    fn clone(&self) -> (r: Self)
        ensures
            r@ == self@,
    {
        clone_node(self)
    }
}

} // verus!
