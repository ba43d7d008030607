//! Macro expansion: declarations are recorded, calls are replaced by the
//! macro's body with its parameters substituted by the call's arguments.
use vstd::prelude::*;
use crate::ast::{ASTNode, Expression, AccessModifier, ExprM, NodeM, expr_m, exprs_m, node_m, nodes_m,
    strs_m, lemma_exprs_m, lemma_nodes_m, lemma_nodes_m_push, lemma_nodes_m_append, clone_expr,
    clone_node, clone_nodes, clone_strings};
use crate::util::NameMap;

verus! {

/// The model of the registry: each macro's parameters and body.
pub open spec fn reg_view(m: Map<Seq<char>, (Vec<String>, Vec<ASTNode>)>) -> Map<Seq<char>, (Seq<Seq<char>>, Seq<NodeM>)> {
    m.map_values(|v: (Vec<String>, Vec<ASTNode>)| (strs_m(v.0@), nodes_m(v.1@)))
}

/// The model of a substitution table.
pub open spec fn subst_view(m: Map<Seq<char>, Expression>) -> Map<Seq<char>, ExprM> {
    m.map_values(|e: Expression| expr_m(e))
}

/// The first `n` parameters bound to the first `n` arguments; a repeated
/// parameter keeps its last argument.
pub open spec fn bind_upto(p: Seq<Seq<char>>, a: Seq<ExprM>, n: nat) -> Map<Seq<char>, ExprM>
    decreases n,
{
    if n == 0 {
        Map::empty()
    } else {
        bind_upto(p, a, (n - 1) as nat).insert(p[n - 1], a[n - 1])
    }
}

/// Parameters paired with arguments as far as both go.
pub open spec fn bind(p: Seq<Seq<char>>, a: Seq<ExprM>) -> Map<Seq<char>, ExprM> {
    bind_upto(p, a, if p.len() < a.len() { p.len() } else { a.len() })
}

/// Substitution in an expression: a bound variable is replaced, and binary
/// operations are entered; everything else is kept.
pub open spec fn subst_expr(m: Map<Seq<char>, ExprM>, e: ExprM) -> ExprM
    decreases e,
{
    match e {
        ExprM::Variable(name) => if m.dom().contains(name) { m[name] } else { e },
        ExprM::Binary { left, op, right } => ExprM::Binary {
            left: Box::new(subst_expr(m, *left)),
            op,
            right: Box::new(subst_expr(m, *right)),
        },
        _ => e,
    }
}

/// Substitution in a statement of a macro body.  A declaration comes out
/// private.
pub open spec fn subst_node(m: Map<Seq<char>, ExprM>, n: NodeM) -> NodeM {
    match n {
        NodeM::VarDecl { name, data_type, value, .. } => NodeM::VarDecl {
            name,
            data_type,
            value: subst_expr(m, value),
            access_level: AccessModifier::Private,
        },
        NodeM::StatementExpr(e) => NodeM::StatementExpr(subst_expr(m, e)),
        NodeM::ReturnStmt(e) => NodeM::ReturnStmt(subst_expr(m, e)),
        _ => n,
    }
}

/// The statements a call of a registered macro stands for.
pub open spec fn call_body(def: (Seq<Seq<char>>, Seq<NodeM>), args: Seq<ExprM>) -> Seq<NodeM> {
    def.1.map_values(|n: NodeM| subst_node(bind(def.0, args), n))
}

/// Expanding one statement: the registry after it and what it becomes, or
/// `None` where it calls a macro that is not registered.
pub open spec fn expand_one(reg: Map<Seq<char>, (Seq<Seq<char>>, Seq<NodeM>)>, n: NodeM) -> Option<(Map<Seq<char>, (Seq<Seq<char>>, Seq<NodeM>)>, Seq<NodeM>)>
    decreases n, 1nat,
{
    match n {
        NodeM::MacroDecl { name, params, body } => Some((reg.insert(name, (params, body)), Seq::empty())),
        NodeM::MacroCall { name, args } => if reg.dom().contains(name) {
            Some((reg, call_body(reg[name], args)))
        } else {
            None
        },
        NodeM::IfStmt { condition, then_branch, else_branch } => match expand_nodes(reg, then_branch) {
            None => None,
            Some(t) => match else_branch {
                Some(eb) => match expand_nodes(t.0, eb) {
                    None => None,
                    Some(e) => Some((e.0, seq![NodeM::IfStmt { condition, then_branch: t.1, else_branch: Some(e.1) }])),
                },
                None => Some((t.0, seq![NodeM::IfStmt { condition, then_branch: t.1, else_branch: None }])),
            },
        },
        NodeM::WhileStmt { condition, body } => match expand_nodes(reg, body) {
            None => None,
            Some(b) => Some((b.0, seq![NodeM::WhileStmt { condition, body: b.1 }])),
        },
        NodeM::ModuleDecl { name, body } => match expand_nodes(reg, body) {
            None => None,
            Some(b) => Some((b.0, seq![NodeM::ModuleDecl { name, body: b.1 }])),
        },
        NodeM::ModuleDef { name, body } => match expand_nodes(reg, body) {
            None => None,
            Some(b) => Some((b.0, seq![NodeM::ModuleDef { name, body: b.1 }])),
        },
        _ => Some((reg, seq![n])),
    }
}

/// Expanding statements in order, threading the registry.
pub open spec fn expand_nodes(reg: Map<Seq<char>, (Seq<Seq<char>>, Seq<NodeM>)>, ns: Seq<NodeM>) -> Option<(Map<Seq<char>, (Seq<Seq<char>>, Seq<NodeM>)>, Seq<NodeM>)>
    decreases ns, 0nat,
{
    if ns.len() == 0 {
        Some((reg, Seq::empty()))
    } else {
        match expand_nodes(reg, ns.drop_last()) {
            None => None,
            Some(a) => match expand_one(a.0, ns.last()) {
                None => None,
                Some(b) => Some((b.0, a.1 + b.1)),
            },
        }
    }
}

/// An expansion that succeeds succeeds on every prefix.
pub proof fn lemma_expand_prefix(reg: Map<Seq<char>, (Seq<Seq<char>>, Seq<NodeM>)>, ns: Seq<NodeM>, k: int)
    requires
        0 <= k <= ns.len(),
        expand_nodes(reg, ns) is Some,
    ensures
        expand_nodes(reg, ns.subrange(0, k)) is Some,
    decreases ns.len(),
{
    if k < ns.len() {
        lemma_expand_prefix(reg, ns.drop_last(), k);
        assert(ns.drop_last().subrange(0, k) =~= ns.subrange(0, k));
    } else {
        assert(ns.subrange(0, k) =~= ns);
    }
}

/// A call of a macro declared just before it expands to the macro's body
/// with the parameters replaced by the call's arguments; the declaration
/// leaves no statement behind and stays registered.
pub proof fn law_macro_call_after_declaration(
    reg: Map<Seq<char>, (Seq<Seq<char>>, Seq<NodeM>)>,
    name: Seq<char>,
    params: Seq<Seq<char>>,
    body: Seq<NodeM>,
    args: Seq<ExprM>,
)
    ensures
        expand_nodes(reg, seq![NodeM::MacroDecl { name, params, body }, NodeM::MacroCall { name, args }])
            == Some((reg.insert(name, (params, body)), call_body((params, body), args))),
{
    let d = NodeM::MacroDecl { name, params, body };
    let c = NodeM::MacroCall { name, args };
    let ns = seq![d, c];
    let reg1 = reg.insert(name, (params, body));
    assert(ns.drop_last() =~= seq![d]);
    assert(seq![d].drop_last() =~= Seq::<NodeM>::empty());
    assert(expand_nodes(reg, Seq::<NodeM>::empty()) == Some((reg, Seq::<NodeM>::empty())));
    assert(expand_one(reg, d) == Some((reg1, Seq::<NodeM>::empty())));
    assert(expand_nodes(reg, seq![d]) == Some((reg1, Seq::<NodeM>::empty() + Seq::<NodeM>::empty())));
    assert(Seq::<NodeM>::empty() + Seq::<NodeM>::empty() =~= Seq::<NodeM>::empty());
    assert(expand_one(reg1, c) == Some((reg1, call_body((params, body), args))));
    assert(Seq::<NodeM>::empty() + call_body((params, body), args) =~= call_body((params, body), args));
}

/// The macro expander and its registry.
pub struct MacroExpander {
    pub macro_registry: NameMap<(Vec<String>, Vec<ASTNode>)>,
}

impl View for MacroExpander {
    type V = Map<Seq<char>, (Seq<Seq<char>>, Seq<NodeM>)>;

    open spec fn view(&self) -> Map<Seq<char>, (Seq<Seq<char>>, Seq<NodeM>)> {
        reg_view(self.macro_registry@)
    }
}

impl Default for MacroExpander {
    fn default() -> (r: Self)
        ensures
            r@ == Map::<Seq<char>, (Seq<Seq<char>>, Seq<NodeM>)>::empty(),
    {
        Self::new()
    }
}

impl MacroExpander {
    pub fn new() -> (r: Self)
        ensures
            r@ == Map::<Seq<char>, (Seq<Seq<char>>, Seq<NodeM>)>::empty(),
    {
        let r = MacroExpander { macro_registry: NameMap::new() };
        assert(r@ =~= Map::<Seq<char>, (Seq<Seq<char>>, Seq<NodeM>)>::empty());
        r
    }

    /// Expands the statements in order: a macro declaration is recorded and
    /// dropped, a macro call is replaced by the macro's body, and the bodies
    /// of conditionals, loops and modules are expanded in place.  Every call
    /// must name a macro declared before it.
    pub fn expand_program(&mut self, nodes: Vec<ASTNode>) -> (r: Vec<ASTNode>)
        requires
            expand_nodes(old(self)@, nodes_m(nodes@)) is Some,
        ensures
            expand_nodes(old(self)@, nodes_m(nodes@)) == Some((final(self)@, nodes_m(r@))),
    {
        match self.expand_list(&nodes) {
            Some(r) => r,
            None => Vec::new(),
        }
    }

    /// The same expansion, giving `None` where a call names a macro that is
    /// not registered at that point.  The registry then keeps the
    /// declarations met before the failing call; which those are is not
    /// stated here.
    pub fn try_expand_program(&mut self, nodes: Vec<ASTNode>) -> (r: Option<Vec<ASTNode>>)
        ensures
            match r {
                Some(v) => expand_nodes(old(self)@, nodes_m(nodes@)) == Some((final(self)@, nodes_m(v@))),
                None => expand_nodes(old(self)@, nodes_m(nodes@)) is None,
            },
    {
        self.expand_list(&nodes)
    }

    fn expand_list(&mut self, nodes: &Vec<ASTNode>) -> (r: Option<Vec<ASTNode>>)
        ensures
            match r {
                Some(v) => expand_nodes(old(self)@, nodes_m(nodes@)) == Some((final(self)@, nodes_m(v@))),
                None => expand_nodes(old(self)@, nodes_m(nodes@)) is None,
            },
        decreases nodes, 0nat,
    {
        let ghost nm = nodes_m(nodes@);
        let ghost s0 = self@;
        proof {
            lemma_nodes_m(nodes@);
            assert(nm.subrange(0, 0) =~= Seq::<NodeM>::empty());
            assert(nodes_m(Seq::<ASTNode>::empty()) =~= Seq::<NodeM>::empty());
        }
        let mut out: Vec<ASTNode> = Vec::new();
        let mut i: usize = 0;
        while i < nodes.len()
            invariant
                i <= nodes@.len(),
                nm == nodes_m(nodes@),
                nm.len() == nodes@.len(),
                s0 == old(self)@,
                forall|q: int| 0 <= q < nodes@.len() ==> #[trigger] nm[q] == node_m(nodes@[q]),
                expand_nodes(s0, nm.subrange(0, i as int)) == Some((self@, nodes_m(out@))),
            decreases nodes@.len() - i,
        {
            proof {
                assert(nm.subrange(0, i + 1).drop_last() =~= nm.subrange(0, i as int));
                assert(nm.subrange(0, i + 1).last() == nm[i as int]);
            }
            assert(decreases_to!(*nodes => nodes@));
            assert(decreases_to!(nodes@ => nodes@[i as int]));
            let ghost b = out@;
            let mut part = match self.expand_one(&nodes[i]) {
                Some(p) => p,
                None => {
                    proof {
                        assert(expand_nodes(s0, nm.subrange(0, i + 1)) is None);
                        if expand_nodes(s0, nm) is Some {
                            lemma_expand_prefix(s0, nm, i + 1);
                        }
                    }
                    return None;
                },
            };
            let ghost pg = part@;
            out.append(&mut part);
            proof {
                lemma_nodes_m_append(b, pg);
            }
            i = i + 1;
        }
        assert(nm.subrange(0, i as int) =~= nm);
        Some(out)
    }

    fn expand_one(&mut self, node: &ASTNode) -> (r: Option<Vec<ASTNode>>)
        ensures
            match r {
                Some(v) => expand_one(old(self)@, node@) == Some((final(self)@, nodes_m(v@))),
                None => expand_one(old(self)@, node@) is None,
            },
        decreases node, 1nat,
    {
        let ghost s0 = self@;
        match node {
            ASTNode::MacroDecl { name, params, body } => {
                let p = clone_strings(params);
                let b = clone_nodes(body);
                self.macro_registry.insert(name.clone(), (p, b));
                assert(self@ =~= s0.insert(name@, (strs_m(params@), nodes_m(body@))));
                let r: Vec<ASTNode> = Vec::new();
                assert(nodes_m(r@) =~= Seq::<NodeM>::empty());
                Some(r)
            },
            ASTNode::MacroCall { name, args } => {
                if self.macro_registry.contains_key(name.as_str()) {
                    Some(self.expand_macro_call(name, args))
                } else {
                    None
                }
            },
            ASTNode::IfStmt { condition, then_branch, else_branch } => {
                let t = match self.expand_list(then_branch) {
                    Some(t) => t,
                    None => {
                        return None;
                    },
                };
                let e = match else_branch {
                    Some(eb) => match self.expand_list(eb) {
                        Some(e) => Some(e),
                        None => {
                            return None;
                        },
                    },
                    None => None,
                };
                Some(Self::single(ASTNode::IfStmt { condition: clone_expr(condition), then_branch: t, else_branch: e }))
            },
            ASTNode::WhileStmt { condition, body } => match self.expand_list(body) {
                Some(b) => Some(Self::single(ASTNode::WhileStmt { condition: clone_expr(condition), body: b })),
                None => None,
            },
            ASTNode::ModuleDecl { name, body } => match self.expand_list(body) {
                Some(b) => Some(Self::single(ASTNode::ModuleDecl { name: name.clone(), body: b })),
                None => None,
            },
            ASTNode::ModuleDef { name, body } => match self.expand_list(body) {
                Some(b) => Some(Self::single(ASTNode::ModuleDef { name: name.clone(), body: b })),
                None => None,
            },
            _ => Some(Self::single(clone_node(node))),
        }
    }

    fn single(n: ASTNode) -> (r: Vec<ASTNode>)
        ensures
            nodes_m(r@) == seq![node_m(n)],
    {
        let ghost ng = n;
        let mut r: Vec<ASTNode> = Vec::new();
        r.push(n);
        proof {
            lemma_nodes_m_push(Seq::<ASTNode>::empty(), ng);
            assert(Seq::<ASTNode>::empty().push(ng) =~= r@);
            assert(nodes_m(r@) =~= seq![node_m(ng)]);
        }
        r
    }

    fn expand_macro_call(&self, name: &String, args: &Vec<Expression>) -> (r: Vec<ASTNode>)
        requires
            self@.dom().contains(name@),
        ensures
            nodes_m(r@) == call_body(self@[name@], exprs_m(args@)),
    {
        let def = match self.macro_registry.get(name.as_str()) {
            Some(d) => d,
            None => {
                assert(self.macro_registry@.dom().contains(name@));
                return Vec::new();
            },
        };
        assert(self@[name@] == (strs_m(def.0@), nodes_m(def.1@)));
        let params = &def.0;
        let body = &def.1;
        let ghost pm = strs_m(params@);
        let ghost am = exprs_m(args@);
        proof {
            lemma_exprs_m(args@);
        }
        let n: usize = if params.len() < args.len() { params.len() } else { args.len() };
        let mut map: NameMap<Expression> = NameMap::new();
        assert(subst_view(map@) =~= bind_upto(pm, am, 0));
        let mut i: usize = 0;
        while i < n
            invariant
                i <= n,
                n <= params@.len(),
                n <= args@.len(),
                pm == strs_m(params@),
                am == exprs_m(args@),
                am.len() == args@.len(),
                forall|q: int| 0 <= q < args@.len() ==> #[trigger] am[q] == expr_m(args@[q]),
                subst_view(map@) == bind_upto(pm, am, i as nat),
            decreases n - i,
        {
            let ghost before = map@;
            let e = clone_expr(&args[i]);
            map.insert(params[i].clone(), e);
            assert(pm[i as int] == params@[i as int]@);
            assert(subst_view(map@) =~= subst_view(before).insert(pm[i as int], am[i as int]));
            i = i + 1;
        }
        let ghost m = bind(pm, am);
        assert(subst_view(map@) == m);
        let ghost bm = nodes_m(body@);
        proof {
            lemma_nodes_m(body@);
        }
        let mut out: Vec<ASTNode> = Vec::new();
        let mut j: usize = 0;
        while j < body.len()
            invariant
                j <= body@.len(),
                bm == nodes_m(body@),
                bm.len() == body@.len(),
                forall|q: int| 0 <= q < body@.len() ==> #[trigger] bm[q] == node_m(body@[q]),
                subst_view(map@) == m,
                nodes_m(out@) == bm.subrange(0, j as int).map_values(|x: NodeM| subst_node(m, x)),
            decreases body@.len() - j,
        {
            let ghost b = out@;
            let s = Self::substitute_node(&body[j], &map);
            let ghost sg = s;
            out.push(s);
            proof {
                lemma_nodes_m_push(b, sg);
            }
            j = j + 1;
            assert(nodes_m(out@) =~= bm.subrange(0, j as int).map_values(|x: NodeM| subst_node(m, x)));
        }
        assert(bm.subrange(0, j as int) =~= bm);
        out
    }

    fn substitute_node(node: &ASTNode, map: &NameMap<Expression>) -> (r: ASTNode)
        ensures
            r@ == subst_node(subst_view(map@), node@),
    {
        match node {
            ASTNode::VarDecl { name, data_type, value, .. } => {
                let dt = match data_type {
                    Some(d) => Some(d.clone()),
                    None => None,
                };
                ASTNode::VarDecl {
                    name: name.clone(),
                    data_type: dt,
                    value: Self::substitute_expr(value, map),
                    access_level: AccessModifier::Private,
                }
            },
            ASTNode::StatementExpr(e) => ASTNode::StatementExpr(Self::substitute_expr(e, map)),
            ASTNode::ReturnStmt(e) => ASTNode::ReturnStmt(Self::substitute_expr(e, map)),
            _ => clone_node(node),
        }
    }

    fn substitute_expr(expr: &Expression, map: &NameMap<Expression>) -> (r: Expression)
        ensures
            r@ == subst_expr(subst_view(map@), expr@),
        decreases expr,
    {
        match expr {
            Expression::Variable(name) => match map.get(name.as_str()) {
                Some(e) => {
                    assert(map@.dom().contains(name@));
                    clone_expr(e)
                },
                None => Expression::Variable(name.clone()),
            },
            Expression::Binary { left, op, right } => Expression::Binary {
                left: Box::new(Self::substitute_expr(&**left, map)),
                op: op.clone(),
                right: Box::new(Self::substitute_expr(&**right, map)),
            },
            _ => clone_expr(expr),
        }
    }
}

} // verus!
