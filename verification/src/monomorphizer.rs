//! Monomorphization: generic function declarations become templates, and
//! each generic call is replaced by a call of a specialized copy whose name
//! carries the concrete types.
use vstd::prelude::*;
use crate::ast::{ASTNode, Expression, AccessModifier, ExprM, NodeM, expr_m, exprs_m, node_m, nodes_m,
    strs_m, pairs_m, lemma_exprs_m, lemma_exprs_m_push, lemma_nodes_m, lemma_nodes_m_push,
    lemma_nodes_m_append, clone_expr, clone_node, clone_nodes, clone_strings, clone_pairs};
use crate::equality::node_eq;
use crate::util::{NameMap, push_str};

verus! {

/// A template: type parameters, parameters, return type and body.
pub type TemplateM = (Seq<Seq<char>>, Seq<(Seq<char>, Seq<char>)>, Seq<char>, Seq<NodeM>);

/// The model of the monomorphizer: its templates and the specialized
/// functions generated so far.
pub struct MonoM {
    pub templates: Map<Seq<char>, TemplateM>,
    pub generated: Seq<NodeM>,
}

/// Recording the generic declarations among the statements.
pub open spec fn register_templates(tm: Map<Seq<char>, TemplateM>, ns: Seq<NodeM>) -> Map<Seq<char>, TemplateM>
    decreases ns.len(),
{
    if ns.len() == 0 {
        tm
    } else {
        let t = register_templates(tm, ns.drop_last());
        match ns.last() {
            NodeM::GenericFuncDecl { name, type_params, parameters, return_type, body, .. } =>
                t.insert(name, (type_params, parameters, return_type, body)),
            _ => t,
        }
    }
}

/// The statements that are not generic declarations, in order.
pub open spec fn non_generic(ns: Seq<NodeM>) -> Seq<NodeM>
    decreases ns.len(),
{
    if ns.len() == 0 {
        Seq::empty()
    } else {
        match ns.last() {
            NodeM::GenericFuncDecl { .. } => non_generic(ns.drop_last()),
            _ => non_generic(ns.drop_last()).push(ns.last()),
        }
    }
}

/// Strings joined with `_`.
pub open spec fn join_us(s: Seq<Seq<char>>) -> Seq<char>
    decreases s.len(),
{
    if s.len() == 0 {
        Seq::empty()
    } else if s.len() == 1 {
        s[0]
    } else {
        join_us(s.drop_last()) + "_"@ + s.last()
    }
}

/// The name of a specialization.
pub open spec fn mangle(name: Seq<char>, types: Seq<Seq<char>>) -> Seq<char> {
    name + "_"@ + join_us(types)
}

/// A text that holds no underscore.
pub open spec fn no_underscore(t: Seq<char>) -> bool {
    forall|i: int| 0 <= i < t.len() ==> t[i] != '_'
}

/// Texts that are non-empty and hold no underscore.
pub open spec fn plain_names(ts: Seq<Seq<char>>) -> bool {
    forall|i: int| 0 <= i < ts.len() ==> (#[trigger] ts[i]).len() > 0 && no_underscore(ts[i])
}

/// Two texts each followed by an underscore and a last part without one
/// are equal only when both parts are.
proof fn lemma_split_last_underscore(p1: Seq<char>, l1: Seq<char>, p2: Seq<char>, l2: Seq<char>)
    requires
        no_underscore(l1),
        no_underscore(l2),
        p1 + "_"@ + l1 == p2 + "_"@ + l2,
    ensures
        p1 == p2,
        l1 == l2,
{
    reveal_strlit("_");
    let x = p1 + "_"@ + l1;
    let y = p2 + "_"@ + l2;
    assert(x.len() == p1.len() + 1 + l1.len());
    assert(y.len() == p2.len() + 1 + l2.len());
    if l1.len() < l2.len() {
        let k = x.len() - l1.len() - 1;
        assert(x[k] == '_');
        assert(y[k] == l2[k - p2.len() - 1]);
        assert(false);
    } else if l2.len() < l1.len() {
        let k = y.len() - l2.len() - 1;
        assert(y[k] == '_');
        assert(x[k] == l1[k - p1.len() - 1]);
        assert(false);
    }
    assert forall|i: int| 0 <= i < l1.len() implies l1[i] == l2[i] by {
        assert(x[p1.len() + 1 + i] == l1[i]);
        assert(y[p2.len() + 1 + i] == l2[i]);
    }
    assert(l1 =~= l2);
    assert forall|i: int| 0 <= i < p1.len() implies p1[i] == p2[i] by {
        assert(x[i] == p1[i]);
        assert(y[i] == p2[i]);
    }
    assert(p1 =~= p2);
}

/// Joining names without underscores keeps every name: the join has an
/// underscore exactly when there are two names or more.
proof fn lemma_join_us_underscore(ts: Seq<Seq<char>>)
    requires
        plain_names(ts),
    ensures
        ts.len() <= 1 ==> no_underscore(join_us(ts)),
        ts.len() >= 2 ==> !no_underscore(join_us(ts)),
    decreases ts.len(),
{
    reveal_strlit("_");
    if ts.len() >= 2 {
        let p = join_us(ts.drop_last());
        let j = join_us(ts);
        assert(j == p + "_"@ + ts.last());
        assert(j[p.len() as int] == '_');
    } else if ts.len() == 1 {
        assert(ts[0].len() > 0);
    }
}

/// Joining names that hold no underscore loses nothing: different lists of
/// such names give different joins.
pub proof fn law_join_us_injective(s: Seq<Seq<char>>, t: Seq<Seq<char>>)
    requires
        plain_names(s),
        plain_names(t),
        join_us(s) == join_us(t),
    ensures
        s == t,
    decreases s.len(),
{
    lemma_join_us_underscore(s);
    lemma_join_us_underscore(t);
    if s.len() == 0 {
        if t.len() == 1 {
            assert(t[0].len() > 0);
        }
        assert(t.len() == 0);
        assert(s =~= t);
    } else if s.len() == 1 {
        if t.len() == 0 {
            assert(s[0].len() > 0);
        }
        assert(t.len() == 1);
        assert(s =~= t);
    } else {
        assert(t.len() >= 2);
        let s1 = s.drop_last();
        let t1 = t.drop_last();
        assert(plain_names(s1)) by {
            assert forall|i: int| 0 <= i < s1.len() implies (#[trigger] s1[i]).len() > 0 && no_underscore(s1[i]) by {
                assert(s1[i] == s[i]);
            }
        }
        assert(plain_names(t1)) by {
            assert forall|i: int| 0 <= i < t1.len() implies (#[trigger] t1[i]).len() > 0 && no_underscore(t1[i]) by {
                assert(t1[i] == t[i]);
            }
        }
        assert(s.last() == s[s.len() - 1]);
        assert(t.last() == t[t.len() - 1]);
        lemma_split_last_underscore(join_us(s1), s.last(), join_us(t1), t.last());
        law_join_us_injective(s1, t1);
        assert(s =~= s1.push(s.last()));
        assert(t =~= t1.push(t.last()));
    }
}

/// The name of a specialization names the template and every concrete
/// type: where the types hold no underscore, two specializations of one
/// template share a name only when their type lists are the same.
pub proof fn law_specialized_names_distinct(name: Seq<char>, s: Seq<Seq<char>>, t: Seq<Seq<char>>)
    requires
        plain_names(s),
        plain_names(t),
        mangle(name, s) == mangle(name, t),
    ensures
        s == t,
{
    let a = name + "_"@;
    assert(mangle(name, s) == a + join_us(s));
    assert(mangle(name, t) == a + join_us(t));
    assert(join_us(s) =~= (a + join_us(s)).subrange(a.len() as int, (a + join_us(s)).len() as int));
    assert(join_us(t) =~= (a + join_us(t)).subrange(a.len() as int, (a + join_us(t)).len() as int));
    law_join_us_injective(s, t);
}

/// The total length of some texts.
pub open spec fn total_len(ts: Seq<Seq<char>>) -> nat
    decreases ts.len(),
{
    if ts.len() == 0 { 0 } else { total_len(ts.drop_last()) + ts.last().len() }
}

/// The name of a specialization holds the template's name, every concrete
/// type, and one underscore before each type: its length is exactly that.
pub proof fn law_specialized_name_length(name: Seq<char>, s: Seq<Seq<char>>)
    requires
        s.len() > 0,
    ensures
        mangle(name, s).len() == name.len() + total_len(s) + s.len(),
{
    reveal_strlit("_");
    lemma_join_us_len(s);
}

proof fn lemma_join_us_len(s: Seq<Seq<char>>)
    requires
        s.len() > 0,
    ensures
        join_us(s).len() + 1 == total_len(s) + s.len(),
    decreases s.len(),
{
    reveal_strlit("_");
    let d = s.drop_last();
    assert(total_len(s) == total_len(d) + s.last().len());
    if s.len() > 1 {
        lemma_join_us_len(d);
        assert(join_us(s) == join_us(d) + "_"@ + s.last());
    } else {
        assert(total_len(d) == 0);
        assert(s.last() == s[0]);
        assert(join_us(s) == s[0]);
    }
}

/// The name of a specialization begins with the template's name and an
/// underscore, and ends with the last concrete type.
pub proof fn law_specialized_name_shape(name: Seq<char>, s: Seq<Seq<char>>)
    requires
        s.len() > 0,
    ensures
        mangle(name, s).subrange(0, name.len() + 1int) == name + "_"@,
        mangle(name, s).subrange(mangle(name, s).len() - s.last().len(), mangle(name, s).len() as int) == s.last(),
{
    reveal_strlit("_");
    let m = mangle(name, s);
    assert(m.subrange(0, name.len() + 1int) =~= name + "_"@);
    if s.len() == 1 {
        assert(join_us(s) == s.last());
    } else {
        assert(join_us(s) == join_us(s.drop_last()) + "_"@ + s.last());
    }
    assert(m.subrange(m.len() - s.last().len(), m.len() as int) =~= s.last());
}

/// The first `n` type parameters bound to the first `n` concrete types; a
/// repeated parameter keeps its last type.
pub open spec fn bind_types_upto(p: Seq<Seq<char>>, c: Seq<Seq<char>>, n: nat) -> Map<Seq<char>, Seq<char>>
    decreases n,
{
    if n == 0 {
        Map::empty()
    } else {
        bind_types_upto(p, c, (n - 1) as nat).insert(p[n - 1], c[n - 1])
    }
}

pub open spec fn bind_types(p: Seq<Seq<char>>, c: Seq<Seq<char>>) -> Map<Seq<char>, Seq<char>> {
    bind_types_upto(p, c, if p.len() < c.len() { p.len() } else { c.len() })
}

/// A type after substitution: a bound type parameter is replaced.
pub open spec fn subst_type(m: Map<Seq<char>, Seq<char>>, t: Seq<char>) -> Seq<char> {
    if m.dom().contains(t) { m[t] } else { t }
}

/// The specialized function for a template and concrete types.
pub open spec fn specialized(name: Seq<char>, t: TemplateM, types: Seq<Seq<char>>) -> NodeM {
    let m = bind_types(t.0, types);
    NodeM::FuncDecl {
        name: mangle(name, types),
        parameters: t.1.map_values(|p: (Seq<char>, Seq<char>)| (p.0, subst_type(m, p.1))),
        return_type: subst_type(m, t.2),
        body: t.3,
        access_level: AccessModifier::Private,
    }
}

/// Specializing an expression: the generated functions after it and the
/// expression it becomes, or `None` where a generic call names no template.
pub open spec fn spec_expr(tm: Map<Seq<char>, TemplateM>, gen: Seq<NodeM>, e: ExprM) -> Option<(Seq<NodeM>, ExprM)>
    decreases e, 1nat,
{
    match e {
        ExprM::GenericCall { name, concrete_types, args } => if tm.dom().contains(name) {
            let f = specialized(name, tm[name], concrete_types);
            let gen1 = if gen.contains(f) { gen } else { gen.push(f) };
            match spec_args(tm, gen1, args) {
                Some(r) => Some((r.0, ExprM::Call { name: mangle(name, concrete_types), args: r.1 })),
                None => None,
            }
        } else {
            None
        },
        _ => Some((gen, e)),
    }
}

pub open spec fn spec_args(tm: Map<Seq<char>, TemplateM>, gen: Seq<NodeM>, es: Seq<ExprM>) -> Option<(Seq<NodeM>, Seq<ExprM>)>
    decreases es, 0nat,
{
    if es.len() == 0 {
        Some((gen, Seq::empty()))
    } else {
        match spec_args(tm, gen, es.drop_last()) {
            Some(a) => match spec_expr(tm, a.0, es.last()) {
                Some(b) => Some((b.0, a.1.push(b.1))),
                None => None,
            },
            None => None,
        }
    }
}

/// Specializing a statement: the values of declarations, expression
/// statements and returns.  A declaration comes out private.
pub open spec fn spec_node(tm: Map<Seq<char>, TemplateM>, gen: Seq<NodeM>, n: NodeM) -> Option<(Seq<NodeM>, NodeM)> {
    match n {
        NodeM::VarDecl { name, data_type, value, .. } => match spec_expr(tm, gen, value) {
            Some(r) => Some((r.0, NodeM::VarDecl { name, data_type, value: r.1, access_level: AccessModifier::Private })),
            None => None,
        },
        NodeM::StatementExpr(e) => match spec_expr(tm, gen, e) {
            Some(r) => Some((r.0, NodeM::StatementExpr(r.1))),
            None => None,
        },
        NodeM::ReturnStmt(e) => match spec_expr(tm, gen, e) {
            Some(r) => Some((r.0, NodeM::ReturnStmt(r.1))),
            None => None,
        },
        _ => Some((gen, n)),
    }
}

pub open spec fn spec_nodes(tm: Map<Seq<char>, TemplateM>, gen: Seq<NodeM>, ns: Seq<NodeM>) -> Option<(Seq<NodeM>, Seq<NodeM>)>
    decreases ns.len(),
{
    if ns.len() == 0 {
        Some((gen, Seq::empty()))
    } else {
        match spec_nodes(tm, gen, ns.drop_last()) {
            Some(a) => match spec_node(tm, a.0, ns.last()) {
                Some(b) => Some((b.0, a.1.push(b.1))),
                None => None,
            },
            None => None,
        }
    }
}

/// One pass over a program: the state after it and its output (every
/// function generated so far, then the specialized statements), or `None`
/// where a generic call names no template.
pub open spec fn mono_process(st: MonoM, ns: Seq<NodeM>) -> Option<(MonoM, Seq<NodeM>)> {
    let tm = register_templates(st.templates, ns);
    match spec_nodes(tm, st.generated, non_generic(ns)) {
        Some(r) => Some((MonoM { templates: tm, generated: r.0 }, r.0 + r.1)),
        None => None,
    }
}

pub proof fn lemma_spec_args_prefix(tm: Map<Seq<char>, TemplateM>, gen: Seq<NodeM>, es: Seq<ExprM>, k: int)
    requires
        0 <= k <= es.len(),
        spec_args(tm, gen, es) is Some,
    ensures
        spec_args(tm, gen, es.subrange(0, k)) is Some,
    decreases es.len(),
{
    if k < es.len() {
        lemma_spec_args_prefix(tm, gen, es.drop_last(), k);
        assert(es.drop_last().subrange(0, k) =~= es.subrange(0, k));
    } else {
        assert(es.subrange(0, k) =~= es);
    }
}

pub proof fn lemma_spec_nodes_prefix(tm: Map<Seq<char>, TemplateM>, gen: Seq<NodeM>, ns: Seq<NodeM>, k: int)
    requires
        0 <= k <= ns.len(),
        spec_nodes(tm, gen, ns) is Some,
    ensures
        spec_nodes(tm, gen, ns.subrange(0, k)) is Some,
    decreases ns.len(),
{
    if k < ns.len() {
        lemma_spec_nodes_prefix(tm, gen, ns.drop_last(), k);
        assert(ns.drop_last().subrange(0, k) =~= ns.subrange(0, k));
    } else {
        assert(ns.subrange(0, k) =~= ns);
    }
}

proof fn lemma_push_distinct(s: Seq<NodeM>, x: NodeM)
    requires
        s.no_duplicates(),
        !s.contains(x),
    ensures
        s.push(x).no_duplicates(),
{
    let t = s.push(x);
    assert forall|i: int, j: int| 0 <= i < t.len() && 0 <= j < t.len() && i != j implies t[i] != t[j] by {
        if i < s.len() && j < s.len() {
            assert(t[i] == s[i] && t[j] == s[j]);
        } else if i < s.len() {
            assert(t[i] == s[i]);
        } else {
            assert(t[j] == s[j]);
        }
    }
}

proof fn lemma_spec_expr_distinct(tm: Map<Seq<char>, TemplateM>, gen: Seq<NodeM>, e: ExprM)
    requires
        gen.no_duplicates(),
    ensures
        spec_expr(tm, gen, e) matches Some(r) ==> r.0.no_duplicates(),
    decreases e, 1nat,
{
    match e {
        ExprM::GenericCall { name, concrete_types, args } => if tm.dom().contains(name) {
            let f = specialized(name, tm[name], concrete_types);
            if !gen.contains(f) {
                lemma_push_distinct(gen, f);
            }
            let gen1 = if gen.contains(f) { gen } else { gen.push(f) };
            lemma_spec_args_distinct(tm, gen1, args);
        },
        _ => {},
    }
}

proof fn lemma_spec_args_distinct(tm: Map<Seq<char>, TemplateM>, gen: Seq<NodeM>, es: Seq<ExprM>)
    requires
        gen.no_duplicates(),
    ensures
        spec_args(tm, gen, es) matches Some(r) ==> r.0.no_duplicates(),
    decreases es, 0nat,
{
    if es.len() > 0 {
        lemma_spec_args_distinct(tm, gen, es.drop_last());
        match spec_args(tm, gen, es.drop_last()) {
            Some(a) => {
                assert(decreases_to!(es => es.last()));
                lemma_spec_expr_distinct(tm, a.0, es.last());
            },
            None => {},
        }
    }
}

proof fn lemma_spec_nodes_distinct(tm: Map<Seq<char>, TemplateM>, gen: Seq<NodeM>, ns: Seq<NodeM>)
    requires
        gen.no_duplicates(),
    ensures
        spec_nodes(tm, gen, ns) matches Some(r) ==> r.0.no_duplicates(),
    decreases ns.len(),
{
    if ns.len() > 0 {
        lemma_spec_nodes_distinct(tm, gen, ns.drop_last());
        match spec_nodes(tm, gen, ns.drop_last()) {
            Some(a) => {
                match ns.last() {
                    NodeM::VarDecl { value, .. } => lemma_spec_expr_distinct(tm, a.0, value),
                    NodeM::StatementExpr(e) => lemma_spec_expr_distinct(tm, a.0, e),
                    NodeM::ReturnStmt(e) => lemma_spec_expr_distinct(tm, a.0, e),
                    _ => {},
                }
            },
            None => {},
        }
    }
}

/// Each specialization is generated once: a pass that starts from distinct
/// generated functions ends with distinct generated functions, however often
/// the program calls a generic function with the same types.
pub proof fn law_specializations_distinct(st: MonoM, ns: Seq<NodeM>)
    requires
        st.generated.no_duplicates(),
    ensures
        mono_process(st, ns) matches Some(r) ==> r.0.generated.no_duplicates(),
{
    let tm = register_templates(st.templates, ns);
    lemma_spec_nodes_distinct(tm, st.generated, non_generic(ns));
}

/// The monomorphizer with its templates and generated functions.
pub struct ASTMonomorphizer {
    pub templates: NameMap<(Vec<String>, Vec<(String, String)>, String, Vec<ASTNode>)>,
    pub generated_functions: Vec<ASTNode>,
}

pub open spec fn templates_view(m: Map<Seq<char>, (Vec<String>, Vec<(String, String)>, String, Vec<ASTNode>)>) -> Map<Seq<char>, TemplateM> {
    m.map_values(|t: (Vec<String>, Vec<(String, String)>, String, Vec<ASTNode>)| (strs_m(t.0@), pairs_m(t.1@), t.2@, nodes_m(t.3@)))
}

impl View for ASTMonomorphizer {
    type V = MonoM;

    open spec fn view(&self) -> MonoM {
        MonoM { templates: templates_view(self.templates@), generated: nodes_m(self.generated_functions@) }
    }
}

impl Default for ASTMonomorphizer {
    fn default() -> (r: Self)
        ensures
            r@.templates == Map::<Seq<char>, TemplateM>::empty(),
            r@.generated == Seq::<NodeM>::empty(),
    {
        Self::new()
    }
}

impl ASTMonomorphizer {
    pub fn new() -> (r: Self)
        ensures
            r@.templates == Map::<Seq<char>, TemplateM>::empty(),
            r@.generated == Seq::<NodeM>::empty(),
    {
        let r = ASTMonomorphizer { templates: NameMap::new(), generated_functions: Vec::new() };
        assert(r@.templates =~= Map::<Seq<char>, TemplateM>::empty());
        assert(nodes_m(r.generated_functions@) =~= Seq::<NodeM>::empty());
        r
    }

    /// Records the generic declarations as templates and drops them, then
    /// specializes the remaining statements in order.  The result is every
    /// function generated so far followed by the specialized statements.
    /// Every generic call must name a template.
    pub fn process_program(&mut self, nodes: Vec<ASTNode>) -> (r: Vec<ASTNode>)
        requires
            mono_process(old(self)@, nodes_m(nodes@)) is Some,
        ensures
            mono_process(old(self)@, nodes_m(nodes@)) == Some((final(self)@, nodes_m(r@))),
    {
        match self.process_core(nodes) {
            Some(r) => r,
            None => Vec::new(),
        }
    }

    /// The same pass, giving `None` where a generic call names no template;
    /// the templates are then those of the program, and the generated
    /// functions those made before the failing call.
    pub fn try_process_program(&mut self, nodes: Vec<ASTNode>) -> (r: Option<Vec<ASTNode>>)
        ensures
            match r {
                Some(v) => mono_process(old(self)@, nodes_m(nodes@)) == Some((final(self)@, nodes_m(v@))),
                None => mono_process(old(self)@, nodes_m(nodes@)) is None
                    && final(self)@.templates == register_templates(old(self)@.templates, nodes_m(nodes@)),
            },
    {
        self.process_core(nodes)
    }

    fn process_core(&mut self, nodes: Vec<ASTNode>) -> (r: Option<Vec<ASTNode>>)
        ensures
            match r {
                Some(v) => mono_process(old(self)@, nodes_m(nodes@)) == Some((final(self)@, nodes_m(v@))),
                None => mono_process(old(self)@, nodes_m(nodes@)) is None
                    && final(self)@.templates == register_templates(old(self)@.templates, nodes_m(nodes@)),
            },
    {
        let ghost nm = nodes_m(nodes@);
        let ghost s0 = self@;
        proof {
            lemma_nodes_m(nodes@);
        }
        let mut cleaned: Vec<ASTNode> = Vec::new();
        let mut i: usize = 0;
        assert(nm.subrange(0, 0) =~= Seq::<NodeM>::empty());
        assert(nodes_m(cleaned@) =~= Seq::<NodeM>::empty());
        while i < nodes.len()
            invariant
                i <= nodes@.len(),
                nm == nodes_m(nodes@),
                nm.len() == nodes@.len(),
                forall|q: int| 0 <= q < nodes@.len() ==> #[trigger] nm[q] == node_m(nodes@[q]),
                self@.templates == register_templates(s0.templates, nm.subrange(0, i as int)),
                self@.generated == s0.generated,
                nodes_m(cleaned@) == non_generic(nm.subrange(0, i as int)),
            decreases nodes@.len() - i,
        {
            assert(nm.subrange(0, i + 1).drop_last() =~= nm.subrange(0, i as int));
            assert(nm.subrange(0, i + 1).last() == nm[i as int]);
            let node = &nodes[i];
            match node {
                ASTNode::GenericFuncDecl { name, type_params, parameters, return_type, body, .. } => {
                    let ghost before = self@.templates;
                    let t = (clone_strings(type_params), clone_pairs(parameters), return_type.clone(), clone_nodes(body));
                    self.templates.insert(name.clone(), t);
                    assert(self@.templates =~= before.insert(name@, (strs_m(type_params@), pairs_m(parameters@), return_type@, nodes_m(body@))));
                },
                _ => {
                    let ghost b = cleaned@;
                    let c = clone_node(node);
                    let ghost cg = c;
                    cleaned.push(c);
                    proof {
                        lemma_nodes_m_push(b, cg);
                    }
                },
            }
            i = i + 1;
        }
        assert(nm.subrange(0, i as int) =~= nm);
        let ghost tm = self@.templates;
        let ghost cm = nodes_m(cleaned@);
        proof {
            lemma_nodes_m(cleaned@);
            assert(cm.subrange(0, 0) =~= Seq::<NodeM>::empty());
        }
        let mut finalized: Vec<ASTNode> = Vec::new();
        assert(nodes_m(finalized@) =~= Seq::<NodeM>::empty());
        let mut j: usize = 0;
        while j < cleaned.len()
            invariant
                j <= cleaned@.len(),
                cm == nodes_m(cleaned@),
                cm.len() == cleaned@.len(),
                forall|q: int| 0 <= q < cleaned@.len() ==> #[trigger] cm[q] == node_m(cleaned@[q]),
                self@.templates == tm,
                tm == register_templates(s0.templates, nm),
                cm == non_generic(nm),
                s0 == old(self)@,
                nm == nodes_m(nodes@),
                spec_nodes(tm, s0.generated, cm.subrange(0, j as int)) == Some((self@.generated, nodes_m(finalized@))),
            decreases cleaned@.len() - j,
        {
            proof {
                assert(cm.subrange(0, j + 1).drop_last() =~= cm.subrange(0, j as int));
                assert(cm.subrange(0, j + 1).last() == cm[j as int]);
            }
            let ghost b = finalized@;
            let s = match self.specialize_node(&cleaned[j]) {
                Some(s) => s,
                None => {
                    proof {
                        let pre = cm.subrange(0, j + 1);
                        assert(pre.drop_last() =~= cm.subrange(0, j as int));
                        assert(spec_nodes(tm, s0.generated, pre) is None);
                        if spec_nodes(tm, s0.generated, cm) is Some {
                            lemma_spec_nodes_prefix(tm, s0.generated, cm, j + 1);
                        }
                        assert(mono_process(s0, nm) is None);
                    }
                    return None;
                },
            };
            let ghost sg = s;
            finalized.push(s);
            proof {
                lemma_nodes_m_push(b, sg);
            }
            j = j + 1;
        }
        assert(cm.subrange(0, j as int) =~= cm);
        let mut output = clone_nodes(&self.generated_functions);
        let ghost og = output@;
        let ghost fg = finalized@;
        output.append(&mut finalized);
        proof {
            lemma_nodes_m_append(og, fg);
        }
        Some(output)
    }

    fn specialize_node(&mut self, node: &ASTNode) -> (r: Option<ASTNode>)
        ensures
            final(self)@.templates == old(self)@.templates,
            match r {
                Some(x) => spec_node(old(self)@.templates, old(self)@.generated, node@) == Some((final(self)@.generated, x@)),
                None => spec_node(old(self)@.templates, old(self)@.generated, node@) is None,
            },
    {
        match node {
            ASTNode::VarDecl { name, data_type, value, .. } => {
                let dt = match data_type {
                    Some(d) => Some(d.clone()),
                    None => None,
                };
                match self.specialize_expr(value) {
                    Some(v) => Some(ASTNode::VarDecl { name: name.clone(), data_type: dt, value: v, access_level: AccessModifier::Private }),
                    None => None,
                }
            },
            ASTNode::StatementExpr(e) => match self.specialize_expr(e) {
                Some(v) => Some(ASTNode::StatementExpr(v)),
                None => None,
            },
            ASTNode::ReturnStmt(e) => match self.specialize_expr(e) {
                Some(v) => Some(ASTNode::ReturnStmt(v)),
                None => None,
            },
            _ => Some(clone_node(node)),
        }
    }

    fn specialize_expr(&mut self, expr: &Expression) -> (r: Option<Expression>)
        ensures
            final(self)@.templates == old(self)@.templates,
            match r {
                Some(x) => spec_expr(old(self)@.templates, old(self)@.generated, expr@) == Some((final(self)@.generated, x@)),
                None => spec_expr(old(self)@.templates, old(self)@.generated, expr@) is None,
            },
        decreases expr, 1nat,
    {
        match expr {
            Expression::GenericCall { name, concrete_types, args } => {
                let ghost tm = self@.templates;
                let found = match self.templates.get(name.as_str()) {
                    Some(t) => Some((clone_strings(&t.0), clone_pairs(&t.1), t.2.clone(), clone_nodes(&t.3))),
                    None => None,
                };
                let t = match found {
                    Some(t) => t,
                    None => {
                        return None;
                    },
                };
                let ghost tv = tm[name@];
                assert(tv == (strs_m(t.0@), pairs_m(t.1@), t.2@, nodes_m(t.3@)));
                let mangled = Self::mangle_name(name, concrete_types);
                let f = Self::build_specialized(mangled.clone(), &t.0, &t.1, &t.2, t.3, concrete_types);
                assert(f@ == specialized(name@, tv, strs_m(concrete_types@)));
                let present = self.generated_contains(&f);
                if !present {
                    let ghost b = self.generated_functions@;
                    let ghost fg = f;
                    self.generated_functions.push(f);
                    proof {
                        lemma_nodes_m_push(b, fg);
                    }
                }
                match self.specialize_args(args) {
                    Some(a) => Some(Expression::Call { name: mangled, args: a }),
                    None => None,
                }
            },
            _ => Some(clone_expr(expr)),
        }
    }

    fn specialize_args(&mut self, args: &Vec<Expression>) -> (r: Option<Vec<Expression>>)
        ensures
            final(self)@.templates == old(self)@.templates,
            match r {
                Some(v) => spec_args(old(self)@.templates, old(self)@.generated, exprs_m(args@)) == Some((final(self)@.generated, exprs_m(v@))),
                None => spec_args(old(self)@.templates, old(self)@.generated, exprs_m(args@)) is None,
            },
        decreases args, 0nat,
    {
        let ghost am = exprs_m(args@);
        let ghost s0 = self@;
        proof {
            lemma_exprs_m(args@);
            assert(am.subrange(0, 0) =~= Seq::<ExprM>::empty());
        }
        let mut out: Vec<Expression> = Vec::new();
        assert(exprs_m(out@) =~= Seq::<ExprM>::empty());
        let mut i: usize = 0;
        while i < args.len()
            invariant
                i <= args@.len(),
                am == exprs_m(args@),
                am.len() == args@.len(),
                forall|q: int| 0 <= q < args@.len() ==> #[trigger] am[q] == expr_m(args@[q]),
                s0 == old(self)@,
                self@.templates == s0.templates,
                spec_args(s0.templates, s0.generated, am.subrange(0, i as int)) == Some((self@.generated, exprs_m(out@))),
            decreases args@.len() - i,
        {
            proof {
                assert(am.subrange(0, i + 1).drop_last() =~= am.subrange(0, i as int));
                assert(am.subrange(0, i + 1).last() == am[i as int]);
            }
            assert(decreases_to!(*args => args@));
            assert(decreases_to!(args@ => args@[i as int]));
            let ghost b = out@;
            let e = match self.specialize_expr(&args[i]) {
                Some(e) => e,
                None => {
                    proof {
                        if spec_args(s0.templates, s0.generated, am) is Some {
                            lemma_spec_args_prefix(s0.templates, s0.generated, am, i + 1);
                        }
                    }
                    return None;
                },
            };
            let ghost eg = e;
            out.push(e);
            proof {
                lemma_exprs_m_push(b, eg);
            }
            i = i + 1;
        }
        assert(am.subrange(0, i as int) =~= am);
        Some(out)
    }

    /// Whether an equal function was generated already.
    fn generated_contains(&self, f: &ASTNode) -> (r: bool)
        ensures
            r == self@.generated.contains(f@),
    {
        let ghost g = self@.generated;
        proof {
            lemma_nodes_m(self.generated_functions@);
        }
        let mut i: usize = 0;
        while i < self.generated_functions.len()
            invariant
                i <= self.generated_functions@.len(),
                g == nodes_m(self.generated_functions@),
                g.len() == self.generated_functions@.len(),
                forall|q: int| 0 <= q < g.len() ==> #[trigger] g[q] == node_m(self.generated_functions@[q]),
                forall|q: int| 0 <= q < i ==> g[q] != f@,
            decreases self.generated_functions@.len() - i,
        {
            if node_eq(&self.generated_functions[i], f) {
                assert(g[i as int] == f@);
                return true;
            }
            i = i + 1;
        }
        false
    }

    /// `name` followed by `_` and the types joined with `_`.
    fn mangle_name(name: &String, types: &Vec<String>) -> (r: String)
        ensures
            r@ == mangle(name@, strs_m(types@)),
    {
        let ghost tv = strs_m(types@);
        let mut m = name.clone();
        push_str(&mut m, "_");
        let ghost start = m@;
        let mut k: usize = 0;
        while k < types.len()
            invariant
                k <= types@.len(),
                tv == strs_m(types@),
                tv.len() == types@.len(),
                m@ == start + join_us(tv.subrange(0, k as int)),
            decreases types@.len() - k,
        {
            assert(tv.subrange(0, k + 1).drop_last() =~= tv.subrange(0, k as int));
            assert(tv.subrange(0, k + 1).last() == types@[k as int]@);
            if k > 0 {
                push_str(&mut m, "_");
            }
            push_str(&mut m, types[k].as_str());
            k = k + 1;
            assert(m@ =~= start + join_us(tv.subrange(0, k as int)));
        }
        assert(tv.subrange(0, k as int) =~= tv);
        assert(m@ =~= name@ + "_"@ + join_us(tv));
        m
    }

    fn build_specialized(
        mangled: String,
        type_params: &Vec<String>,
        params: &Vec<(String, String)>,
        return_type: &String,
        body: Vec<ASTNode>,
        concrete: &Vec<String>,
    ) -> (r: ASTNode)
        ensures
            r@ == (NodeM::FuncDecl {
                name: mangled@,
                parameters: pairs_m(params@).map_values(|p: (Seq<char>, Seq<char>)|
                    (p.0, subst_type(bind_types(strs_m(type_params@), strs_m(concrete@)), p.1))),
                return_type: subst_type(bind_types(strs_m(type_params@), strs_m(concrete@)), return_type@),
                body: nodes_m(body@),
                access_level: AccessModifier::Private,
            }),
    {
        let ghost pm = strs_m(type_params@);
        let ghost cm = strs_m(concrete@);
        let n: usize = if type_params.len() < concrete.len() { type_params.len() } else { concrete.len() };
        let mut map: NameMap<String> = NameMap::new();
        assert(map@.map_values(|s: String| s@) =~= bind_types_upto(pm, cm, 0));
        let mut i: usize = 0;
        while i < n
            invariant
                i <= n,
                n <= type_params@.len(),
                n <= concrete@.len(),
                pm == strs_m(type_params@),
                cm == strs_m(concrete@),
                map@.map_values(|s: String| s@) == bind_types_upto(pm, cm, i as nat),
            decreases n - i,
        {
            let ghost before = map@;
            map.insert(type_params[i].clone(), concrete[i].clone());
            assert(map@.map_values(|s: String| s@) =~= before.map_values(|s: String| s@).insert(pm[i as int], cm[i as int]));
            i = i + 1;
        }
        let ghost m = bind_types(pm, cm);
        assert(map@.map_values(|s: String| s@) == m);
        let ghost pp = pairs_m(params@);
        let mut out: Vec<(String, String)> = Vec::new();
        let mut j: usize = 0;
        while j < params.len()
            invariant
                j <= params@.len(),
                pp == pairs_m(params@),
                map@.map_values(|s: String| s@) == m,
                out@.len() == j,
                pairs_m(out@) == pp.subrange(0, j as int).map_values(|p: (Seq<char>, Seq<char>)| (p.0, subst_type(m, p.1))),
            decreases params@.len() - j,
        {
            let t = Self::lookup_type(&map, &params[j].1);
            assert(pp[j as int] == (params@[j as int].0@, params@[j as int].1@));
            assert(t@ == subst_type(m, pp[j as int].1));
            let ghost prev = out@;
            let ghost prevm = pairs_m(prev);
            out.push((params[j].0.clone(), t));
            j = j + 1;
            assert(pairs_m(out@) =~= pp.subrange(0, j as int).map_values(|p: (Seq<char>, Seq<char>)| (p.0, subst_type(m, p.1)))) by {
                assert forall|q: int| 0 <= q < j - 1 implies #[trigger] pairs_m(out@)[q] == prevm[q] by {
                    assert(out@[q] == prev[q]);
                }
                assert(pairs_m(out@)[j - 1] == (pp[j - 1].0, subst_type(m, pp[j - 1].1)));
            }
        }
        assert(pp.subrange(0, j as int) =~= pp);
        let rt = Self::lookup_type(&map, return_type);
        ASTNode::FuncDecl { name: mangled, parameters: out, return_type: rt, body, access_level: AccessModifier::Private }
    }

    fn lookup_type(map: &NameMap<String>, t: &String) -> (r: String)
        ensures
            r@ == subst_type(map@.map_values(|s: String| s@), t@),
    {
        match map.get(t.as_str()) {
            Some(c) => {
                assert(map@.dom().contains(t@));
                c.clone()
            },
            None => t.clone(),
        }
    }
}

} // verus!
