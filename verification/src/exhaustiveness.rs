//! Exhaustiveness of `match` over declared enums: a match whose first arm
//! names a variant of a known enum must name every variant of that enum.
use vstd::prelude::*;
use crate::ast::{ASTNode, Expression, ExprM, NodeM, expr_m, node_m, nodes_m, strs_m, arms_m,
    variants_m, lemma_arms_m, lemma_nodes_m};
use crate::util::{NameMap, owned, push_str, str_eq, str_debug, debug_of_str};

verus! {

/// The model of the analyzer: each enum with its variant names, and for each
/// variant name the enum that declared it last.
pub struct ExhM {
    pub enums: Map<Seq<char>, Seq<Seq<char>>>,
    pub variant_of: Map<Seq<char>, Seq<char>>,
}

/// Every variant points at a registered enum.
pub open spec fn exh_wf(st: ExhM) -> bool {
    forall|v: Seq<char>| #[trigger] st.variant_of.dom().contains(v) ==> st.enums.dom().contains(st.variant_of[v])
}

/// The names of the variants of an enum declaration.
pub open spec fn variant_names(vs: Seq<(Seq<char>, Option<Seq<Seq<char>>>)>) -> Seq<Seq<char>> {
    vs.map_values(|x: (Seq<char>, Option<Seq<Seq<char>>>)| x.0)
}

/// Records `parent` as the enum of each name, in order.
pub open spec fn register_variants(vo: Map<Seq<char>, Seq<char>>, names: Seq<Seq<char>>, parent: Seq<char>) -> Map<Seq<char>, Seq<char>>
    decreases names.len(),
{
    if names.len() == 0 {
        vo
    } else {
        register_variants(vo.insert(names[0], parent), names.drop_first(), parent)
    }
}

/// Registering one top-level statement: an enum declaration records its variants.
pub open spec fn register_node(st: ExhM, n: NodeM) -> ExhM {
    match n {
        NodeM::EnumDecl { name, variants, .. } => ExhM {
            enums: st.enums.insert(name, variant_names(variants)),
            variant_of: register_variants(st.variant_of, variant_names(variants), name),
        },
        _ => st,
    }
}

pub open spec fn register_nodes(st: ExhM, ns: Seq<NodeM>) -> ExhM
    decreases ns.len(),
{
    if ns.len() == 0 {
        st
    } else {
        register_nodes(register_node(st, ns[0]), ns.drop_first())
    }
}

/// The patterns of the arms of a match.
pub open spec fn arm_names(arms: Seq<(Seq<char>, Seq<Seq<char>>, ExprM)>) -> Seq<Seq<char>> {
    arms.map_values(|a: (Seq<char>, Seq<Seq<char>>, ExprM)| a.0)
}

/// The variants of `mand`, in order, that `names` does not contain.
pub open spec fn missing_variants(mand: Seq<Seq<char>>, names: Seq<Seq<char>>) -> Seq<Seq<char>>
    decreases mand.len(),
{
    if mand.len() == 0 {
        Seq::empty()
    } else if names.contains(mand.last()) {
        missing_variants(mand.drop_last(), names)
    } else {
        missing_variants(mand.drop_last(), names).push(mand.last())
    }
}

/// The items of a list of strings as `{:?}` writes them, separated by `, `.
pub open spec fn debug_items(s: Seq<Seq<char>>) -> Seq<char>
    decreases s.len(),
{
    if s.len() == 0 {
        Seq::empty()
    } else if s.len() == 1 {
        debug_of_str(s[0])
    } else {
        debug_items(s.drop_last()) + ", "@ + debug_of_str(s.last())
    }
}

/// A list of strings as `{:?}` writes it.
pub open spec fn debug_list(s: Seq<Seq<char>>) -> Seq<char> {
    "["@ + debug_items(s) + "]"@
}

pub open spec fn empty_match_msg() -> Seq<char> {
    "Compile-Time Error: Matching expression matrix must contain cases."@
}

pub open spec fn missing_msg(parent: Seq<char>, missing: Seq<Seq<char>>) -> Seq<char> {
    "Compile-Time Interface Failure: Match block for enum '"@ + parent + "' missing branch variants: "@
        + debug_list(missing)
}

/// Checking one expression (only a match at the top is inspected).
pub open spec fn exh_expr(st: ExhM, e: ExprM) -> Result<(), Seq<char>> {
    match e {
        ExprM::MatchExpr { arms, .. } => if arms.len() == 0 {
            Err(empty_match_msg())
        } else if st.variant_of.dom().contains(arms[0].0) {
            let parent = st.variant_of[arms[0].0];
            let missing = missing_variants(st.enums[parent], arm_names(arms));
            if missing.len() > 0 {
                Err(missing_msg(parent, missing))
            } else {
                Ok(())
            }
        } else {
            Ok(())
        },
        _ => Ok(()),
    }
}

/// No variant is missing exactly when every variant is named.
pub proof fn lemma_missing_none(mand: Seq<Seq<char>>, names: Seq<Seq<char>>)
    ensures
        missing_variants(mand, names).len() == 0 <==> forall|i: int| 0 <= i < mand.len() ==> names.contains(#[trigger] mand[i]),
    decreases mand.len(),
{
    if mand.len() > 0 {
        lemma_missing_none(mand.drop_last(), names);
        if forall|i: int| 0 <= i < mand.len() ==> names.contains(#[trigger] mand[i]) {
            assert forall|i: int| 0 <= i < mand.drop_last().len() implies names.contains(#[trigger] mand.drop_last()[i]) by {
                assert(mand.drop_last()[i] == mand[i]);
            }
            assert(names.contains(mand[mand.len() - 1]));
        } else {
            let k = choose|i: int| 0 <= i < mand.len() && !names.contains(#[trigger] mand[i]);
            if k < mand.len() - 1 {
                assert(mand.drop_last()[k] == mand[k]);
            }
        }
    }
}

/// A match whose first arm names a variant of a declared enum is accepted
/// exactly when its arms name every variant of that enum.
pub proof fn law_match_covers(st: ExhM, target: ExprM, arms: Seq<(Seq<char>, Seq<Seq<char>>, ExprM)>)
    requires
        arms.len() > 0,
        st.variant_of.dom().contains(arms[0].0),
    ensures
        ({
            let vs = st.enums[st.variant_of[arms[0].0]];
            exh_expr(st, ExprM::MatchExpr { eval_target: Box::new(target), arms: arms }) is Ok
                <==> forall|i: int| 0 <= i < vs.len() ==> arm_names(arms).contains(#[trigger] vs[i])
        }),
{
    lemma_missing_none(st.enums[st.variant_of[arms[0].0]], arm_names(arms));
}

/// Checking one statement: the value of a declaration, an expression
/// statement or a return, and every statement inside function bodies,
/// branches, loops, blocks, modules and impl blocks.
pub open spec fn exh_node(st: ExhM, n: NodeM) -> Result<(), Seq<char>>
    decreases n, 1nat,
{
    match n {
        NodeM::VarDecl { value, .. } => exh_expr(st, value),
        NodeM::StatementExpr(e) => exh_expr(st, e),
        NodeM::ReturnStmt(e) => exh_expr(st, e),
        NodeM::FuncDecl { body, .. } => exh_nodes(st, body),
        NodeM::GenericFuncDecl { body, .. } => exh_nodes(st, body),
        NodeM::AsyncFuncDecl { body, .. } => exh_nodes(st, body),
        NodeM::IfStmt { condition, then_branch, else_branch } => match exh_expr(st, condition) {
            Ok(()) => match exh_nodes(st, then_branch) {
                Ok(()) => match else_branch {
                    Some(eb) => exh_nodes(st, eb),
                    None => Ok(()),
                },
                Err(m) => Err(m),
            },
            Err(m) => Err(m),
        },
        NodeM::WhileStmt { condition, body } => match exh_expr(st, condition) {
            Ok(()) => exh_nodes(st, body),
            Err(m) => Err(m),
        },
        NodeM::Block(b) => exh_nodes(st, b),
        NodeM::ModuleDecl { body, .. } => exh_nodes(st, body),
        NodeM::ModuleDef { body, .. } => exh_nodes(st, body),
        NodeM::ImplBlock { methods, .. } => exh_nodes(st, methods),
        _ => Ok(()),
    }
}

/// Checking the statements in order; the first failure is the result.
pub open spec fn exh_nodes(st: ExhM, ns: Seq<NodeM>) -> Result<(), Seq<char>>
    decreases ns, 0nat,
{
    if ns.len() == 0 {
        Ok(())
    } else {
        match exh_node(st, ns[0]) {
            Ok(()) => exh_nodes(st, ns.drop_first()),
            Err(m) => Err(m),
        }
    }
}

/// Every entry that `register_variants` adds points at the parent.
pub proof fn lemma_register_variants(vo: Map<Seq<char>, Seq<char>>, names: Seq<Seq<char>>, parent: Seq<char>)
    ensures
        forall|v: Seq<char>| #[trigger] register_variants(vo, names, parent).dom().contains(v) ==>
            register_variants(vo, names, parent)[v] == parent
            || (vo.dom().contains(v) && register_variants(vo, names, parent)[v] == vo[v]),
    decreases names.len(),
{
    if names.len() > 0 {
        let vo2 = vo.insert(names[0], parent);
        lemma_register_variants(vo2, names.drop_first(), parent);
        assert forall|v: Seq<char>| #[trigger] register_variants(vo, names, parent).dom().contains(v) implies
            register_variants(vo, names, parent)[v] == parent
            || (vo.dom().contains(v) && register_variants(vo, names, parent)[v] == vo[v]) by {
            assert(register_variants(vo, names, parent) == register_variants(vo2, names.drop_first(), parent));
            assert(register_variants(vo2, names.drop_first(), parent).dom().contains(v));
        }
    }
}

/// Registering enums keeps every variant pointing at a registered enum.
pub proof fn lemma_register_node_wf(st: ExhM, n: NodeM)
    requires
        exh_wf(st),
    ensures
        exh_wf(register_node(st, n)),
{
    match n {
        NodeM::EnumDecl { name, variants, .. } => {
            lemma_register_variants(st.variant_of, variant_names(variants), name);
        },
        _ => {},
    }
}

/// The analyzer with its two registries.
pub struct ExhaustivenessAnalyzer {
    pub enum_registry: NameMap<Vec<String>>,
    pub variant_to_enum: NameMap<String>,
}

impl View for ExhaustivenessAnalyzer {
    type V = ExhM;

    open spec fn view(&self) -> ExhM {
        ExhM {
            enums: self.enum_registry@.map_values(|v: Vec<String>| strs_m(v@)),
            variant_of: self.variant_to_enum@.map_values(|s: String| s@),
        }
    }
}

impl Default for ExhaustivenessAnalyzer {
    fn default() -> (r: Self)
        ensures
            r@.enums == Map::<Seq<char>, Seq<Seq<char>>>::empty(),
            r@.variant_of == Map::<Seq<char>, Seq<char>>::empty(),
    {
        Self::new()
    }
}

impl ExhaustivenessAnalyzer {
    pub fn new() -> (r: Self)
        ensures
            r@.enums == Map::<Seq<char>, Seq<Seq<char>>>::empty(),
            r@.variant_of == Map::<Seq<char>, Seq<char>>::empty(),
            exh_wf(r@),
    {
        let r = ExhaustivenessAnalyzer { enum_registry: NameMap::new(), variant_to_enum: NameMap::new() };
        assert(r@.enums =~= Map::<Seq<char>, Seq<Seq<char>>>::empty());
        assert(r@.variant_of =~= Map::<Seq<char>, Seq<char>>::empty());
        r
    }

    /// Registers every enum declared at the top level, then checks every
    /// top-level statement; the first failure is returned.
    pub fn analyze_program(&mut self, nodes: &[ASTNode]) -> (r: Result<(), String>)
        requires
            exh_wf(old(self)@),
        ensures
            exh_wf(final(self)@),
            final(self)@ == register_nodes(old(self)@, nodes_m(nodes@)),
            match exh_nodes(final(self)@, nodes_m(nodes@)) {
                Ok(()) => r is Ok,
                Err(m) => r matches Err(x) && x@ == m,
            },
    {
        let ghost nm = nodes_m(nodes@);
        let ghost s0 = self@;
        proof {
            lemma_nodes_m(nodes@);
            assert(nm.subrange(0, nm.len() as int) =~= nm);
        }
        let mut i: usize = 0;
        while i < nodes.len()
            invariant
                i <= nodes@.len(),
                nm == nodes_m(nodes@),
                nm.len() == nodes@.len(),
                s0 == old(self)@,
                forall|q: int| 0 <= q < nodes@.len() ==> #[trigger] nm[q] == node_m(nodes@[q]),
                register_nodes(s0, nm) == register_nodes(self@, nm.subrange(i as int, nm.len() as int)),
                exh_wf(self@),
            decreases nodes@.len() - i,
        {
            let ghost rest = nm.subrange(i as int, nm.len() as int);
            assert(rest[0] == nm[i as int]);
            assert(rest.drop_first() =~= nm.subrange(i + 1, nm.len() as int));
            self.register(&nodes[i]);
            i = i + 1;
        }
        assert(nm.subrange(i as int, nm.len() as int) =~= Seq::<NodeM>::empty());
        assert(self@ == register_nodes(s0, nm));
        let ghost st = self@;
        proof {
            assert(nm.subrange(0, nm.len() as int) =~= nm);
        }
        let mut j: usize = 0;
        while j < nodes.len()
            invariant
                j <= nodes@.len(),
                nm == nodes_m(nodes@),
                nm.len() == nodes@.len(),
                st == self@,
                st == register_nodes(s0, nm),
                s0 == old(self)@,
                exh_wf(st),
                forall|q: int| 0 <= q < nodes@.len() ==> #[trigger] nm[q] == node_m(nodes@[q]),
                exh_nodes(st, nm) == exh_nodes(st, nm.subrange(j as int, nm.len() as int)),
            decreases nodes@.len() - j,
        {
            let ghost rest = nm.subrange(j as int, nm.len() as int);
            assert(rest[0] == nm[j as int]);
            assert(rest.drop_first() =~= nm.subrange(j + 1, nm.len() as int));
            match self.verify_node(&nodes[j]) {
                Ok(()) => {},
                Err(m) => {
                    return Err(m);
                },
            }
            j = j + 1;
        }
        assert(nm.subrange(j as int, nm.len() as int) =~= Seq::<NodeM>::empty());
        Ok(())
    }

    fn register(&mut self, node: &ASTNode)
        requires
            exh_wf(old(self)@),
        ensures
            final(self)@ == register_node(old(self)@, node@),
            exh_wf(final(self)@),
    {
        proof {
            lemma_register_node_wf(self@, node@);
        }
        match node {
            ASTNode::EnumDecl { name, variants, .. } => {
                let ghost vn = variant_names(variants_m(variants@));
                let ghost vo0 = self@.variant_of;
                let ghost en0 = self@.enums;
                let mut v_names: Vec<String> = Vec::new();
                let mut j: usize = 0;
                proof {
                    assert(vn.subrange(0, vn.len() as int) =~= vn);
                }
                while j < variants.len()
                    invariant
                        j <= variants@.len(),
                        vn == variant_names(variants_m(variants@)),
                        vn.len() == variants@.len(),
                        strs_m(v_names@) == vn.subrange(0, j as int),
                        v_names@.len() == j,
                        self@.enums == en0,
                        register_variants(vo0, vn, name@) == register_variants(self@.variant_of, vn.subrange(j as int, vn.len() as int), name@),
                    decreases variants@.len() - j,
                {
                    let ghost rest = vn.subrange(j as int, vn.len() as int);
                    assert(rest[0] == vn[j as int]);
                    assert(rest.drop_first() =~= vn.subrange(j + 1, vn.len() as int));
                    let ghost before = self@.variant_of;
                    let vname = variants[j].0.clone();
                    assert(vn[j as int] == variants@[j as int].0@);
                    assert(vname@ == vn[j as int]);
                    let ghost prev = v_names@;
                    v_names.push(vname.clone());
                    assert(v_names@[j as int]@ == vn[j as int]);
                    assert forall|q: int| 0 <= q < j implies #[trigger] v_names@[q]@ == vn[q] by {
                        assert(v_names@[q] == prev[q]);
                        assert(strs_m(prev)[q] == prev[q]@);
                    }
                    self.variant_to_enum.insert(vname, name.clone());
                    assert(self@.variant_of =~= before.insert(vn[j as int], name@));
                    assert(self@.enums =~= en0);
                    j = j + 1;
                    assert(strs_m(v_names@) =~= vn.subrange(0, j as int));
                }
                assert(vn.subrange(j as int, vn.len() as int) =~= Seq::<Seq<char>>::empty());
                assert(strs_m(v_names@) =~= vn);
                let ghost vo1 = self@.variant_of;
                self.enum_registry.insert(name.clone(), v_names);
                assert(self@.enums =~= en0.insert(name@, vn));
                assert(self@.variant_of =~= vo1);
            },
            _ => {},
        }
    }

    fn verify_node(&self, node: &ASTNode) -> (r: Result<(), String>)
        requires
            exh_wf(self@),
        ensures
            match exh_node(self@, node@) {
                Ok(()) => r is Ok,
                Err(m) => r matches Err(x) && x@ == m,
            },
        decreases node, 1nat,
    {
        match node {
            ASTNode::VarDecl { value, .. } => self.verify_expr(value),
            ASTNode::StatementExpr(e) => self.verify_expr(e),
            ASTNode::ReturnStmt(e) => self.verify_expr(e),
            ASTNode::FuncDecl { body, .. } => self.verify_nodes(body),
            ASTNode::GenericFuncDecl { body, .. } => self.verify_nodes(body),
            ASTNode::AsyncFuncDecl { body, .. } => self.verify_nodes(body),
            ASTNode::IfStmt { condition, then_branch, else_branch } => {
                match self.verify_expr(condition) {
                    Ok(()) => {},
                    Err(m) => {
                        return Err(m);
                    },
                }
                match self.verify_nodes(then_branch) {
                    Ok(()) => {},
                    Err(m) => {
                        return Err(m);
                    },
                }
                match else_branch {
                    Some(eb) => self.verify_nodes(eb),
                    None => Ok(()),
                }
            },
            ASTNode::WhileStmt { condition, body } => {
                match self.verify_expr(condition) {
                    Ok(()) => {},
                    Err(m) => {
                        return Err(m);
                    },
                }
                self.verify_nodes(body)
            },
            ASTNode::Block(b) => self.verify_nodes(b),
            ASTNode::ModuleDecl { body, .. } => self.verify_nodes(body),
            ASTNode::ModuleDef { body, .. } => self.verify_nodes(body),
            ASTNode::ImplBlock { methods, .. } => self.verify_nodes(methods),
            _ => Ok(()),
        }
    }

    fn verify_nodes(&self, nodes: &Vec<ASTNode>) -> (r: Result<(), String>)
        requires
            exh_wf(self@),
        ensures
            match exh_nodes(self@, nodes_m(nodes@)) {
                Ok(()) => r is Ok,
                Err(m) => r matches Err(x) && x@ == m,
            },
        decreases nodes, 0nat,
    {
        let ghost nm = nodes_m(nodes@);
        proof {
            lemma_nodes_m(nodes@);
            assert(nm.subrange(0, nm.len() as int) =~= nm);
        }
        let mut j: usize = 0;
        while j < nodes.len()
            invariant
                j <= nodes@.len(),
                nm == nodes_m(nodes@),
                nm.len() == nodes@.len(),
                exh_wf(self@),
                forall|q: int| 0 <= q < nodes@.len() ==> #[trigger] nm[q] == node_m(nodes@[q]),
                exh_nodes(self@, nm) == exh_nodes(self@, nm.subrange(j as int, nm.len() as int)),
            decreases nodes@.len() - j,
        {
            let ghost rest = nm.subrange(j as int, nm.len() as int);
            assert(rest[0] == nm[j as int]);
            assert(rest.drop_first() =~= nm.subrange(j + 1, nm.len() as int));
            assert(decreases_to!(*nodes => nodes@));
            assert(decreases_to!(nodes@ => nodes@[j as int]));
            match self.verify_node(&nodes[j]) {
                Ok(()) => {},
                Err(m) => {
                    return Err(m);
                },
            }
            j = j + 1;
        }
        assert(nm.subrange(j as int, nm.len() as int) =~= Seq::<NodeM>::empty());
        Ok(())
    }

    fn verify_expr(&self, expr: &Expression) -> (r: Result<(), String>)
        requires
            exh_wf(self@),
        ensures
            match exh_expr(self@, expr@) {
                Ok(()) => r is Ok,
                Err(m) => r matches Err(x) && x@ == m,
            },
    {
        match expr {
            Expression::MatchExpr { arms, .. } => {
                proof {
                    lemma_arms_m(arms@);
                }
                let ghost am = arms_m(arms@);
                if arms.len() == 0 {
                    return Err(owned("Compile-Time Error: Matching expression matrix must contain cases."));
                }
                let first = &arms[0].0;
                assert(am[0].0 == first@);
                match self.variant_to_enum.get(first.as_str()) {
                    Some(parent) => {
                        assert(self@.variant_of.dom().contains(first@));
                        assert(self@.variant_of[first@] == parent@);
                        let mand = match self.enum_registry.get(parent.as_str()) {
                            Some(m) => m,
                            None => {
                                assert(self@.enums.dom().contains(parent@));
                                return Ok(());
                            },
                        };
                        let ghost mm = strs_m(mand@);
                        assert(self@.enums[parent@] == mm);
                        let ghost names = arm_names(am);
                        let mut unhandled: Vec<String> = Vec::new();
                        let mut k: usize = 0;
                        while k < mand.len()
                            invariant
                                k <= mand@.len(),
                                mm == strs_m(mand@),
                                names == arm_names(am),
                                am == arms_m(arms@),
                                am.len() == arms@.len(),
                                forall|q: int| 0 <= q < arms@.len() ==> #[trigger] am[q] == (arms@[q].0@, strs_m(arms@[q].1@), expr_m(arms@[q].2)),
                                strs_m(unhandled@) == missing_variants(mm.subrange(0, k as int), names),
                            decreases mand@.len() - k,
                        {
                            assert(mm.subrange(0, k + 1).drop_last() =~= mm.subrange(0, k as int));
                            assert(mm.subrange(0, k + 1).last() == mand@[k as int]@);
                            let found = Self::arm_has(arms, mand[k].as_str());
                            if !found {
                                unhandled.push(mand[k].clone());
                            }
                            k = k + 1;
                            assert(strs_m(unhandled@) =~= missing_variants(mm.subrange(0, k as int), names));
                        }
                        assert(mm.subrange(0, k as int) =~= mm);
                        if unhandled.len() > 0 {
                            let mut m = owned("Compile-Time Interface Failure: Match block for enum '");
                            push_str(&mut m, parent.as_str());
                            push_str(&mut m, "' missing branch variants: ");
                            Self::push_debug_list(&mut m, &unhandled);
                            return Err(m);
                        }
                        Ok(())
                    },
                    None => Ok(()),
                }
            },
            _ => Ok(()),
        }
    }

    /// Whether some arm's pattern is `name`.
    fn arm_has(arms: &Vec<(String, Vec<String>, Expression)>, name: &str) -> (r: bool)
        ensures
            r == arm_names(arms_m(arms@)).contains(name@),
    {
        proof {
            lemma_arms_m(arms@);
        }
        let ghost names = arm_names(arms_m(arms@));
        let mut i: usize = 0;
        while i < arms.len()
            invariant
                i <= arms@.len(),
                names == arm_names(arms_m(arms@)),
                names.len() == arms@.len(),
                forall|q: int| 0 <= q < arms@.len() ==> #[trigger] names[q] == arms@[q].0@,
                forall|q: int| 0 <= q < i ==> names[q] != name@,
            decreases arms@.len() - i,
        {
            if str_eq(arms[i].0.as_str(), name) {
                assert(names[i as int] == name@);
                return true;
            }
            i = i + 1;
        }
        false
    }

    /// Appends `[a, b, ...]` with each item written as `{:?}` writes a string.
    fn push_debug_list(out: &mut String, items: &Vec<String>)
        ensures
            final(out)@ == old(out)@ + debug_list(strs_m(items@)),
    {
        let ghost s = strs_m(items@);
        let ghost start = out@;
        push_str(out, "[");
        let mut k: usize = 0;
        while k < items.len()
            invariant
                k <= items@.len(),
                s == strs_m(items@),
                s.len() == items@.len(),
                out@ == start + "["@ + debug_items(s.subrange(0, k as int)),
            decreases items@.len() - k,
        {
            let ghost before = out@;
            assert(s.subrange(0, k + 1).drop_last() =~= s.subrange(0, k as int));
            assert(s.subrange(0, k + 1).last() == items@[k as int]@);
            if k > 0 {
                push_str(out, ", ");
            }
            let d = str_debug(items[k].as_str());
            push_str(out, d.as_str());
            k = k + 1;
            assert(out@ =~= start + "["@ + debug_items(s.subrange(0, k as int)));
        }
        assert(s.subrange(0, k as int) =~= s);
        push_str(out, "]");
        assert(out@ =~= start + debug_list(s));
    }
}

} // verus!
