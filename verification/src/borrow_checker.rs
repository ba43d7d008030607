//! Ownership and borrow tracking: a read of a mutably borrowed variable and
//! conflicting borrows are rejected.  A borrow of a name recorded as not
//! owning its value is rejected too, but no statement moves a value: a
//! declaration records ownership and reads leave it, so that check never
//! fires and a borrow after a move is not detected.
use vstd::prelude::*;
use crate::ast::{ASTNode, Expression, ExprM, NodeM, expr_m, exprs_m, node_m, nodes_m, lemma_exprs_m, lemma_nodes_m};
use crate::util::{NameMap, owned, push_str};

verus! {

/// The model of the checker: which names own their value, and for each
/// name its count of shared borrows and whether it is mutably borrowed.
pub struct BorrowM {
    pub owned: Map<Seq<char>, bool>,
    pub borrows: Map<Seq<char>, (usize, bool)>,
}

/// One more shared borrow (the count stops at its maximum).
pub open spec fn bump(c: usize) -> usize {
    if c < usize::MAX { (c + 1) as usize } else { c }
}

/// Checking an expression: the borrows after it, or the error.
pub open spec fn borrow_expr(st: BorrowM, e: ExprM) -> Result<BorrowM, Seq<char>>
    decreases e, 1nat,
{
    match e {
        ExprM::Variable(name) => if st.borrows.dom().contains(name) && st.borrows[name].1 {
            Err("cannot read '"@ + name + "' because it is mutably borrowed"@)
        } else {
            Ok(st)
        },
        ExprM::BorrowExpr { target, is_mutable } => if st.owned.dom().contains(target) && !st.owned[target] {
            Err("cannot reference moved value '"@ + target + "'"@)
        } else {
            let entry = if st.borrows.dom().contains(target) { st.borrows[target] } else { (0usize, false) };
            if is_mutable {
                if entry.0 > 0 || entry.1 {
                    Err("cannot mutably borrow '"@ + target + "'"@)
                } else {
                    Ok(BorrowM { borrows: st.borrows.insert(target, (entry.0, true)), ..st })
                }
            } else if entry.1 {
                Err("cannot immutably borrow '"@ + target + "'"@)
            } else {
                Ok(BorrowM { borrows: st.borrows.insert(target, (bump(entry.0), false)), ..st })
            }
        },
        ExprM::Binary { left, right, .. } => match borrow_expr(st, *left) {
            Ok(s1) => borrow_expr(s1, *right),
            Err(m) => Err(m),
        },
        ExprM::Call { args, .. } => borrow_exprs(st, args),
        _ => Ok(st),
    }
}

pub open spec fn borrow_exprs(st: BorrowM, es: Seq<ExprM>) -> Result<BorrowM, Seq<char>>
    decreases es, 0nat,
{
    if es.len() == 0 {
        Ok(st)
    } else {
        match borrow_expr(st, es[0]) {
            Ok(s1) => borrow_exprs(s1, es.drop_first()),
            Err(m) => Err(m),
        }
    }
}

/// Checking a statement.
pub open spec fn borrow_node(st: BorrowM, n: NodeM) -> Result<BorrowM, Seq<char>>
    decreases n, 1nat,
{
    match n {
        NodeM::VarDecl { name, value, .. } => match borrow_expr(st, value) {
            Ok(s1) => Ok(BorrowM { owned: s1.owned.insert(name, true), borrows: s1.borrows.insert(name, (0usize, false)) }),
            Err(m) => Err(m),
        },
        NodeM::IfStmt { condition, then_branch, else_branch } => match borrow_expr(st, condition) {
            Ok(s1) => match borrow_nodes(s1, then_branch) {
                Ok(s2) => match else_branch {
                    Some(eb) => borrow_nodes(s2, eb),
                    None => Ok(s2),
                },
                Err(m) => Err(m),
            },
            Err(m) => Err(m),
        },
        NodeM::WhileStmt { condition, body } => match borrow_expr(st, condition) {
            Ok(s1) => borrow_nodes(s1, body),
            Err(m) => Err(m),
        },
        NodeM::StatementExpr(e) => borrow_expr(st, e),
        NodeM::ReturnStmt(e) => borrow_expr(st, e),
        NodeM::Block(b) => borrow_nodes(st, b),
        _ => Ok(st),
    }
}

pub open spec fn borrow_nodes(st: BorrowM, ns: Seq<NodeM>) -> Result<BorrowM, Seq<char>>
    decreases ns, 0nat,
{
    if ns.len() == 0 {
        Ok(st)
    } else {
        match borrow_node(st, ns[0]) {
            Ok(s1) => borrow_nodes(s1, ns.drop_first()),
            Err(m) => Err(m),
        }
    }
}

/// A mutable borrow is exclusive: once a name is mutably borrowed, reading
/// it and borrowing it again, either way, are refused; and a name that has
/// a shared borrow cannot then be borrowed mutably.
pub proof fn law_mutable_borrow_exclusive(st: BorrowM, name: Seq<char>, again_mutable: bool)
    ensures
        borrow_expr(st, ExprM::BorrowExpr { target: name, is_mutable: true }) matches Ok(s1) ==> {
            &&& borrow_expr(s1, ExprM::Variable(name)) is Err
            &&& borrow_expr(s1, ExprM::BorrowExpr { target: name, is_mutable: again_mutable }) is Err
        },
        borrow_expr(st, ExprM::BorrowExpr { target: name, is_mutable: false }) matches Ok(s1)
            ==> borrow_expr(s1, ExprM::BorrowExpr { target: name, is_mutable: true }) is Err,
{
}

/// Whether an expression reads the variable `x`: directly, in an operand
/// of an operator, or in an argument of a call.
pub open spec fn reads_var(e: ExprM, x: Seq<char>) -> bool
    decreases e, 1nat,
{
    match e {
        ExprM::Variable(n) => n == x,
        ExprM::Binary { left, right, .. } => reads_var(*left, x) || reads_var(*right, x),
        ExprM::Call { args, .. } => reads_var_any(args, x),
        _ => false,
    }
}

pub open spec fn reads_var_any(es: Seq<ExprM>, x: Seq<char>) -> bool
    decreases es, 0nat,
{
    es.len() > 0 && (reads_var(es[0], x) || reads_var_any(es.drop_first(), x))
}

/// A name is mutably borrowed in the registries.
pub open spec fn mut_borrowed(st: BorrowM, x: Seq<char>) -> bool {
    st.borrows.dom().contains(x) && st.borrows[x].1
}

/// Checking never ends a mutable borrow.
pub proof fn lemma_mut_borrow_stays(st: BorrowM, e: ExprM, x: Seq<char>)
    ensures
        borrow_expr(st, e) matches Ok(s1) ==> (mut_borrowed(st, x) ==> mut_borrowed(s1, x)),
    decreases e, 1nat,
{
    match e {
        ExprM::Binary { left, right, .. } => {
            lemma_mut_borrow_stays(st, *left, x);
            if let Ok(s1) = borrow_expr(st, *left) {
                lemma_mut_borrow_stays(s1, *right, x);
            }
        },
        ExprM::Call { args, .. } => {
            lemma_mut_borrow_stays_all(st, args, x);
        },
        _ => {},
    }
}

pub proof fn lemma_mut_borrow_stays_all(st: BorrowM, es: Seq<ExprM>, x: Seq<char>)
    ensures
        borrow_exprs(st, es) matches Ok(s1) ==> (mut_borrowed(st, x) ==> mut_borrowed(s1, x)),
    decreases es, 0nat,
{
    if es.len() > 0 {
        lemma_mut_borrow_stays(st, es[0], x);
        if let Ok(s1) = borrow_expr(st, es[0]) {
            lemma_mut_borrow_stays_all(s1, es.drop_first(), x);
        }
    }
}

/// A mutably borrowed name cannot be read: any expression that reads it,
/// as an operand or as an argument of a call at any place, is rejected.
pub proof fn law_mutably_borrowed_is_unreadable(st: BorrowM, e: ExprM, x: Seq<char>)
    requires
        mut_borrowed(st, x),
        reads_var(e, x),
    ensures
        borrow_expr(st, e) is Err,
    decreases e, 1nat,
{
    match e {
        ExprM::Binary { left, right, .. } => {
            if reads_var(*left, x) {
                law_mutably_borrowed_is_unreadable(st, *left, x);
            } else {
                lemma_mut_borrow_stays(st, *left, x);
                if let Ok(s1) = borrow_expr(st, *left) {
                    law_mutably_borrowed_is_unreadable(s1, *right, x);
                }
            }
        },
        ExprM::Call { args, .. } => {
            law_mutably_borrowed_is_unreadable_all(st, args, x);
        },
        _ => {},
    }
}

pub proof fn law_mutably_borrowed_is_unreadable_all(st: BorrowM, es: Seq<ExprM>, x: Seq<char>)
    requires
        mut_borrowed(st, x),
        reads_var_any(es, x),
    ensures
        borrow_exprs(st, es) is Err,
    decreases es, 0nat,
{
    if reads_var(es[0], x) {
        law_mutably_borrowed_is_unreadable(st, es[0], x);
    } else {
        lemma_mut_borrow_stays(st, es[0], x);
        if let Ok(s1) = borrow_expr(st, es[0]) {
            law_mutably_borrowed_is_unreadable_all(s1, es.drop_first(), x);
        }
    }
}

/// Reading names that are not mutably borrowed is accepted and changes no
/// registry: a call whose arguments are such reads leaves the state as it
/// was.
pub proof fn law_free_reads_accepted(st: BorrowM, es: Seq<ExprM>)
    requires
        forall|i: int| 0 <= i < es.len() ==> (#[trigger] es[i]) is Variable && !mut_borrowed(st, es[i]->Variable_0),
    ensures
        borrow_exprs(st, es) == Ok::<BorrowM, Seq<char>>(st),
        forall|name: Seq<char>| borrow_expr(st, ExprM::Call { name: name, args: es }) == Ok::<BorrowM, Seq<char>>(st),
    decreases es.len(),
{
    if es.len() > 0 {
        let r = es.drop_first();
        assert forall|i: int| 0 <= i < r.len() implies (#[trigger] r[i]) is Variable && !mut_borrowed(st, r[i]->Variable_0) by {
            assert(r[i] == es[i + 1]);
        }
        law_free_reads_accepted(st, r);
        assert(es[0] is Variable);
        assert(borrow_expr(st, es[0]) == Ok::<BorrowM, Seq<char>>(st));
    }
}

/// The error for a read of a mutably borrowed name that comes first in a
/// call: the call is rejected naming that read, whatever the function.
pub proof fn law_call_reading_borrowed_first(st: BorrowM, name: Seq<char>, x: Seq<char>, rest: Seq<ExprM>)
    requires
        mut_borrowed(st, x),
    ensures
        borrow_expr(st, ExprM::Call { name: name, args: seq![ExprM::Variable(x)] + rest })
            == Err::<BorrowM, Seq<char>>("cannot read '"@ + x + "' because it is mutably borrowed"@),
{
    let args = seq![ExprM::Variable(x)] + rest;
    assert(args[0] == ExprM::Variable(x));
    let m = "cannot read '"@ + x + "' because it is mutably borrowed"@;
    assert(borrow_expr(st, ExprM::Variable(x)) == Err::<BorrowM, Seq<char>>(m));
    assert(borrow_exprs(st, args) == Err::<BorrowM, Seq<char>>(m));
}

/// The borrow checker and its registries.
pub struct BorrowChecker {
    pub ownership_registry: NameMap<bool>,
    pub borrow_registry: NameMap<(usize, bool)>,
}

impl View for BorrowChecker {
    type V = BorrowM;

    open spec fn view(&self) -> BorrowM {
        BorrowM { owned: self.ownership_registry@, borrows: self.borrow_registry@ }
    }
}

impl BorrowChecker {
    pub fn new() -> (r: Self)
        ensures
            r@.owned == Map::<Seq<char>, bool>::empty(),
            r@.borrows == Map::<Seq<char>, (usize, bool)>::empty(),
    {
        BorrowChecker { ownership_registry: NameMap::new(), borrow_registry: NameMap::new() }
    }

    /// Checks the statements in order; the first violation is the error.
    pub fn check_program(&mut self, nodes: &[ASTNode]) -> (r: Result<(), String>)
        ensures
            match borrow_nodes(old(self)@, nodes_m(nodes@)) {
                Ok(s) => r is Ok && final(self)@ == s,
                Err(m) => r matches Err(x) && x@ == m,
            },
    {
        let ghost nm = nodes_m(nodes@);
        let ghost s0 = self@;
        proof {
            lemma_nodes_m(nodes@);
            assert(nm.subrange(0, nm.len() as int) =~= nm);
        }
        let mut i: usize = 0;
        while i < nodes.len()
            invariant
                i <= nodes@.len(),
                nm == nodes_m(nodes@),
                nm.len() == nodes@.len(),
                s0 == old(self)@,
                forall|q: int| 0 <= q < nodes@.len() ==> #[trigger] nm[q] == node_m(nodes@[q]),
                borrow_nodes(s0, nm) == borrow_nodes(self@, nm.subrange(i as int, nm.len() as int)),
            decreases nodes@.len() - i,
        {
            let ghost rest = nm.subrange(i as int, nm.len() as int);
            assert(rest[0] == nm[i as int]);
            assert(rest.drop_first() =~= nm.subrange(i + 1, nm.len() as int));
            match self.check_node(&nodes[i]) {
                Ok(()) => {},
                Err(m) => {
                    return Err(m);
                },
            }
            i = i + 1;
        }
        assert(nm.subrange(i as int, nm.len() as int) =~= Seq::<NodeM>::empty());
        Ok(())
    }

    fn check_nodes(&mut self, nodes: &Vec<ASTNode>) -> (r: Result<(), String>)
        ensures
            match borrow_nodes(old(self)@, nodes_m(nodes@)) {
                Ok(s) => r is Ok && final(self)@ == s,
                Err(m) => r matches Err(x) && x@ == m,
            },
        decreases nodes, 0nat,
    {
        let ghost nm = nodes_m(nodes@);
        let ghost s0 = self@;
        proof {
            lemma_nodes_m(nodes@);
            assert(nm.subrange(0, nm.len() as int) =~= nm);
        }
        let mut i: usize = 0;
        while i < nodes.len()
            invariant
                i <= nodes@.len(),
                nm == nodes_m(nodes@),
                nm.len() == nodes@.len(),
                s0 == old(self)@,
                forall|q: int| 0 <= q < nodes@.len() ==> #[trigger] nm[q] == node_m(nodes@[q]),
                borrow_nodes(s0, nm) == borrow_nodes(self@, nm.subrange(i as int, nm.len() as int)),
            decreases nodes@.len() - i,
        {
            let ghost rest = nm.subrange(i as int, nm.len() as int);
            assert(rest[0] == nm[i as int]);
            assert(rest.drop_first() =~= nm.subrange(i + 1, nm.len() as int));
            assert(decreases_to!(*nodes => nodes@));
            assert(decreases_to!(nodes@ => nodes@[i as int]));
            match self.check_node(&nodes[i]) {
                Ok(()) => {},
                Err(m) => {
                    return Err(m);
                },
            }
            i = i + 1;
        }
        assert(nm.subrange(i as int, nm.len() as int) =~= Seq::<NodeM>::empty());
        Ok(())
    }

    fn check_node(&mut self, node: &ASTNode) -> (r: Result<(), String>)
        ensures
            match borrow_node(old(self)@, node@) {
                Ok(s) => r is Ok && final(self)@ == s,
                Err(m) => r matches Err(x) && x@ == m,
            },
        decreases node, 1nat,
    {
        match node {
            ASTNode::VarDecl { name, value, .. } => {
                match self.check_expr(value) {
                    Ok(()) => {},
                    Err(m) => {
                        return Err(m);
                    },
                }
                self.ownership_registry.insert(name.clone(), true);
                self.borrow_registry.insert(name.clone(), (0, false));
                Ok(())
            },
            ASTNode::IfStmt { condition, then_branch, else_branch } => {
                match self.check_expr(condition) {
                    Ok(()) => {},
                    Err(m) => {
                        return Err(m);
                    },
                }
                match self.check_nodes(then_branch) {
                    Ok(()) => {},
                    Err(m) => {
                        return Err(m);
                    },
                }
                match else_branch {
                    Some(eb) => self.check_nodes(eb),
                    None => Ok(()),
                }
            },
            ASTNode::WhileStmt { condition, body } => {
                match self.check_expr(condition) {
                    Ok(()) => {},
                    Err(m) => {
                        return Err(m);
                    },
                }
                self.check_nodes(body)
            },
            ASTNode::StatementExpr(e) => self.check_expr(e),
            ASTNode::ReturnStmt(e) => self.check_expr(e),
            ASTNode::Block(stmts) => self.check_nodes(stmts),
            _ => Ok(()),
        }
    }

    fn check_exprs(&mut self, es: &Vec<Expression>) -> (r: Result<(), String>)
        ensures
            match borrow_exprs(old(self)@, exprs_m(es@)) {
                Ok(s) => r is Ok && final(self)@ == s,
                Err(m) => r matches Err(x) && x@ == m,
            },
        decreases es, 0nat,
    {
        let ghost em = exprs_m(es@);
        let ghost s0 = self@;
        proof {
            lemma_exprs_m(es@);
            assert(em.subrange(0, em.len() as int) =~= em);
        }
        let mut i: usize = 0;
        while i < es.len()
            invariant
                i <= es@.len(),
                em == exprs_m(es@),
                em.len() == es@.len(),
                s0 == old(self)@,
                forall|q: int| 0 <= q < es@.len() ==> #[trigger] em[q] == expr_m(es@[q]),
                borrow_exprs(s0, em) == borrow_exprs(self@, em.subrange(i as int, em.len() as int)),
            decreases es@.len() - i,
        {
            let ghost rest = em.subrange(i as int, em.len() as int);
            assert(rest[0] == em[i as int]);
            assert(rest.drop_first() =~= em.subrange(i + 1, em.len() as int));
            assert(decreases_to!(*es => es@));
            assert(decreases_to!(es@ => es@[i as int]));
            match self.check_expr(&es[i]) {
                Ok(()) => {},
                Err(m) => {
                    return Err(m);
                },
            }
            i = i + 1;
        }
        assert(em.subrange(i as int, em.len() as int) =~= Seq::<ExprM>::empty());
        Ok(())
    }

    fn check_expr(&mut self, expr: &Expression) -> (r: Result<(), String>)
        ensures
            match borrow_expr(old(self)@, expr@) {
                Ok(s) => r is Ok && final(self)@ == s,
                Err(m) => r matches Err(x) && x@ == m,
            },
        decreases expr, 1nat,
    {
        match expr {
            Expression::Variable(name) => {
                let mutably = match self.borrow_registry.get(name.as_str()) {
                    Some(e) => e.1,
                    None => false,
                };
                if mutably {
                    let mut m = owned("cannot read '");
                    push_str(&mut m, name.as_str());
                    push_str(&mut m, "' because it is mutably borrowed");
                    return Err(m);
                }
                Ok(())
            },
            Expression::BorrowExpr { target, is_mutable } => {
                let moved = match self.ownership_registry.get(target.as_str()) {
                    Some(o) => !*o,
                    None => false,
                };
                if moved {
                    let mut m = owned("cannot reference moved value '");
                    push_str(&mut m, target.as_str());
                    push_str(&mut m, "'");
                    return Err(m);
                }
                let entry: (usize, bool) = match self.borrow_registry.get(target.as_str()) {
                    Some(e) => *e,
                    None => (0, false),
                };
                if *is_mutable {
                    if entry.0 > 0 || entry.1 {
                        let mut m = owned("cannot mutably borrow '");
                        push_str(&mut m, target.as_str());
                        push_str(&mut m, "'");
                        return Err(m);
                    }
                    self.borrow_registry.insert(target.clone(), (entry.0, true));
                } else {
                    if entry.1 {
                        let mut m = owned("cannot immutably borrow '");
                        push_str(&mut m, target.as_str());
                        push_str(&mut m, "'");
                        return Err(m);
                    }
                    let c = if entry.0 < usize::MAX { entry.0 + 1 } else { entry.0 };
                    self.borrow_registry.insert(target.clone(), (c, false));
                }
                Ok(())
            },
            Expression::Binary { left, right, .. } => {
                match self.check_expr(&**left) {
                    Ok(()) => {},
                    Err(m) => {
                        return Err(m);
                    },
                }
                self.check_expr(&**right)
            },
            Expression::Call { args, .. } => self.check_exprs(args),
            _ => Ok(()),
        }
    }
}

} // verus!
