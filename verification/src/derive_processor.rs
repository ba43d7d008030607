//! The derive attribute: a struct marked `मुद्रणयोग्यता` gets a generated
//! printing implementation placed right after its declaration.
use vstd::prelude::*;
use crate::ast::{ASTNode, Expression, AccessModifier, ExprM, NodeM, node_m, nodes_m, pairs_m, strs_m,
    lemma_nodes_m, lemma_nodes_m_push};
use crate::util::{owned, push_str, str_eq};

verus! {

/// The attribute that asks for a printing implementation.
pub open spec fn debug_attr() -> Seq<char> {
    "मुद्रणयोग्यता"@
}

/// The statement that prints one field of `स्वयं`.
pub open spec fn field_print(field: Seq<char>) -> NodeM {
    NodeM::StatementExpr(ExprM::Call {
        name: "मुद्रण"@,
        args: seq![ExprM::Variable("स्वयं."@ + field)],
    })
}

/// The printing implementation generated for a struct.
pub open spec fn debug_impl(name: Seq<char>, fields: Seq<(Seq<char>, Seq<char>)>) -> NodeM {
    NodeM::ImplBlock {
        trait_name: "मुद्रणयोग्यता"@,
        target_type: name,
        methods: seq![NodeM::FuncDecl {
            name: "विवरणम्"@,
            parameters: seq![("स्वयं"@, name)],
            return_type: "शून्य"@,
            body: fields.map_values(|f: (Seq<char>, Seq<char>)| field_print(f.0)),
            access_level: AccessModifier::Public,
        }],
    }
}

/// One implementation per occurrence of the attribute.
pub open spec fn debug_impls(attrs: Seq<Seq<char>>, name: Seq<char>, fields: Seq<(Seq<char>, Seq<char>)>) -> Seq<NodeM>
    decreases attrs.len(),
{
    if attrs.len() == 0 {
        Seq::empty()
    } else if attrs.last() == debug_attr() {
        debug_impls(attrs.drop_last(), name, fields).push(debug_impl(name, fields))
    } else {
        debug_impls(attrs.drop_last(), name, fields)
    }
}

/// A statement followed by what its attributes generate.
pub open spec fn derive_node(n: NodeM) -> Seq<NodeM> {
    match n {
        NodeM::StructDecl { name, attributes, fields, .. } => seq![n] + debug_impls(attributes, name, fields),
        _ => seq![n],
    }
}

pub open spec fn derive_nodes(ns: Seq<NodeM>) -> Seq<NodeM>
    decreases ns.len(),
{
    if ns.len() == 0 {
        Seq::empty()
    } else {
        derive_nodes(ns.drop_last()) + derive_node(ns.last())
    }
}

/// The derive pass.
pub struct DeriveProcessor;

impl Default for DeriveProcessor {
    fn default() -> (r: Self) {
        DeriveProcessor
    }
}

impl DeriveProcessor {
    pub fn new() -> (r: Self) {
        DeriveProcessor
    }

    /// Copies the statements, placing after each struct declaration one
    /// printing implementation per `मुद्रणयोग्यता` attribute it carries.
    pub fn expand_attributes(&mut self, nodes: Vec<ASTNode>) -> (r: Vec<ASTNode>)
        ensures
            nodes_m(r@) == derive_nodes(nodes_m(nodes@)),
    {
        let ghost nm = nodes_m(nodes@);
        proof {
            lemma_nodes_m(nodes@);
        }
        let mut out: Vec<ASTNode> = Vec::new();
        let mut i: usize = 0;
        while i < nodes.len()
            invariant
                i <= nodes@.len(),
                nm == nodes_m(nodes@),
                nm.len() == nodes@.len(),
                forall|q: int| 0 <= q < nodes@.len() ==> #[trigger] nm[q] == node_m(nodes@[q]),
                nodes_m(out@) == derive_nodes(nm.subrange(0, i as int)),
            decreases nodes@.len() - i,
        {
            assert(nm.subrange(0, i + 1).drop_last() =~= nm.subrange(0, i as int));
            assert(nm.subrange(0, i + 1).last() == nm[i as int]);
            let node = &nodes[i];
            let ghost before = out@;
            match node {
                ASTNode::StructDecl { name, attributes, fields, .. } => {
                    let c = crate::ast::clone_node(node);
                    let ghost cg = c;
                    out.push(c);
                    proof {
                        lemma_nodes_m_push(before, cg);
                        assert(nodes_m(out@) =~= derive_nodes(nm.subrange(0, i as int)) + seq![nm[i as int]]);
                    }
                    let ghost mid = nodes_m(out@);
                    let ghost am = strs_m(attributes@);
                    let mut k: usize = 0;
                    while k < attributes.len()
                        invariant
                            k <= attributes@.len(),
                            am == strs_m(attributes@),
                            nodes_m(out@) == mid + debug_impls(am.subrange(0, k as int), name@, pairs_m(fields@)),
                        decreases attributes@.len() - k,
                    {
                        assert(am.subrange(0, k + 1).drop_last() =~= am.subrange(0, k as int));
                        assert(am.subrange(0, k + 1).last() == attributes@[k as int]@);
                        if str_eq(attributes[k].as_str(), "मुद्रणयोग्यता") {
                            let ghost b2 = out@;
                            let imp = Self::generate_debug_impl(name, fields);
                            let ghost ig = imp;
                            out.push(imp);
                            proof {
                                lemma_nodes_m_push(b2, ig);
                                assert(nodes_m(out@) =~= mid + debug_impls(am.subrange(0, k + 1), name@, pairs_m(fields@)));
                            }
                        }
                        k = k + 1;
                    }
                    assert(am.subrange(0, k as int) =~= am);
                    assert(nodes_m(out@) =~= derive_nodes(nm.subrange(0, i + 1)));
                },
                _ => {
                    let c = crate::ast::clone_node(node);
                    let ghost cg = c;
                    out.push(c);
                    proof {
                        lemma_nodes_m_push(before, cg);
                        assert(nodes_m(out@) =~= derive_nodes(nm.subrange(0, i + 1)));
                    }
                },
            }
            i = i + 1;
        }
        assert(nm.subrange(0, i as int) =~= nm);
        out
    }

    fn generate_debug_impl(struct_name: &String, fields: &Vec<(String, String)>) -> (r: ASTNode)
        ensures
            r@ == debug_impl(struct_name@, pairs_m(fields@)),
    {
        let mut body: Vec<ASTNode> = Vec::new();
        let ghost pm = pairs_m(fields@);
        let mut j: usize = 0;
        while j < fields.len()
            invariant
                j <= fields@.len(),
                pm == pairs_m(fields@),
                nodes_m(body@) == pm.subrange(0, j as int).map_values(|f: (Seq<char>, Seq<char>)| field_print(f.0)),
            decreases fields@.len() - j,
        {
            let mut target = owned("स्वयं.");
            push_str(&mut target, fields[j].0.as_str());
            let mut args: Vec<Expression> = Vec::new();
            args.push(Expression::Variable(target));
            let stmt = ASTNode::StatementExpr(Expression::Call { name: owned("मुद्रण"), args });
            assert(crate::ast::exprs_m(args@) =~= seq![ExprM::Variable("स्वयं."@ + fields@[j as int].0@)]) by {
                crate::ast::lemma_exprs_m(args@);
            }
            assert(node_m(stmt) == field_print(pm[j as int].0));
            let ghost b = body@;
            let ghost sg = stmt;
            body.push(stmt);
            proof {
                lemma_nodes_m_push(b, sg);
            }
            j = j + 1;
            assert(nodes_m(body@) =~= pm.subrange(0, j as int).map_values(|f: (Seq<char>, Seq<char>)| field_print(f.0)));
        }
        assert(pm.subrange(0, j as int) =~= pm);
        let mut params: Vec<(String, String)> = Vec::new();
        params.push((owned("स्वयं"), struct_name.clone()));
        assert(pairs_m(params@) =~= seq![("स्वयं"@, struct_name@)]);
        let method = ASTNode::FuncDecl {
            name: owned("विवरणम्"),
            parameters: params,
            return_type: owned("शून्य"),
            body,
            access_level: AccessModifier::Public,
        };
        let ghost mg = method;
        let mut methods: Vec<ASTNode> = Vec::new();
        methods.push(method);
        proof {
            lemma_nodes_m_push(Seq::<ASTNode>::empty(), mg);
            assert(Seq::<ASTNode>::empty().push(mg) =~= methods@);
            assert(nodes_m(methods@) =~= seq![node_m(mg)]);
        }
        let r = ASTNode::ImplBlock { trait_name: owned("मुद्रणयोग्यता"), target_type: struct_name.clone(), methods };
        r
    }
}

} // verus!
