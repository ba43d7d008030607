//! The diagnostics the editor shows for a source: every phase of the
//! pipeline from parsing to linking, each failure placed in the source.
use vstd::prelude::*;
use crate::ast::{ASTNode, NodeM, nodes_m, opt_str_m};
use crate::lexer::{SpannedToken, tokens_m, SpannedTokenM};
use crate::parser::{Parser, program_spec};
use crate::semantic::{TypeChecker, TableM, check_nodes_spec, builtin_scope, nodes_height};
use crate::macro_expander::{MacroExpander, expand_nodes};
use crate::derive_processor::{DeriveProcessor, derive_nodes};
use crate::monomorphizer::{ASTMonomorphizer, MonoM, mono_process};
use crate::optimizer::{ASTOptimizer, nodes_folds_fit, opt_nodes};
use crate::borrow_checker::{BorrowChecker, BorrowM, borrow_nodes};
use crate::exhaustiveness::{ExhaustivenessAnalyzer, ExhM, exh_nodes, register_nodes};
use crate::compiler::{BytecodeCompiler, CompileErrorM, Step, initial_state, nodes_spec, link_spec,
    compile_error_text, lemma_nodes_grows, lemma_nodes_step};
use crate::payload::Diagnostic;
use crate::location::{phase_error, parse_error, inferred_location, message_location};
use crate::text::byte_len;
use crate::util::owned;

verus! {

/// A diagnostic as values: line, column, message, Sanskrit message, severity.
pub type DiagM = (int, int, Seq<char>, Option<Seq<char>>, Seq<char>);

pub open spec fn diag_m(d: Diagnostic) -> DiagM {
    (d.line as int, d.column as int, d.message@, opt_str_m(d.sanskrit_message), d.severity@)
}

pub open spec fn diags_m(ds: Seq<Diagnostic>) -> Seq<DiagM> {
    ds.map_values(|d: Diagnostic| diag_m(d))
}

/// The warning for a source with no tokens.
pub open spec fn empty_warning() -> DiagM {
    (1, 1, "Empty source file or no tokens recognized."@, Some("रिक्तं मूलपत्रम्"@), "warning"@)
}

/// An error of a phase after parsing, placed at the symbol it quotes.
pub open spec fn phase_diag(source: Seq<char>, prefix: Seq<char>, m: Seq<char>) -> DiagM {
    (inferred_location(source, m).0, inferred_location(source, m).1, prefix + m, None, "error"@)
}

/// A parser error, placed where its message says.
pub open spec fn parse_diag(e: Seq<char>) -> DiagM {
    (message_location(e).0, message_location(e).1, "Parse error: "@ + e, None, "error"@)
}

/// Whether some diagnostic is an error.
pub open spec fn has_error(ds: Seq<DiagM>) -> bool {
    exists|i: int| 0 <= i < ds.len() && (#[trigger] ds[i]).4 == "error"@
}

/// The type checker's state when it starts.
pub open spec fn fresh_table() -> TableM {
    TableM { scopes: seq![builtin_scope()], depth: 0, errors: Seq::empty() }
}

/// Macro expansion, derives, monomorphization and constant folding, each
/// from a fresh state; `None` where one of them refuses the program.
pub open spec fn transform_spec(prog: Seq<NodeM>) -> Option<Seq<NodeM>> {
    match expand_nodes(Map::empty(), prog) {
        None => None,
        Some(e) => match mono_process(MonoM { templates: Map::empty(), generated: Seq::empty() }, derive_nodes(e.1)) {
            None => None,
            Some(m) => if nodes_folds_fit(m.1) { Some(opt_nodes(m.1)) } else { None },
        },
    }
}

/// The program the later phases see: the checked program, or where the
/// type checker reported errors, the program as parsed.
pub open spec fn checked_or_parsed(ast: Seq<NodeM>) -> Seq<NodeM> {
    let (t, ns) = check_nodes_spec(fresh_table(), ast);
    if t.errors.len() > 0 { ast } else { ns }
}

/// The type errors as diagnostics.
pub open spec fn type_diags(source: Seq<char>, ast: Seq<NodeM>) -> Seq<DiagM> {
    check_nodes_spec(fresh_table(), ast).0.errors.map_values(|e: Seq<char>| phase_diag(source, "Type error: "@, e))
}

/// The borrow and exhaustiveness errors of a transformed program.
pub open spec fn check_diags(source: Seq<char>, opt: Seq<NodeM>) -> Seq<DiagM> {
    let b = match borrow_nodes(BorrowM { owned: Map::empty(), borrows: Map::empty() }, opt) {
        Err(m) => seq![phase_diag(source, "Borrow check error: "@, m)],
        Ok(_) => Seq::empty(),
    };
    let x = match exh_nodes(register_nodes(ExhM { enums: Map::empty(), variant_of: Map::empty() }, opt), opt) {
        Err(m) => seq![phase_diag(source, "Exhaustiveness check error: "@, m)],
        Ok(()) => Seq::empty(),
    };
    b + x
}

/// Compiling and linking a transformed program: the diagnostic of the
/// first compile error or of the link error, and the linked code.
pub open spec fn build_spec(source: Seq<char>, opt: Seq<NodeM>) -> (Seq<DiagM>, Option<Seq<u8>>) {
    match nodes_spec(initial_state(), opt) {
        Step::Done(s) => match link_spec(s.code, s.functions, s.calls) {
            Ok(code) => (Seq::empty(), Some(code)),
            Err(name) => (seq![phase_diag(source, "Link error: "@,
                compile_error_text(CompileErrorM::LinkError("failed to locate function target '"@ + name + "'"@)))], None),
        },
        Step::Fail(e) => (seq![phase_diag(source, "Compile error: "@, compile_error_text(e))], None),
        Step::Abort => (Seq::empty(), None),
    }
}

/// What the editor shows for a source and its tokens: the diagnostics in
/// order and the linked code, where linking succeeded.  `None` where macro
/// expansion, monomorphization or constant folding refuses the program.
pub open spec fn editor_compile_spec(source: Seq<char>, ts: Seq<SpannedTokenM>) -> Option<(Seq<DiagM>, Option<Seq<u8>>)> {
    let d0: Seq<DiagM> = if ts.len() == 0 { seq![empty_warning()] } else { Seq::empty() };
    match program_spec(ts, 0, Seq::empty()) {
        Err(e) => Some((d0.push(parse_diag(e)), None)),
        Ok(ast) => match transform_spec(checked_or_parsed(ast)) {
            None => None,
            Some(opt) => {
                let d1 = d0 + type_diags(source, ast) + check_diags(source, opt);
                let b = build_spec(source, opt);
                Some((d1 + b.0, b.1))
            },
        },
    }
}

/// The limits the phases work within: a source whose length fits, a parse
/// whose depth fits, and a program without a text too long to be written.
pub open spec fn editor_fits(source: Seq<char>, ts: Seq<SpannedTokenM>) -> bool {
    &&& byte_len(source) < usize::MAX
    &&& ts.len() < usize::MAX
    &&& (program_spec(ts, 0, Seq::empty()) matches Ok(ast) ==> nodes_height(ast) <= usize::MAX
        && (transform_spec(checked_or_parsed(ast)) matches Some(opt) ==> !(nodes_spec(initial_state(), opt) is Abort)))
}

fn push_diag(ds: &mut Vec<Diagnostic>, d: Diagnostic)
    ensures
        diags_m(final(ds)@) == diags_m(old(ds)@).push(diag_m(d)),
{
    let ghost before = ds@;
    ds.push(d);
    assert(diags_m(ds@) =~= diags_m(before).push(diag_m(d)));
}

/// Parsing and type checking: the parser's error, or the diagnostics so far
/// (the warning for an empty source, then the type errors) and the program
/// the later phases see.
fn front(source: &str, tokens: Vec<SpannedToken>) -> (r: Result<(Vec<Diagnostic>, Vec<ASTNode>), Vec<Diagnostic>>)
    requires
        editor_fits(source@, tokens_m(tokens@)),
    ensures
        ({
            let ts = tokens_m(tokens@);
            let d0: Seq<DiagM> = if ts.len() == 0 { seq![empty_warning()] } else { Seq::empty() };
            match program_spec(ts, 0, Seq::empty()) {
                Err(e) => r matches Err(ds) && diags_m(ds@) == d0.push(parse_diag(e)),
                Ok(ast) => r matches Ok(x) && diags_m(x.0@) == d0 + type_diags(source@, ast)
                    && nodes_m(x.1@) == checked_or_parsed(ast),
            }
        }),
{
    let ghost ts = tokens_m(tokens@);
    let mut ds: Vec<Diagnostic> = Vec::new();
    if tokens.len() == 0 {
        push_diag(&mut ds, Diagnostic {
            line: 1,
            column: 1,
            message: owned("Empty source file or no tokens recognized."),
            sanskrit_message: Some(owned("रिक्तं मूलपत्रम्")),
            severity: owned("warning"),
        });
    }
    assert(diags_m(ds@) =~= (if ts.len() == 0 { seq![empty_warning()] } else { Seq::<DiagM>::empty() }));
    let ghost d0 = diags_m(ds@);
    let mut parser = Parser::new(tokens);
    let ast = match parser.parse_program() {
        Ok(a) => a,
        Err(e) => {
            push_diag(&mut ds, parse_error(e.as_str()));
            return Err(ds);
        },
    };
    let ghost am = nodes_m(ast@);
    let mut tc = TypeChecker::new();
    let checked = match tc.check_program(clone_program(&ast)) {
        Ok(ca) => {
            assert(type_diags(source@, am) =~= Seq::<DiagM>::empty());
            assert(diags_m(ds@) =~= d0 + type_diags(source@, am));
            ca
        },
        Err(errors) => {
            let ghost errs = check_nodes_spec(fresh_table(), am).0.errors;
            assert(errs == errors@.map_values(|e: String| e@));
            let mut k: usize = 0;
            assert(d0 + errs.subrange(0, 0).map_values(|e: Seq<char>| phase_diag(source@, "Type error: "@, e)) =~= d0);
            while k < errors.len()
                invariant
                    k <= errors@.len(),
                    errs == errors@.map_values(|e: String| e@),
                    byte_len(source@) < usize::MAX,
                    diags_m(ds@) == d0 + errs.subrange(0, k as int).map_values(|e: Seq<char>| phase_diag(source@, "Type error: "@, e)),
                decreases errors@.len() - k,
            {
                assert(errs[k as int] == errors@[k as int]@);
                let d = phase_error(source, "Type error: ", errors[k].as_str());
                push_diag(&mut ds, d);
                k = k + 1;
                assert(diags_m(ds@) =~= d0 + errs.subrange(0, k as int).map_values(|e: Seq<char>| phase_diag(source@, "Type error: "@, e)));
            }
            assert(errs.subrange(0, k as int) =~= errs);
            ast
        },
    };
    Ok((ds, checked))
}

/// Macro expansion, derives, monomorphization and constant folding, each
/// from a fresh state.
fn transform(prog: Vec<ASTNode>) -> (r: Option<Vec<ASTNode>>)
    ensures
        match transform_spec(nodes_m(prog@)) {
            Some(o) => r matches Some(v) && nodes_m(v@) == o,
            None => r is None,
        },
{
    let mut me = MacroExpander::new();
    assert(me@ =~= Map::<Seq<char>, (Seq<Seq<char>>, Seq<NodeM>)>::empty());
    let expanded = match me.try_expand_program(prog) {
        Some(v) => v,
        None => {
            return None;
        },
    };
    let mut dp = DeriveProcessor::new();
    let derived = dp.expand_attributes(expanded);
    let mut mono = ASTMonomorphizer::new();
    assert(mono@ == MonoM { templates: Map::empty(), generated: Seq::empty() });
    let mo = match mono.try_process_program(derived) {
        Some(v) => v,
        None => {
            return None;
        },
    };
    let opt = ASTOptimizer::new();
    opt.try_optimize_program(mo)
}

/// The borrow and exhaustiveness errors of a transformed program.
fn check_phase(source: &str, opt: &Vec<ASTNode>) -> (r: Vec<Diagnostic>)
    requires
        byte_len(source@) < usize::MAX,
    ensures
        diags_m(r@) == check_diags(source@, nodes_m(opt@)),
{
    let mut ds: Vec<Diagnostic> = Vec::new();
    let mut bc = BorrowChecker::new();
    assert(bc@ == BorrowM { owned: Map::empty(), borrows: Map::empty() });
    match bc.check_program(opt.as_slice()) {
        Ok(()) => {},
        Err(e) => {
            push_diag(&mut ds, phase_error(source, "Borrow check error: ", e.as_str()));
        },
    }
    let mut ea = ExhaustivenessAnalyzer::new();
    assert(ea@ == ExhM { enums: Map::empty(), variant_of: Map::empty() });
    match ea.analyze_program(opt.as_slice()) {
        Ok(()) => {},
        Err(e) => {
            push_diag(&mut ds, phase_error(source, "Exhaustiveness check error: ", e.as_str()));
        },
    }
    assert(diags_m(ds@) =~= check_diags(source@, nodes_m(opt@)));
    ds
}

/// Compiling the statements in order, stopping at the first error, then
/// linking.
fn build(source: &str, opt: &Vec<ASTNode>) -> (r: (Vec<Diagnostic>, Option<Vec<u8>>))
    requires
        byte_len(source@) < usize::MAX,
        !(nodes_spec(initial_state(), nodes_m(opt@)) is Abort),
    ensures
        ({
            let b = build_spec(source@, nodes_m(opt@));
            diags_m(r.0@) == b.0 && match r.1 {
                Some(c) => b.1 == Some(c@),
                None => b.1 is None,
            }
        }),
{
    let ghost om = nodes_m(opt@);
    let mut ds: Vec<Diagnostic> = Vec::new();
    let mut cc = BytecodeCompiler::new();
    let mut i: usize = 0;
    proof {
        crate::ast::lemma_nodes_m(opt@);
        assert(om.subrange(0, om.len() as int) =~= om);
    }
    while i < opt.len()
        invariant
            i <= opt@.len(),
            om == nodes_m(opt@),
            om.len() == opt@.len(),
            forall|q: int| 0 <= q < opt@.len() ==> #[trigger] om[q] == crate::ast::node_m(opt@[q]),
            nodes_spec(initial_state(), om) == nodes_spec(cc@, om.subrange(i as int, om.len() as int)),
            !(nodes_spec(initial_state(), om) is Abort),
            byte_len(source@) < usize::MAX,
            ds@.len() == 0,
        decreases opt@.len() - i,
    {
        let ghost rest = om.subrange(i as int, om.len() as int);
        proof {
            crate::compiler::lemma_nodes_step(cc@, rest);
            assert(rest[0] == om[i as int]);
            assert(rest.drop_first() =~= om.subrange(i + 1, om.len() as int));
        }
        let node = crate::ast::clone_node(&opt[i]);
        match cc.compile(node) {
            Ok(()) => {},
            Err(e) => {
                let text = e.to_string();
                push_diag(&mut ds, phase_error(source, "Compile error: ", text.as_str()));
                assert(diags_m(ds@) =~= seq![phase_diag(source@, "Compile error: "@, text@)]);
                return (ds, None);
            },
        }
        i = i + 1;
    }
    proof {
        assert(om.subrange(i as int, om.len() as int) =~= Seq::<NodeM>::empty());
        lemma_nodes_grows(initial_state(), om);
    }
    match cc.link_unresolved_references() {
        Ok(()) => {
            let code = cc.get_bytecode();
            assert(diags_m(ds@) =~= Seq::<DiagM>::empty());
            (ds, Some(code))
        },
        Err(e) => {
            let text = e.to_string();
            push_diag(&mut ds, phase_error(source, "Link error: ", text.as_str()));
            assert(diags_m(ds@) =~= seq![phase_diag(source@, "Link error: "@, text@)]);
            (ds, None)
        },
    }
}

/// The diagnostics of every phase from parsing to linking, and the linked
/// code, as [`editor_compile_spec`] states them; `None` where a program
/// transformation refuses the program.
pub fn editor_diagnostics(source: &str, tokens: Vec<SpannedToken>) -> (r: Option<(Vec<Diagnostic>, Option<Vec<u8>>)>)
    requires
        editor_fits(source@, tokens_m(tokens@)),
    ensures
        match editor_compile_spec(source@, tokens_m(tokens@)) {
            Some(x) => r matches Some(y) && diags_m(y.0@) == x.0 && match y.1 {
                Some(c) => x.1 == Some(c@),
                None => x.1 is None,
            },
            None => r is None,
        },
{
    let ghost ts = tokens_m(tokens@);
    let (mut ds, prog) = match front(source, tokens) {
        Ok(x) => x,
        Err(ds) => {
            return Some((ds, None));
        },
    };
    let optimized = match transform(prog) {
        Some(v) => v,
        None => {
            return None;
        },
    };
    let ghost d1 = diags_m(ds@);
    let mut cd = check_phase(source, &optimized);
    let ghost c1 = diags_m(cd@);
    ds.append(&mut cd);
    assert(diags_m(ds@) =~= d1 + c1);
    let (mut bd, code) = build(source, &optimized);
    let ghost d2 = diags_m(ds@);
    let ghost b1 = diags_m(bd@);
    ds.append(&mut bd);
    assert(diags_m(ds@) =~= d2 + b1);
    Some((ds, code))
}

/// The diagnostics of a source from parsing to linking, as
/// [`editor_compile_spec`] states them (a run's error is added by whoever
/// runs the code); `None` where a program transformation refuses the
/// program.
pub fn diagnostics(source: &str, tokens: Vec<SpannedToken>) -> (r: Option<Vec<Diagnostic>>)
    requires
        editor_fits(source@, tokens_m(tokens@)),
    ensures
        match editor_compile_spec(source@, tokens_m(tokens@)) {
            Some(x) => r matches Some(v) && diags_m(v@) == x.0,
            None => r is None,
        },
{
    match editor_diagnostics(source, tokens) {
        Some(x) => Some(x.0),
        None => None,
    }
}

/// Whether some diagnostic is an error.
pub fn has_errors(ds: &Vec<Diagnostic>) -> (r: bool)
    ensures
        r == has_error(diags_m(ds@)),
{
    let mut i: usize = 0;
    while i < ds.len()
        invariant
            i <= ds@.len(),
            forall|q: int| 0 <= q < i ==> diags_m(ds@)[q].4 != "error"@,
        decreases ds@.len() - i,
    {
        if crate::util::str_eq(ds[i].severity.as_str(), "error") {
            assert(diags_m(ds@)[i as int].4 == "error"@);
            return true;
        }
        i = i + 1;
    }
    false
}

fn clone_program(v: &Vec<ASTNode>) -> (r: Vec<ASTNode>)
    ensures
        nodes_m(r@) == nodes_m(v@),
{
    crate::ast::clone_nodes(v)
}

} // verus!
