//! Editor services: completions, hover texts, document symbols, formatting
//! and go-to-definition.
use vstd::prelude::*;
use crate::ast::{ASTNode, Expression, ExprM, NodeM, node_m, nodes_m, lemma_nodes_m};
use crate::lexer::{Lexer, lex, tokens_m, lemma_lex_len};
use crate::parser::{Parser, program_spec};
use crate::text::{lines, lines_of, trim_end, trim_end_len, join_lines, first_match, find_chars,
    prefix_bytes, byte_len, lemma_lines_bytes, split_on, strip_cr, lemma_trim_end, lemma_split_on_pieces,
    lemma_split_join};
use crate::util::{owned, push_str, chars_of, string_from_chars, str_eq};
use crate::ast::strs_m;

verus! {

pub struct SourceRequest {
    pub source: String,
}

pub struct HoverRequest {
    pub word: String,
}

pub struct DefinitionRequest {
    pub source: String,
    pub symbol: String,
}

pub struct CompletionItem {
    pub label: String,
    pub kind: String,
    pub detail: String,
}

pub struct HoverResponse {
    pub contents: Option<String>,
}

pub struct SymbolItem {
    pub name: String,
    pub kind: String,
}

pub struct FormatResponse {
    pub source: String,
}

pub struct DefinitionResponse {
    pub line: usize,
    pub column: usize,
    pub found: bool,
}

/// The keywords and builtins offered to the editor: label, kind, detail.
pub open spec fn keywords() -> Seq<(Seq<char>, Seq<char>, Seq<char>)> {
    seq![
        ("मान"@, "keyword"@, "variable declaration"@),
        ("कार्य"@, "keyword"@, "function declaration"@),
        ("प्रतिफल"@, "keyword"@, "return value"@),
        ("यदि"@, "keyword"@, "conditional branch"@),
        ("तर्हि"@, "keyword"@, "then branch"@),
        ("अन्यथा"@, "keyword"@, "else branch"@),
        ("यावत्"@, "keyword"@, "while loop"@),
        ("तावत्"@, "keyword"@, "while body"@),
        ("मुद्रण"@, "builtin"@, "print a value"@),
        ("दैर्घ्यम्"@, "builtin"@, "string length"@),
        ("प्रकारः"@, "builtin"@, "type name"@),
        ("योजन"@, "builtin"@, "string concatenation"@),
        ("अस्ति"@, "builtin"@, "string contains"@),
        ("संख्या"@, "builtin"@, "parse integer"@),
        ("रूपान्तर"@, "builtin"@, "convert value to string"@),
        ("रूपभेदः"@, "keyword"@, "enum declaration"@),
        ("समीक्षा"@, "keyword"@, "match expression"@),
        ("वस्तु_विन्यासः"@, "keyword"@, "struct declaration"@),
        ("गुणधर्म"@, "keyword"@, "trait declaration"@),
        ("अनुष्ठान"@, "keyword"@, "implementation block"@),
    ]
}

fn keyword_list() -> (r: Vec<(&'static str, &'static str, &'static str)>)
    ensures
        r@.len() == keywords().len(),
        forall|i: int| 0 <= i < r@.len() ==> (r@[i].0@, r@[i].1@, r@[i].2@) == #[trigger] keywords()[i],
{
    let mut v: Vec<(&'static str, &'static str, &'static str)> = Vec::new();
    v.push(("मान", "keyword", "variable declaration"));
    v.push(("कार्य", "keyword", "function declaration"));
    v.push(("प्रतिफल", "keyword", "return value"));
    v.push(("यदि", "keyword", "conditional branch"));
    v.push(("तर्हि", "keyword", "then branch"));
    v.push(("अन्यथा", "keyword", "else branch"));
    v.push(("यावत्", "keyword", "while loop"));
    v.push(("तावत्", "keyword", "while body"));
    v.push(("मुद्रण", "builtin", "print a value"));
    v.push(("दैर्घ्यम्", "builtin", "string length"));
    v.push(("प्रकारः", "builtin", "type name"));
    v.push(("योजन", "builtin", "string concatenation"));
    v.push(("अस्ति", "builtin", "string contains"));
    v.push(("संख्या", "builtin", "parse integer"));
    v.push(("रूपान्तर", "builtin", "convert value to string"));
    v.push(("रूपभेदः", "keyword", "enum declaration"));
    v.push(("समीक्षा", "keyword", "match expression"));
    v.push(("वस्तु_विन्यासः", "keyword", "struct declaration"));
    v.push(("गुणधर्म", "keyword", "trait declaration"));
    v.push(("अनुष्ठान", "keyword", "implementation block"));
    v
}

/// The view of a completion list.
pub open spec fn completions_view(v: Seq<CompletionItem>) -> Seq<(Seq<char>, Seq<char>, Seq<char>)> {
    v.map_values(|c: CompletionItem| (c.label@, c.kind@, c.detail@))
}

/// Every keyword and builtin, in the table's order.
pub fn completions() -> (r: Vec<CompletionItem>)
    ensures
        completions_view(r@) == keywords(),
{
    let kws = keyword_list();
    let mut out: Vec<CompletionItem> = Vec::new();
    let mut i: usize = 0;
    while i < kws.len()
        invariant
            i <= kws@.len(),
            kws@.len() == keywords().len(),
            forall|q: int| 0 <= q < kws@.len() ==> (kws@[q].0@, kws@[q].1@, kws@[q].2@) == #[trigger] keywords()[q],
            out@.len() == i,
            forall|q: int| 0 <= q < i ==> (out@[q].label@, out@[q].kind@, out@[q].detail@) == #[trigger] keywords()[q],
        decreases kws@.len() - i,
    {
        let (label, kind, detail) = kws[i];
        out.push(CompletionItem { label: owned(label), kind: owned(kind), detail: owned(detail) });
        i = i + 1;
    }
    assert(completions_view(out@) =~= keywords());
    out
}

/// The index of the first keyword with the label `word`, from `i` on.
pub open spec fn find_keyword(word: Seq<char>, i: int) -> Option<int>
    decreases keywords().len() - i,
{
    if i < 0 || i >= keywords().len() {
        None
    } else if keywords()[i].0 == word {
        Some(i)
    } else {
        find_keyword(word, i + 1)
    }
}

/// The hover text of a word: `label (kind) — detail` for a keyword.
pub open spec fn hover_text(word: Seq<char>) -> Option<Seq<char>> {
    match find_keyword(word, 0) {
        Some(i) => Some(keywords()[i].0 + " ("@ + keywords()[i].1 + ") — "@ + keywords()[i].2),
        None => None,
    }
}

/// The search finds the keyword at `target` where no keyword between `i`
/// and it carries the same label.
pub proof fn lemma_find_keyword(word: Seq<char>, i: int, target: int)
    requires
        0 <= i <= target < keywords().len(),
        keywords()[target].0 == word,
        forall|j: int| i <= j < target ==> (#[trigger] keywords()[j]).0 != word,
    ensures
        find_keyword(word, i) == Some(target),
    decreases target - i,
{
    if i < target {
        lemma_find_keyword(word, i + 1, target);
    }
}

/// Each completion hovers to its own text: its label, its kind and its
/// detail.
pub proof fn law_completion_hovers_to_itself(i: int)
    requires
        0 <= i < keywords().len(),
    ensures
        hover_text(keywords()[i].0)
            == Some(keywords()[i].0 + " ("@ + keywords()[i].1 + ") — "@ + keywords()[i].2),
{
    reveal_strlit("मान");
    reveal_strlit("कार्य");
    reveal_strlit("प्रतिफल");
    reveal_strlit("यदि");
    reveal_strlit("तर्हि");
    reveal_strlit("अन्यथा");
    reveal_strlit("यावत्");
    reveal_strlit("तावत्");
    reveal_strlit("मुद्रण");
    reveal_strlit("दैर्घ्यम्");
    reveal_strlit("प्रकारः");
    reveal_strlit("योजन");
    reveal_strlit("अस्ति");
    reveal_strlit("संख्या");
    reveal_strlit("रूपान्तर");
    reveal_strlit("रूपभेदः");
    reveal_strlit("समीक्षा");
    reveal_strlit("वस्तु_विन्यासः");
    reveal_strlit("गुणधर्म");
    reveal_strlit("अनुष्ठान");
    let k = keywords();
    assert forall|j: int| 0 <= j < i implies (#[trigger] k[j]).0 != k[i].0 by {
        assert(k[j].0.len() != k[i].0.len() || k[j].0[0] != k[i].0[0] || k[j].0[1] != k[i].0[1]
            || k[j].0[2] != k[i].0[2] || k[j].0[3] != k[i].0[3]);
    }
    lemma_find_keyword(k[i].0, 0, i);
}

pub fn hover(word: &str) -> (r: HoverResponse)
    ensures
        match hover_text(word@) {
            Some(t) => r.contents matches Some(c) && c@ == t,
            None => r.contents is None,
        },
{
    let kws = keyword_list();
    let mut i: usize = 0;
    while i < kws.len()
        invariant
            i <= kws@.len(),
            kws@.len() == keywords().len(),
            forall|q: int| 0 <= q < kws@.len() ==> (kws@[q].0@, kws@[q].1@, kws@[q].2@) == #[trigger] keywords()[q],
            find_keyword(word@, 0) == find_keyword(word@, i as int),
        decreases kws@.len() - i,
    {
        let (label, kind, detail) = kws[i];
        assert((kws@[i as int].0@, kws@[i as int].1@, kws@[i as int].2@) == keywords()[i as int]);
        if str_eq(label, word) {
            let mut t = owned(label);
            push_str(&mut t, " (");
            push_str(&mut t, kind);
            push_str(&mut t, ") — ");
            push_str(&mut t, detail);
            return HoverResponse { contents: Some(t) };
        }
        i = i + 1;
    }
    HoverResponse { contents: None }
}

/// The symbols of an expression statement: the name of a call.
pub open spec fn expr_symbols(e: ExprM) -> Seq<(Seq<char>, Seq<char>)> {
    match e {
        ExprM::Call { name, .. } => seq![(name, "call"@)],
        _ => Seq::empty(),
    }
}

/// The symbols a statement declares or calls, nested bodies included.
pub open spec fn node_symbols(n: NodeM) -> Seq<(Seq<char>, Seq<char>)>
    decreases n, 1nat,
{
    match n {
        NodeM::VarDecl { name, .. } => seq![(name, "variable"@)],
        NodeM::FuncDecl { name, .. } => seq![(name, "function"@)],
        NodeM::StructDecl { name, .. } => seq![(name, "struct"@)],
        NodeM::EnumDecl { name, variants, .. } => seq![(name, "enum"@)]
            + variants.map_values(|v: (Seq<char>, Option<Seq<Seq<char>>>)| (v.0, "variant"@)),
        NodeM::TraitDecl { name, .. } => seq![(name, "trait"@)],
        NodeM::IfStmt { then_branch, else_branch, .. } => nodes_symbols(then_branch) + match else_branch {
            Some(b) => nodes_symbols(b),
            None => Seq::empty(),
        },
        NodeM::WhileStmt { body, .. } => nodes_symbols(body),
        NodeM::Block(body) => nodes_symbols(body),
        NodeM::StatementExpr(e) => expr_symbols(e),
        NodeM::ReturnStmt(e) => expr_symbols(e),
        _ => Seq::empty(),
    }
}

pub open spec fn nodes_symbols(ns: Seq<NodeM>) -> Seq<(Seq<char>, Seq<char>)>
    decreases ns, 0nat,
{
    if ns.len() == 0 {
        Seq::empty()
    } else {
        nodes_symbols(ns.drop_last()) + node_symbols(ns.last())
    }
}

/// The view of a symbol list.
pub open spec fn symbols_view(v: Seq<SymbolItem>) -> Seq<(Seq<char>, Seq<char>)> {
    v.map_values(|s: SymbolItem| (s.name@, s.kind@))
}

/// The symbols of a source: none when it does not parse.
pub open spec fn source_symbols(s: Seq<char>) -> Seq<(Seq<char>, Seq<char>)> {
    match program_spec(lex(s), 0, Seq::empty()) {
        Ok(ns) => nodes_symbols(ns),
        Err(_) => Seq::empty(),
    }
}

pub fn symbols(source: &str) -> (r: Vec<SymbolItem>)
    requires
        source@.len() < usize::MAX,
    ensures
        symbols_view(r@) == source_symbols(source@),
{
    let mut lexer = Lexer::new(source);
    let tokens = lexer.tokenize();
    proof {
        lemma_lex_len(source@, crate::lexer::Cursor { pos: 0, line: 1, col: 1 });
        assert(tokens@.len() == tokens_m(tokens@).len());
    }
    let mut parser = Parser::new(tokens);
    let ast = match parser.parse_program() {
        Ok(a) => a,
        Err(_) => {
            let r: Vec<SymbolItem> = Vec::new();
            assert(symbols_view(r@) =~= Seq::<(Seq<char>, Seq<char>)>::empty());
            return r;
        },
    };
    let mut output: Vec<SymbolItem> = Vec::new();
    assert(symbols_view(output@) =~= Seq::<(Seq<char>, Seq<char>)>::empty());
    collect_nodes_symbols(&ast, &mut output);
    assert(symbols_view(output@) =~= Seq::<(Seq<char>, Seq<char>)>::empty() + nodes_symbols(nodes_m(ast@)));
    output
}

fn push_symbol(output: &mut Vec<SymbolItem>, name: &String, kind: &str)
    ensures
        symbols_view(final(output)@) == symbols_view(old(output)@) + seq![(name@, kind@)],
{
    output.push(SymbolItem { name: name.clone(), kind: owned(kind) });
    assert(symbols_view(output@) =~= symbols_view(old(output)@) + seq![(name@, kind@)]);
}

fn collect_nodes_symbols(nodes: &Vec<ASTNode>, output: &mut Vec<SymbolItem>)
    ensures
        symbols_view(final(output)@) == symbols_view(old(output)@) + nodes_symbols(nodes_m(nodes@)),
    decreases nodes, 0nat,
{
    let ghost nm = nodes_m(nodes@);
    let ghost start = symbols_view(output@);
    proof {
        lemma_nodes_m(nodes@);
        assert(nm.subrange(0, 0) =~= Seq::<NodeM>::empty());
        assert(start + nodes_symbols(nm.subrange(0, 0)) =~= start);
    }
    let mut i: usize = 0;
    while i < nodes.len()
        invariant
            i <= nodes@.len(),
            nm == nodes_m(nodes@),
            nm.len() == nodes@.len(),
            forall|q: int| 0 <= q < nodes@.len() ==> #[trigger] nm[q] == node_m(nodes@[q]),
            start == symbols_view(old(output)@),
            symbols_view(output@) == start + nodes_symbols(nm.subrange(0, i as int)),
        decreases nodes@.len() - i,
    {
        assert(nm.subrange(0, i + 1).drop_last() =~= nm.subrange(0, i as int));
        assert(nm.subrange(0, i + 1).last() == nm[i as int]);
        assert(decreases_to!(*nodes => nodes@));
        assert(decreases_to!(nodes@ => nodes@[i as int]));
        collect_node_symbols(&nodes[i], output);
        i = i + 1;
        assert(symbols_view(output@) =~= start + nodes_symbols(nm.subrange(0, i as int)));
    }
    assert(nm.subrange(0, i as int) =~= nm);
}

fn collect_node_symbols(node: &ASTNode, output: &mut Vec<SymbolItem>)
    ensures
        symbols_view(final(output)@) == symbols_view(old(output)@) + node_symbols(node@),
    decreases node, 1nat,
{
    match node {
        ASTNode::VarDecl { name, .. } => push_symbol(output, name, "variable"),
        ASTNode::FuncDecl { name, .. } => push_symbol(output, name, "function"),
        ASTNode::StructDecl { name, .. } => push_symbol(output, name, "struct"),
        ASTNode::EnumDecl { name, variants, .. } => {
            push_symbol(output, name, "enum");
            let ghost mid = symbols_view(output@);
            let ghost vm = crate::ast::variants_m(variants@);
            let ghost tail = vm.map_values(|v: (Seq<char>, Option<Seq<Seq<char>>>)| (v.0, "variant"@));
            let mut j: usize = 0;
            assert(mid + tail.subrange(0, 0) =~= mid);
            while j < variants.len()
                invariant
                    j <= variants@.len(),
                    vm == crate::ast::variants_m(variants@),
                    tail == vm.map_values(|v: (Seq<char>, Option<Seq<Seq<char>>>)| (v.0, "variant"@)),
                    tail.len() == variants@.len(),
                    symbols_view(output@) == mid + tail.subrange(0, j as int),
                decreases variants@.len() - j,
            {
                push_symbol(output, &variants[j].0, "variant");
                assert(tail[j as int] == (variants@[j as int].0@, "variant"@));
                j = j + 1;
                assert(symbols_view(output@) =~= mid + tail.subrange(0, j as int));
            }
            assert(tail.subrange(0, j as int) =~= tail);
            assert(symbols_view(output@) =~= symbols_view(old(output)@) + node_symbols(node@));
        },
        ASTNode::TraitDecl { name, .. } => push_symbol(output, name, "trait"),
        ASTNode::IfStmt { then_branch, else_branch, .. } => {
            collect_nodes_symbols(then_branch, output);
            match else_branch {
                Some(b) => collect_nodes_symbols(b, output),
                None => {},
            }
            assert(symbols_view(output@) =~= symbols_view(old(output)@) + node_symbols(node@));
        },
        ASTNode::WhileStmt { body, .. } => collect_nodes_symbols(body, output),
        ASTNode::Block(body) => collect_nodes_symbols(body, output),
        ASTNode::StatementExpr(e) => collect_expr_symbols(e, output),
        ASTNode::ReturnStmt(e) => collect_expr_symbols(e, output),
        _ => {
            assert(symbols_view(output@) =~= symbols_view(old(output)@) + node_symbols(node@));
        },
    }
}

fn collect_expr_symbols(expr: &Expression, output: &mut Vec<SymbolItem>)
    ensures
        symbols_view(final(output)@) == symbols_view(old(output)@) + expr_symbols(expr@),
{
    match expr {
        Expression::Call { name, .. } => push_symbol(output, name, "call"),
        _ => {
            assert(symbols_view(output@) =~= symbols_view(old(output)@) + expr_symbols(expr@));
        },
    }
}

/// A source with trailing whitespace removed from every line, the lines
/// joined with line feeds.
pub open spec fn formatted(s: Seq<char>) -> Seq<char> {
    join_lines(lines_of(s).map_values(|l: Seq<char>| trim_end(l)))
}

/// Formatting a formatted source changes nothing, unless the source has
/// more than one line and its last line is blank: the formatted text then
/// ends in a line feed, which the next pass drops with the blank line.
pub proof fn law_format_idempotent(s: Seq<char>)
    requires
        lines_of(s).len() <= 1 || trim_end(lines_of(s).last()).len() > 0,
    ensures
        formatted(formatted(s)) == formatted(s),
{
    let p = split_on(s, '\n');
    lemma_split_on_pieces(s, '\n');
    let ls = lines_of(s);
    let t = ls.map_values(|l: Seq<char>| trim_end(l));
    let f = join_lines(t);
    assert forall|i: int, k: int| 0 <= i < t.len() && 0 <= k < t[i].len() implies #[trigger] t[i][k] != '\n' by {
        assert(ls[i] == strip_cr(p[i]));
        lemma_trim_end(ls[i]);
        assert(t[i] == trim_end(ls[i]));
        assert(t[i][k] == ls[i][k]);
        assert(ls[i][k] == p[i][k]);
    }
    if t.len() == 0 || (t.len() == 1 && t[0].len() == 0) {
        assert(f.len() == 0);
        assert(lines_of(f) =~= Seq::<Seq<char>>::empty());
        assert(formatted(f) =~= f);
    } else {
        assert(t.last() == trim_end(ls.last()));
        lemma_trim_end(ls.last());
        assert(t.last().len() > 0);
        let a = t.drop_last();
        if t.len() > 1 {
            assert(f == join_lines(a) + "\n"@ + t.last());
        }
        assert(f.len() > 0 && f.last() == t.last().last());
        lemma_split_join(t);
        assert forall|i: int| 0 <= i < t.len() implies strip_cr(#[trigger] t[i]) == t[i] && trim_end(t[i]) == t[i] by {
            lemma_trim_end(ls[i]);
            assert(t[i] == trim_end(ls[i]));
        }
        assert(lines_of(f) =~= t);
        assert(lines_of(f).map_values(|l: Seq<char>| trim_end(l)) =~= t);
    }
}

pub fn format_source(source: &str) -> (r: FormatResponse)
    ensures
        r.source@ == formatted(source@),
{
    let ls = lines(source);
    let ghost lm = strs_m(ls@);
    let ghost tl = lm.map_values(|l: Seq<char>| trim_end(l));
    let mut out = String::new();
    let mut i: usize = 0;
    assert(tl.subrange(0, 0) =~= Seq::<Seq<char>>::empty());
    while i < ls.len()
        invariant
            i <= ls@.len(),
            lm == strs_m(ls@),
            tl == lm.map_values(|l: Seq<char>| trim_end(l)),
            tl.len() == ls@.len(),
            out@ == join_lines(tl.subrange(0, i as int)),
        decreases ls@.len() - i,
    {
        assert(tl.subrange(0, i + 1).drop_last() =~= tl.subrange(0, i as int));
        let cs = chars_of(ls[i].as_str());
        let n = trim_end_len(&cs);
        let mut keep: Vec<char> = Vec::new();
        let mut k: usize = 0;
        while k < n
            invariant
                k <= n,
                n <= cs@.len(),
                keep@ == cs@.subrange(0, k as int),
            decreases n - k,
        {
            keep.push(cs[k]);
            k = k + 1;
            assert(keep@ =~= cs@.subrange(0, k as int));
        }
        let t = string_from_chars(keep.as_slice());
        assert(t@ == tl[i as int]);
        if i > 0 {
            push_str(&mut out, "\n");
        }
        push_str(&mut out, t.as_str());
        i = i + 1;
        assert(out@ =~= join_lines(tl.subrange(0, i as int)));
    }
    assert(tl.subrange(0, i as int) =~= tl);
    FormatResponse { source: out }
}

/// Whether a line declares `sym` as a variable or a function.
pub open spec fn declares(l: Seq<char>, sym: Seq<char>) -> bool {
    first_match(l, "मान "@ + sym) is Some || first_match(l, "कार्य "@ + sym) is Some
}

/// The index of the first declaring line from `i` on.
pub open spec fn find_declaration(ls: Seq<Seq<char>>, sym: Seq<char>, i: int) -> Option<int>
    decreases ls.len() - i,
{
    if i < 0 || i >= ls.len() {
        None
    } else if declares(ls[i], sym) {
        Some(i)
    } else {
        find_declaration(ls, sym, i + 1)
    }
}

/// The place of a declaration: the line counted from 1, the byte column of
/// the first occurrence of the symbol on it counted from 1 (1 when absent),
/// and whether one was found.
pub open spec fn definition_of(s: Seq<char>, sym: Seq<char>) -> (int, int, bool) {
    let ls = lines_of(s);
    match find_declaration(ls, sym, 0) {
        Some(i) => (i + 1, match first_match(ls[i], sym) {
            Some(c) => byte_len(ls[i].subrange(0, c)) + 1int,
            None => 1,
        }, true),
        None => (1, 1, false),
    }
}

pub fn definition(source: &str, symbol: &str) -> (r: DefinitionResponse)
    requires
        byte_len(source@) < usize::MAX,
    ensures
        (r.line as int, r.column as int, r.found) == definition_of(source@, symbol@),
{
    let ls = lines(source);
    let ghost lm = strs_m(ls@);
    proof {
        lemma_lines_bytes(source@);
    }
    let sym = chars_of(symbol);
    let mut p1 = owned("मान ");
    push_str(&mut p1, symbol);
    let mut p2 = owned("कार्य ");
    push_str(&mut p2, symbol);
    let pat1 = chars_of(p1.as_str());
    let pat2 = chars_of(p2.as_str());
    let mut i: usize = 0;
    while i < ls.len()
        invariant
            i <= ls@.len(),
            lm == strs_m(ls@),
            lm == lines_of(source@),
            byte_len(source@) < usize::MAX,
            forall|k: int| 0 <= k < lm.len() ==> #[trigger] byte_len(lm[k]) <= byte_len(source@),
            pat1@ == "मान "@ + symbol@,
            pat2@ == "कार्य "@ + symbol@,
            sym@ == symbol@,
            find_declaration(lm, symbol@, 0) == find_declaration(lm, symbol@, i as int),
        decreases ls@.len() - i,
    {
        let cs = chars_of(ls[i].as_str());
        assert(cs@ == lm[i as int]);
        let f1 = find_chars(&cs, &pat1);
        let f2 = find_chars(&cs, &pat2);
        let d = f1.is_some() || f2.is_some();
        assert(d == declares(lm[i as int], symbol@));
        if d {
            assert(find_declaration(lm, symbol@, i as int) == Some(i as int));
            let column: usize = match find_chars(&cs, &sym) {
                Some(c) => {
                    assert(byte_len(cs@) < usize::MAX);
                    proof {
                        crate::text::lemma_byte_len_prefix(cs@, c as int);
                    }
                    prefix_bytes(&cs, c) + 1
                },
                None => 1,
            };
            assert(column as int == (match first_match(lm[i as int], symbol@) {
                Some(c) => byte_len(lm[i as int].subrange(0, c)) + 1int,
                None => 1int,
            }));
            return DefinitionResponse { line: i + 1, column, found: true };
        }
        i = i + 1;
    }
    DefinitionResponse { line: 1, column: 1, found: false }
}

} // verus!
