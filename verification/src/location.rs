//! Where a diagnostic points in the source: the line and column written in
//! a parser message, or the first place of the symbol a message quotes.
use vstd::prelude::*;
use crate::numeric::{parse_usize, parse_usize_chars};
use crate::text::{lines_of, first_match, byte_len, lines, find_chars, prefix_bytes, lemma_lines_bytes,
    lemma_byte_len_prefix};
use crate::util::{chars_of, owned, push_str};
use crate::payload::Diagnostic;
use crate::ast::strs_m;

verus! {

/// The part of `s` before the first `c`, or all of `s`.
pub open spec fn before_char(s: Seq<char>, c: char) -> Seq<char> {
    match first_match(s, seq![c]) {
        Some(j) => s.subrange(0, j),
        None => s,
    }
}

/// The line and column of a message `error at L:C: ...`, and (1, 1) for
/// any other message.
pub open spec fn message_location(e: Seq<char>) -> (int, int) {
    let pre = "error at "@;
    if pre.len() <= e.len() && e.subrange(0, pre.len() as int) == pre {
        let rest = e.subrange(pre.len() as int, e.len() as int);
        match first_match(rest, seq![':']) {
            Some(i) => match (
                parse_usize(rest.subrange(0, i)),
                parse_usize(before_char(rest.subrange(i + 1, rest.len() as int), ':')),
            ) {
                (Some(l), Some(c)) => (l as int, c as int),
                _ => (1, 1),
            },
            None => (1, 1),
        }
    } else {
        (1, 1)
    }
}

/// The text a message quotes: after its first `'`, up to the next `'` or
/// the end.
pub open spec fn quoted(m: Seq<char>) -> Option<Seq<char>> {
    match first_match(m, seq!['\'']) {
        Some(i) => Some(before_char(m.subrange(i + 1, m.len() as int), '\'')),
        None => None,
    }
}

/// The first line from `i` on on which `sym` occurs.
pub open spec fn first_line_with(ls: Seq<Seq<char>>, sym: Seq<char>, i: int) -> Option<int>
    decreases ls.len() - i,
{
    if i < 0 || i >= ls.len() {
        None
    } else if first_match(ls[i], sym) is Some {
        Some(i)
    } else {
        first_line_with(ls, sym, i + 1)
    }
}

/// The place of the symbol a message quotes: the first line holding it,
/// counted from 1, and the byte column of its first occurrence there,
/// counted from 1; (1, 1) where the message quotes nothing or no line holds
/// the symbol.
pub open spec fn inferred_location(source: Seq<char>, message: Seq<char>) -> (int, int) {
    match quoted(message) {
        Some(sym) => {
            let ls = lines_of(source);
            match first_line_with(ls, sym, 0) {
                Some(i) => (i + 1, byte_len(ls[i].subrange(0, first_match(ls[i], sym)->0)) + 1int),
                None => (1, 1),
            }
        },
        None => (1, 1),
    }
}

/// The characters of `v` from `a` to `b`.
fn sub_chars(v: &Vec<char>, a: usize, b: usize) -> (r: Vec<char>)
    requires
        a <= b <= v@.len(),
    ensures
        r@ == v@.subrange(a as int, b as int),
{
    let mut r: Vec<char> = Vec::new();
    let mut i: usize = a;
    while i < b
        invariant
            a <= i <= b,
            b <= v@.len(),
            r@ == v@.subrange(a as int, i as int),
        decreases b - i,
    {
        r.push(v[i]);
        i = i + 1;
        assert(r@ =~= v@.subrange(a as int, i as int));
    }
    r
}

fn one_char(c: char) -> (r: Vec<char>)
    ensures
        r@ == seq![c],
{
    let mut r: Vec<char> = Vec::new();
    r.push(c);
    assert(r@ =~= seq![c]);
    r
}

/// The part of `s` before the first `c`.
fn chars_before(s: &Vec<char>, c: char) -> (r: Vec<char>)
    ensures
        r@ == before_char(s@, c),
{
    let p = one_char(c);
    match find_chars(s, &p) {
        Some(j) => sub_chars(s, 0, j),
        None => sub_chars(s, 0, s.len()),
    }
}

/// The line and column written in a parser message `error at L:C: ...`;
/// (1, 1) for any other message.
pub fn extract_location(e: &str) -> (r: (usize, usize))
    ensures
        (r.0 as int, r.1 as int) == message_location(e@),
{
    let es = chars_of(e);
    let pre = chars_of("error at ");
    proof {
        reveal_strlit("error at ");
    }
    assert(pre@.len() == 9);
    let starts = match find_chars(&es, &pre) {
        Some(j) => j == 0,
        None => false,
    };
    let ghost pv = "error at "@;
    proof {
        crate::text::lemma_first_match_from(es@, pre@, 0);
    }
    if !starts {
        proof {
            if pv.len() <= e@.len() && e@.subrange(0, pv.len() as int) == pv {
                assert(crate::text::matches_at(es@, pre@, 0));
            }
        }
        return (1, 1);
    }
    assert(es@.subrange(0, 9) == pv);
    let rest = sub_chars(&es, 9, es.len());
    let colon = one_char(':');
    match find_chars(&rest, &colon) {
        Some(i) => {
            let head = sub_chars(&rest, 0, i);
            let tail = sub_chars(&rest, i + 1, rest.len());
            let col_text = chars_before(&tail, ':');
            match (parse_usize_chars(&head), parse_usize_chars(&col_text)) {
                (Some(l), Some(c)) => (l, c),
                _ => (1, 1),
            }
        },
        None => (1, 1),
    }
}

/// The place of the symbol a message quotes, as [`inferred_location`]
/// states it.
pub fn infer_location(source: &str, message: &str) -> (r: (usize, usize))
    requires
        byte_len(source@) < usize::MAX,
    ensures
        (r.0 as int, r.1 as int) == inferred_location(source@, message@),
{
    let ms = chars_of(message);
    let quote = one_char('\'');
    let sym = match find_chars(&ms, &quote) {
        Some(i) => {
            assert(quote@.len() == 1);
            let n = ms.len();
            assert(i + quote@.len() <= ms@.len());
            let after = sub_chars(&ms, i + 1, n);
            chars_before(&after, '\'')
        },
        None => {
            return (1, 1);
        },
    };
    assert(quoted(message@) == Some(sym@));
    let ls = lines(source);
    let ghost lm = strs_m(ls@);
    proof {
        lemma_lines_bytes(source@);
    }
    let mut i: usize = 0;
    while i < ls.len()
        invariant
            i <= ls@.len(),
            lm == strs_m(ls@),
            lm == lines_of(source@),
            byte_len(source@) < usize::MAX,
            forall|k: int| 0 <= k < lm.len() ==> #[trigger] byte_len(lm[k]) <= byte_len(source@),
            first_line_with(lm, sym@, 0) == first_line_with(lm, sym@, i as int),
            quoted(message@) == Some(sym@),
        decreases ls@.len() - i,
    {
        let cs = chars_of(ls[i].as_str());
        assert(cs@ == lm[i as int]);
        match find_chars(&cs, &sym) {
            Some(c) => {
                assert(first_line_with(lm, sym@, i as int) == Some(i as int));
                assert(byte_len(cs@) < usize::MAX);
                proof {
                    lemma_byte_len_prefix(cs@, c as int);
                }
                assert(first_match(lm[i as int], sym@) == Some(c as int));
                assert(first_line_with(lm, sym@, 0) == Some(i as int));
                assert(c <= cs@.len());
                let column = prefix_bytes(&cs, c) + 1;
                return (i + 1, column);
            },
            None => {},
        }
        i = i + 1;
    }
    (1, 1)
}

/// An error of a phase after parsing, placed at the symbol its message
/// quotes: the text shown is `prefix` followed by the message.
pub fn phase_error(source: &str, prefix: &str, message: &str) -> (r: Diagnostic)
    requires
        byte_len(source@) < usize::MAX,
    ensures
        (r.line as int, r.column as int) == inferred_location(source@, message@),
        r.message@ == prefix@ + message@,
        r.sanskrit_message is None,
        r.severity@ == "error"@,
{
    let (line, column) = infer_location(source, message);
    let mut text = owned(prefix);
    push_str(&mut text, message);
    Diagnostic { line, column, message: text, sanskrit_message: None, severity: owned("error") }
}

/// A parser error, placed where the parser's message says.
pub fn parse_error(message: &str) -> (r: Diagnostic)
    ensures
        (r.line as int, r.column as int) == message_location(message@),
        r.message@ == "Parse error: "@ + message@,
        r.sanskrit_message is None,
        r.severity@ == "error"@,
{
    let (line, column) = extract_location(message);
    let mut text = owned("Parse error: ");
    push_str(&mut text, message);
    Diagnostic { line, column, message: text, sanskrit_message: None, severity: owned("error") }
}

} // verus!
