//! Line and substring operations on source text, as the editor services use
//! them: `lines`, trimming, and the byte column of a first match.
use vstd::prelude::*;
use crate::lexer::is_white_space;
use crate::util::{chars_of, string_from_chars};
use crate::ast::strs_m;

verus! {

/// The pieces of `s` between occurrences of `sep` (one more than there are
/// separators).
pub open spec fn split_on(s: Seq<char>, sep: char) -> Seq<Seq<char>>
    decreases s.len(),
{
    if s.len() == 0 {
        seq![Seq::<char>::empty()]
    } else {
        let p = split_on(s.drop_last(), sep);
        if s.last() == sep {
            p.push(Seq::empty())
        } else {
            p.update(p.len() - 1, p.last().push(s.last()))
        }
    }
}

pub proof fn lemma_split_on_len(s: Seq<char>, sep: char)
    ensures
        split_on(s, sep).len() >= 1,
    decreases s.len(),
{
    if s.len() > 0 {
        lemma_split_on_len(s.drop_last(), sep);
    }
}

/// A line without its carriage return.
pub open spec fn strip_cr(l: Seq<char>) -> Seq<char> {
    if l.len() > 0 && l.last() == '\r' { l.drop_last() } else { l }
}

/// The lines of a text as `str::lines` yields them: split at line feeds,
/// no final empty line after a trailing line feed, and a carriage return
/// before a line feed removed.
pub open spec fn lines_of(s: Seq<char>) -> Seq<Seq<char>> {
    let p = split_on(s, '\n');
    let q = if s.len() == 0 {
        Seq::<Seq<char>>::empty()
    } else if s.last() == '\n' {
        p.drop_last()
    } else {
        p
    };
    q.map_values(|l: Seq<char>| strip_cr(l))
}

/// A line without trailing whitespace.
pub open spec fn trim_end(l: Seq<char>) -> Seq<char>
    decreases l.len(),
{
    if l.len() > 0 && is_white_space(l.last()) {
        trim_end(l.drop_last())
    } else {
        l
    }
}

/// A line without leading whitespace.
pub open spec fn trim_start(l: Seq<char>) -> Seq<char>
    decreases l.len(),
{
    if l.len() > 0 && is_white_space(l[0]) {
        trim_start(l.drop_first())
    } else {
        l
    }
}

/// Lines joined with line feeds.
pub open spec fn join_lines(ls: Seq<Seq<char>>) -> Seq<char>
    decreases ls.len(),
{
    if ls.len() == 0 {
        Seq::empty()
    } else if ls.len() == 1 {
        ls[0]
    } else {
        join_lines(ls.drop_last()) + "\n"@ + ls.last()
    }
}

/// Trimming keeps a prefix of the line, leaves no whitespace at its end,
/// and trimming again changes nothing.
pub proof fn lemma_trim_end(l: Seq<char>)
    ensures
        trim_end(l).len() <= l.len(),
        forall|k: int| 0 <= k < trim_end(l).len() ==> #[trigger] trim_end(l)[k] == l[k],
        trim_end(l).len() > 0 ==> !is_white_space(trim_end(l).last()),
        trim_end(trim_end(l)) == trim_end(l),
    decreases l.len(),
{
    if l.len() > 0 && is_white_space(l.last()) {
        lemma_trim_end(l.drop_last());
        assert forall|k: int| 0 <= k < trim_end(l).len() implies #[trigger] trim_end(l)[k] == l[k] by {
            assert(trim_end(l)[k] == l.drop_last()[k]);
        }
    }
}

/// No piece of a split holds the separator.
pub proof fn lemma_split_on_pieces(s: Seq<char>, sep: char)
    ensures
        forall|i: int, k: int| 0 <= i < split_on(s, sep).len() && 0 <= k < split_on(s, sep)[i].len()
            ==> #[trigger] split_on(s, sep)[i][k] != sep,
    decreases s.len(),
{
    if s.len() > 0 {
        lemma_split_on_pieces(s.drop_last(), sep);
        lemma_split_on_len(s.drop_last(), sep);
        let p = split_on(s.drop_last(), sep);
        let r = split_on(s, sep);
        assert forall|i: int, k: int| 0 <= i < r.len() && 0 <= k < r[i].len() implies #[trigger] r[i][k] != sep by {
            if s.last() == sep {
                if i < p.len() {
                    assert(r[i] == p[i]);
                }
            } else if i < p.len() - 1 {
                assert(r[i] == p[i]);
            } else if k < p.last().len() {
                assert(r[i][k] == p[i][k]);
            }
        }
    }
}

/// Splitting a text followed by a piece without separators: the piece
/// lengthens the last part.
pub proof fn lemma_split_on_append(x: Seq<char>, y: Seq<char>, sep: char)
    requires
        forall|k: int| 0 <= k < y.len() ==> #[trigger] y[k] != sep,
    ensures
        split_on(x + y, sep) == split_on(x, sep).update(split_on(x, sep).len() - 1, split_on(x, sep).last() + y),
    decreases y.len(),
{
    lemma_split_on_len(x, sep);
    let q = split_on(x, sep);
    if y.len() == 0 {
        assert(x + y =~= x);
        assert(q.last() + y =~= q.last());
        assert(q.update(q.len() - 1, q.last()) =~= q);
    } else {
        let y0 = y.drop_last();
        assert forall|k: int| 0 <= k < y0.len() implies #[trigger] y0[k] != sep by {
            assert(y0[k] == y[k]);
        }
        lemma_split_on_append(x, y0, sep);
        assert((x + y).drop_last() =~= x + y0);
        assert((x + y).last() == y.last());
        assert(y.last() == y[y.len() - 1]);
        let p = split_on(x + y0, sep);
        assert(p.last() == q.last() + y0);
        assert(p.last().push(y.last()) =~= q.last() + y);
        assert(p.update(p.len() - 1, p.last().push(y.last())) =~= q.update(q.len() - 1, q.last() + y));
    }
}

/// Splitting lines joined with line feeds gives the lines back, where no
/// line holds a line feed.
pub proof fn lemma_split_join(ls: Seq<Seq<char>>)
    requires
        ls.len() >= 1,
        forall|i: int, k: int| 0 <= i < ls.len() && 0 <= k < ls[i].len() ==> #[trigger] ls[i][k] != '\n',
    ensures
        split_on(join_lines(ls), '\n') == ls,
    decreases ls.len(),
{
    let e = Seq::<char>::empty();
    assert forall|k: int| 0 <= k < ls.last().len() implies #[trigger] ls.last()[k] != '\n' by {
        assert(ls.last()[k] == ls[ls.len() - 1][k]);
    }
    if ls.len() == 1 {
        lemma_split_on_append(e, ls[0], '\n');
        assert(e + ls[0] =~= ls[0]);
        assert(split_on(e, '\n') =~= seq![e]);
        assert(seq![e].update(0, e + ls[0]) =~= ls);
    } else {
        let a = ls.drop_last();
        assert forall|i: int, k: int| 0 <= i < a.len() && 0 <= k < a[i].len() implies #[trigger] a[i][k] != '\n' by {
            assert(a[i] == ls[i]);
        }
        lemma_split_join(a);
        let j = join_lines(a);
        let jn = j + "\n"@;
        reveal_strlit("\n");
        assert(jn.drop_last() =~= j);
        assert(jn.last() == '\n');
        assert(split_on(jn, '\n') == a.push(e));
        lemma_split_on_append(jn, ls.last(), '\n');
        assert(join_lines(ls) == jn + ls.last());
        assert(a.push(e).update(a.len() as int, e + ls.last()) =~= ls);
        assert(e + ls.last() =~= ls.last());
    }
}

/// Whether `pat` occurs in `s` at character index `j`.
pub open spec fn matches_at(s: Seq<char>, pat: Seq<char>, j: int) -> bool {
    0 <= j && j + pat.len() <= s.len() && s.subrange(j, j + pat.len()) == pat
}

/// The first character index from `j` on where `pat` occurs.
pub open spec fn first_match_from(s: Seq<char>, pat: Seq<char>, j: int) -> Option<int>
    decreases s.len() - j,
{
    if j < 0 || j + pat.len() > s.len() {
        None
    } else if matches_at(s, pat, j) {
        Some(j)
    } else if j >= s.len() {
        None
    } else {
        first_match_from(s, pat, j + 1)
    }
}

pub open spec fn first_match(s: Seq<char>, pat: Seq<char>) -> Option<int> {
    first_match_from(s, pat, 0)
}

/// A first match found from `j` on lies at or after `j`, and is a match.
pub proof fn lemma_first_match_from(s: Seq<char>, pat: Seq<char>, j: int)
    ensures
        first_match_from(s, pat, j) matches Some(k) ==> j <= k && matches_at(s, pat, k),
    decreases s.len() - j,
{
    if j < 0 || j + pat.len() > s.len() {
    } else if matches_at(s, pat, j) {
    } else if j >= s.len() {
    } else {
        lemma_first_match_from(s, pat, j + 1);
    }
}

/// The number of bytes UTF-8 uses for a character.
pub open spec fn char_width(c: char) -> nat {
    if (c as u32) < 0x80 {
        1
    } else if (c as u32) < 0x800 {
        2
    } else if (c as u32) < 0x10000 {
        3
    } else {
        4
    }
}

/// The number of bytes of the UTF-8 encoding of a text.
pub open spec fn byte_len(s: Seq<char>) -> nat
    decreases s.len(),
{
    if s.len() == 0 {
        0
    } else {
        byte_len(s.drop_last()) + char_width(s.last())
    }
}

pub proof fn lemma_byte_len_prefix(s: Seq<char>, j: int)
    requires
        0 <= j <= s.len(),
    ensures
        byte_len(s.subrange(0, j)) <= byte_len(s),
    decreases s.len(),
{
    if j < s.len() {
        lemma_byte_len_prefix(s.drop_last(), j);
        assert(s.drop_last().subrange(0, j) =~= s.subrange(0, j));
    } else {
        assert(s.subrange(0, j) =~= s);
    }
}

/// Every piece of a split is no longer in bytes than the whole.
pub proof fn lemma_split_bytes(s: Seq<char>, sep: char)
    ensures
        forall|k: int| 0 <= k < split_on(s, sep).len() ==> #[trigger] byte_len(split_on(s, sep)[k]) <= byte_len(s),
    decreases s.len(),
{
    if s.len() > 0 {
        lemma_split_bytes(s.drop_last(), sep);
        lemma_split_on_len(s.drop_last(), sep);
        let p = split_on(s.drop_last(), sep);
        let q = split_on(s, sep);
        assert(byte_len(s) == byte_len(s.drop_last()) + char_width(s.last()));
        assert forall|k: int| 0 <= k < q.len() implies #[trigger] byte_len(q[k]) <= byte_len(s) by {
            if s.last() == sep {
                if k < p.len() {
                    assert(q[k] == p[k]);
                } else {
                    assert(q[k] =~= Seq::<char>::empty());
                }
            } else {
                if k < p.len() - 1 {
                    assert(q[k] == p[k]);
                } else {
                    let l = p.last().push(s.last());
                    assert(q[k] == l);
                    assert(l.drop_last() =~= p.last());
                    assert(byte_len(l) == byte_len(p.last()) + char_width(s.last()));
                }
            }
        }
    }
}

/// Every line of a text is no longer in bytes than the text.
pub proof fn lemma_lines_bytes(s: Seq<char>)
    ensures
        forall|k: int| 0 <= k < lines_of(s).len() ==> #[trigger] byte_len(lines_of(s)[k]) <= byte_len(s),
{
    lemma_split_bytes(s, '\n');
    lemma_split_on_len(s, '\n');
    assert forall|k: int| 0 <= k < lines_of(s).len() implies #[trigger] byte_len(lines_of(s)[k]) <= byte_len(s) by {
        let l = split_on(s, '\n')[k];
        if l.len() > 0 && l.last() == '\r' {
            assert(l.drop_last().len() < l.len());
            assert(byte_len(l) == byte_len(l.drop_last()) + char_width(l.last()));
        }
    }
}

/// The lines of a text.
pub fn lines(s: &str) -> (r: Vec<String>)
    ensures
        strs_m(r@) == lines_of(s@),
{
    let cs = chars_of(s);
    let ghost sv = s@;
    let mut parts: Vec<String> = Vec::new();
    let mut cur: Vec<char> = Vec::new();
    let mut i: usize = 0;
    assert(sv.subrange(0, 0) =~= Seq::<char>::empty());
    assert(strs_m(parts@).push(cur@) =~= split_on(sv.subrange(0, 0), '\n'));
    while i < cs.len()
        invariant
            i <= cs@.len(),
            cs@ == sv,
            strs_m(parts@).push(cur@) == split_on(sv.subrange(0, i as int), '\n'),
        decreases cs@.len() - i,
    {
        let ghost before = strs_m(parts@).push(cur@);
        assert(sv.subrange(0, i + 1).drop_last() =~= sv.subrange(0, i as int));
        assert(sv.subrange(0, i + 1).last() == cs@[i as int]);
        if cs[i] == '\n' {
            let ghost pp = parts@;
            let line = string_from_chars(cur.as_slice());
            parts.push(line);
            cur = Vec::new();
            assert(strs_m(parts@) =~= strs_m(pp).push(line@));
            assert(strs_m(parts@).push(cur@) =~= before.push(Seq::empty()));
        } else {
            cur.push(cs[i]);
            assert(strs_m(parts@).push(cur@) =~= before.update(before.len() - 1, before.last().push(cs@[i as int])));
        }
        i = i + 1;
    }
    assert(sv.subrange(0, i as int) =~= sv);
    let ghost split = split_on(sv, '\n');
    if cs.len() > 0 && cs[cs.len() - 1] != '\n' {
        let line = string_from_chars(cur.as_slice());
        let ghost pp = parts@;
        parts.push(line);
        assert(strs_m(parts@) =~= strs_m(pp).push(line@));
    } else {
        if cs.len() == 0 {
            assert(split.len() == 1);
            assert(split[0] =~= Seq::<char>::empty());
            parts = Vec::new();
        } else {
            assert(strs_m(parts@) =~= split.drop_last());
        }
    }
    let ghost q = strs_m(parts@);
    let mut out: Vec<String> = Vec::new();
    let mut k: usize = 0;
    while k < parts.len()
        invariant
            k <= parts@.len(),
            q == strs_m(parts@),
            out@.len() == k,
            forall|x: int| 0 <= x < k ==> #[trigger] out@[x]@ == strip_cr(q[x]),
        decreases parts@.len() - k,
    {
        let l = strip_carriage_return(&parts[k]);
        assert(q[k as int] == parts@[k as int]@);
        out.push(l);
        k = k + 1;
    }
    assert(strs_m(out@) =~= q.map_values(|l: Seq<char>| strip_cr(l)));
    assert(strs_m(out@) =~= lines_of(s@));
    out
}

fn strip_carriage_return(l: &String) -> (r: String)
    ensures
        r@ == strip_cr(l@),
{
    let cs = chars_of(l.as_str());
    if cs.len() > 0 && cs[cs.len() - 1] == '\r' {
        let n = cs.len() - 1;
        let v = cs.as_slice();
        let mut keep: Vec<char> = Vec::new();
        let mut i: usize = 0;
        while i < n
            invariant
                i <= n,
                n < cs@.len(),
                v@ == cs@,
                keep@ == cs@.subrange(0, i as int),
            decreases n - i,
        {
            keep.push(v[i]);
            i = i + 1;
            assert(keep@ =~= cs@.subrange(0, i as int));
        }
        assert(keep@ =~= l@.drop_last());
        string_from_chars(keep.as_slice())
    } else {
        l.clone()
    }
}

/// The index just past the last non-whitespace character.
pub fn trim_end_len(cs: &Vec<char>) -> (r: usize)
    ensures
        r <= cs@.len(),
        cs@.subrange(0, r as int) == trim_end(cs@),
{
    let mut n: usize = cs.len();
    assert(cs@.subrange(0, n as int) =~= cs@);
    while n > 0 && is_ws(cs[n - 1])
        invariant
            n <= cs@.len(),
            trim_end(cs@) == trim_end(cs@.subrange(0, n as int)),
        decreases n,
    {
        assert(cs@.subrange(0, n as int).drop_last() =~= cs@.subrange(0, n - 1));
        n = n - 1;
    }
    n
}

/// The index of the first non-whitespace character.
pub fn trim_start_len(cs: &Vec<char>) -> (r: usize)
    ensures
        r <= cs@.len(),
        cs@.subrange(r as int, cs@.len() as int) == trim_start(cs@),
{
    let mut n: usize = 0;
    assert(cs@.subrange(0, cs@.len() as int) =~= cs@);
    while n < cs.len() && is_ws(cs[n])
        invariant
            n <= cs@.len(),
            trim_start(cs@) == trim_start(cs@.subrange(n as int, cs@.len() as int)),
        decreases cs@.len() - n,
    {
        assert(cs@.subrange(n as int, cs@.len() as int).drop_first() =~= cs@.subrange(n + 1, cs@.len() as int));
        n = n + 1;
    }
    n
}

fn is_ws(c: char) -> (r: bool)
    ensures
        r == is_white_space(c),
{
    crate::lexer::is_whitespace_char(c)
}

/// The first character index where `pat` occurs in `s`.
pub fn find_chars(s: &Vec<char>, pat: &Vec<char>) -> (r: Option<usize>)
    ensures
        match first_match(s@, pat@) {
            Some(j) => r == Some(j as usize),
            None => r is None,
        },
        r matches Some(j) ==> j + pat@.len() <= s@.len() && first_match(s@, pat@) == Some(j as int),
{
    if pat.len() > s.len() {
        return None;
    }
    let last = s.len() - pat.len();
    let mut j: usize = 0;
    while j <= last
        invariant
            last == s@.len() - pat@.len(),
            j <= last,
            s@.len() <= usize::MAX,
            first_match(s@, pat@) == first_match_from(s@, pat@, j as int),
        decreases last + 1 - j,
    {
        let mut k: usize = 0;
        let mut ok = true;
        while k < pat.len()
            invariant
                k <= pat@.len(),
                j + pat@.len() <= s@.len(),
                s@.len() <= usize::MAX,
                ok ==> forall|x: int| 0 <= x < k ==> s@[j + x] == pat@[x],
                !ok ==> !matches_at(s@, pat@, j as int),
            decreases pat@.len() - k,
        {
            if ok && s[j + k] != pat[k] {
                ok = false;
                assert(s@.subrange(j as int, j + pat@.len())[k as int] != pat@[k as int]);
            }
            k = k + 1;
        }
        if ok {
            assert(s@.subrange(j as int, j + pat@.len()) =~= pat@);
            return Some(j);
        }
        if j == last {
            assert(!matches_at(s@, pat@, j as int));
            assert(first_match_from(s@, pat@, j + 1) is None);
            return None;
        }
        j = j + 1;
    }
    None
}

/// The width of a character in UTF-8.
pub fn char_len_utf8(c: char) -> (r: usize)
    ensures
        r == char_width(c),
{
    let v = c as u32;
    if v < 0x80 {
        1
    } else if v < 0x800 {
        2
    } else if v < 0x10000 {
        3
    } else {
        4
    }
}

/// The number of bytes of the first `j` characters.
pub fn prefix_bytes(cs: &Vec<char>, j: usize) -> (r: usize)
    requires
        j <= cs@.len(),
        byte_len(cs@) <= usize::MAX,
    ensures
        r == byte_len(cs@.subrange(0, j as int)),
{
    proof {
        lemma_byte_len_prefix(cs@, j as int);
    }
    let mut total: usize = 0;
    let mut i: usize = 0;
    assert(cs@.subrange(0, 0) =~= Seq::<char>::empty());
    while i < j
        invariant
            i <= j,
            j <= cs@.len(),
            total == byte_len(cs@.subrange(0, i as int)),
            byte_len(cs@.subrange(0, j as int)) <= usize::MAX,
        decreases j - i,
    {
        assert(cs@.subrange(0, i + 1).drop_last() =~= cs@.subrange(0, i as int));
        proof {
            lemma_byte_len_prefix(cs@.subrange(0, j as int), i + 1);
            assert(cs@.subrange(0, j as int).subrange(0, i + 1) =~= cs@.subrange(0, i + 1));
        }
        total = total + char_len_utf8(cs[i]);
        i = i + 1;
    }
    total
}

/// Whether `s` ends with `suf`.
pub open spec fn ends_with(s: Seq<char>, suf: Seq<char>) -> bool {
    suf.len() <= s.len() && s.subrange(s.len() - suf.len(), s.len() as int) == suf
}

pub fn str_ends_with(s: &str, suf: &str) -> (r: bool)
    ensures
        r == ends_with(s@, suf@),
{
    let a = chars_of(s);
    let b = chars_of(suf);
    if b.len() > a.len() {
        return false;
    }
    let off = a.len() - b.len();
    let mut k: usize = 0;
    while k < b.len()
        invariant
            k <= b@.len(),
            off + b@.len() == a@.len(),
            a@.len() <= usize::MAX,
            a@ == s@,
            b@ == suf@,
            forall|x: int| 0 <= x < k ==> a@[off + x] == b@[x],
        decreases b@.len() - k,
    {
        if a[off + k] != b[k] {
            assert(a@.subrange(off as int, a@.len() as int)[k as int] != b@[k as int]);
            return false;
        }
        k = k + 1;
    }
    assert(a@.subrange(off as int, a@.len() as int) =~= b@);
    true
}

/// A line without surrounding whitespace.
pub open spec fn trim(l: Seq<char>) -> Seq<char> {
    trim_start(trim_end(l))
}

pub fn trimmed(cs: &Vec<char>) -> (r: String)
    ensures
        r@ == trim(cs@),
{
    let e = trim_end_len(cs);
    let mut t: Vec<char> = Vec::new();
    let mut i: usize = 0;
    while i < e
        invariant
            i <= e,
            e <= cs@.len(),
            t@ == cs@.subrange(0, i as int),
        decreases e - i,
    {
        t.push(cs[i]);
        i = i + 1;
        assert(t@ =~= cs@.subrange(0, i as int));
    }
    let b = trim_start_len(&t);
    let mut u: Vec<char> = Vec::new();
    let mut j: usize = b;
    while j < t.len()
        invariant
            b <= j <= t@.len(),
            u@ == t@.subrange(b as int, j as int),
        decreases t@.len() - j,
    {
        u.push(t[j]);
        j = j + 1;
        assert(u@ =~= t@.subrange(b as int, j as int));
    }
    string_from_chars(u.as_slice())
}

} // verus!
