//! Workspace rules of the editor backend: which request paths stay inside
//! the workspace, which files are sources, and what a search reports.
use vstd::prelude::*;
use crate::ast::strs_m;
use crate::text::{lines, lines_of, trim, trimmed, first_match, find_chars, prefix_bytes, byte_len,
    lemma_lines_bytes, lemma_byte_len_prefix, ends_with, str_ends_with};
use crate::util::{owned, push_str, push_char, chars_of, string_from_chars, str_eq};

verus! {

pub struct FilePathRequest {
    pub path: String,
}

pub struct WriteFileRequest {
    pub path: String,
    pub content: String,
}

pub struct SearchRequest {
    pub query: String,
}

pub struct WorkspaceFile {
    pub path: String,
    pub size: u64,
}

pub struct ReadFileResponse {
    pub path: String,
    pub content: String,
}

pub struct WriteFileResponse {
    pub path: String,
    pub saved: bool,
}

pub struct SearchMatch {
    pub path: String,
    pub line: usize,
    pub column: usize,
    pub preview: String,
}

/// A path separator: `/`, or `\` as on Windows.
pub open spec fn is_sep(c: char) -> bool {
    c == '/' || c == '\\'
}

/// The parts of a path between separators.
pub open spec fn split_path(s: Seq<char>) -> Seq<Seq<char>>
    decreases s.len(),
{
    if s.len() == 0 {
        seq![Seq::<char>::empty()]
    } else {
        let p = split_path(s.drop_last());
        if is_sep(s.last()) {
            p.push(Seq::empty())
        } else {
            p.update(p.len() - 1, p.last().push(s.last()))
        }
    }
}

pub proof fn lemma_split_path_len(s: Seq<char>)
    ensures
        split_path(s).len() >= 1,
    decreases s.len(),
{
    if s.len() > 0 {
        lemma_split_path_len(s.drop_last());
    }
}

/// A drive prefix such as `C:`.
pub open spec fn is_drive(p: Seq<char>) -> bool {
    p.len() >= 2 && p[1] == ':' && (('a' <= p[0] && p[0] <= 'z') || ('A' <= p[0] && p[0] <= 'Z'))
}

/// The parts that name something: neither empty nor `.`.
pub open spec fn kept_parts(ps: Seq<Seq<char>>) -> Seq<Seq<char>>
    decreases ps.len(),
{
    if ps.len() == 0 {
        Seq::empty()
    } else if ps.last() == Seq::<char>::empty() || ps.last() == "."@ {
        kept_parts(ps.drop_last())
    } else {
        kept_parts(ps.drop_last()).push(ps.last())
    }
}

/// Parts joined with `/`.
pub open spec fn join_slash(ps: Seq<Seq<char>>) -> Seq<char>
    decreases ps.len(),
{
    if ps.len() == 0 {
        Seq::empty()
    } else if ps.len() == 1 {
        ps[0]
    } else {
        join_slash(ps.drop_last()) + "/"@ + ps.last()
    }
}

pub open spec fn absolute_msg() -> Seq<char> {
    "absolute paths are not allowed"@
}

pub open spec fn outside_msg() -> Seq<char> {
    "path must stay inside the workspace"@
}

pub open spec fn empty_path_msg() -> Seq<char> {
    "path is empty"@
}

/// A request path made relative and clean: an absolute path (a leading `/`,
/// or a drive followed by a separator) is refused; a root without a drive,
/// a drive-relative path or a `..` part would leave the workspace; `.` and
/// empty parts are dropped; nothing left is refused too.
pub open spec fn normalized(s: Seq<char>) -> Result<Seq<char>, Seq<char>> {
    let ps = split_path(s);
    if s.len() > 0 && s[0] == '/' {
        Err(absolute_msg())
    } else if s.len() > 0 && s[0] == '\\' {
        Err(outside_msg())
    } else if is_drive(ps[0]) {
        if ps[0].len() == 2 && ps.len() > 1 {
            Err(absolute_msg())
        } else {
            Err(outside_msg())
        }
    } else if ps.contains(".."@) {
        Err(outside_msg())
    } else if kept_parts(ps).len() == 0 {
        Err(empty_path_msg())
    } else {
        Ok(join_slash(kept_parts(ps)))
    }
}

/// A path component that keeps a path below its root: not empty, not `.`
/// or `..`, and without a separator.
pub open spec fn inner_part(p: Seq<char>) -> bool {
    p.len() > 0 && p != "."@ && p != ".."@ && forall|i: int| 0 <= i < p.len() ==> !is_sep(#[trigger] p[i])
}

proof fn lemma_split_path_no_sep(s: Seq<char>)
    ensures
        forall|i: int, j: int| 0 <= i < split_path(s).len() && 0 <= j < split_path(s)[i].len()
            ==> !is_sep(#[trigger] split_path(s)[i][j]),
    decreases s.len(),
{
    if s.len() > 0 {
        lemma_split_path_no_sep(s.drop_last());
        lemma_split_path_len(s.drop_last());
        let p = split_path(s.drop_last());
        if !is_sep(s.last()) {
            let q = p.update(p.len() - 1, p.last().push(s.last()));
            assert forall|i: int, j: int| 0 <= i < q.len() && 0 <= j < q[i].len() implies !is_sep(#[trigger] q[i][j]) by {
                if i == p.len() - 1 && j == p.last().len() {
                } else if i == p.len() - 1 {
                    assert(q[i][j] == p[i][j]);
                } else {
                    assert(q[i] == p[i]);
                }
            }
        } else {
            let q = p.push(Seq::<char>::empty());
            assert forall|i: int, j: int| 0 <= i < q.len() && 0 <= j < q[i].len() implies !is_sep(#[trigger] q[i][j]) by {
                assert(i < p.len());
                assert(q[i] == p[i]);
            }
        }
    }
}

proof fn lemma_kept_parts(ps: Seq<Seq<char>>)
    ensures
        forall|i: int| 0 <= i < kept_parts(ps).len() ==> #[trigger] kept_parts(ps)[i] != Seq::<char>::empty()
            && kept_parts(ps)[i] != "."@ && ps.contains(kept_parts(ps)[i]),
    decreases ps.len(),
{
    if ps.len() > 0 {
        lemma_kept_parts(ps.drop_last());
        let k0 = kept_parts(ps.drop_last());
        assert forall|i: int| 0 <= i < k0.len() implies ps.contains(#[trigger] k0[i]) by {
            let j = choose|j: int| 0 <= j < ps.drop_last().len() && ps.drop_last()[j] == k0[i];
            assert(ps[j] == k0[i]);
        }
        assert(ps[ps.len() - 1] == ps.last());
    }
}

/// A path the workspace accepts stays below the root: it is one or more
/// components joined by `/`, each of them not empty, not `.` or `..`, and
/// without a separator.
pub proof fn law_normalized_inside(s: Seq<char>)
    ensures
        normalized(s) is Ok ==> ({
            let parts = kept_parts(split_path(s));
            &&& normalized(s) == Ok::<Seq<char>, Seq<char>>(join_slash(parts))
            &&& parts.len() > 0
            &&& forall|i: int| 0 <= i < parts.len() ==> inner_part(#[trigger] parts[i])
        }),
{
    let ps = split_path(s);
    let parts = kept_parts(ps);
    lemma_kept_parts(ps);
    lemma_split_path_no_sep(s);
    if normalized(s) is Ok {
        assert forall|i: int| 0 <= i < parts.len() implies inner_part(#[trigger] parts[i]) by {
            let j = choose|j: int| 0 <= j < ps.len() && ps[j] == parts[i];
            assert(!ps.contains(".."@));
            assert(parts[i] != ".."@);
            if parts[i].len() == 0 {
                assert(parts[i] =~= Seq::<char>::empty());
            }
            assert forall|k: int| 0 <= k < parts[i].len() implies !is_sep(#[trigger] parts[i][k]) by {
                assert(parts[i][k] == ps[j][k]);
            }
        }
    }
}

fn split_path_exec(s: &str) -> (r: Vec<String>)
    ensures
        strs_m(r@) == split_path(s@),
{
    let cs = chars_of(s);
    let ghost sv = s@;
    let mut parts: Vec<String> = Vec::new();
    let mut cur: Vec<char> = Vec::new();
    let mut i: usize = 0;
    assert(sv.subrange(0, 0) =~= Seq::<char>::empty());
    assert(strs_m(parts@).push(cur@) =~= split_path(sv.subrange(0, 0)));
    while i < cs.len()
        invariant
            i <= cs@.len(),
            cs@ == sv,
            strs_m(parts@).push(cur@) == split_path(sv.subrange(0, i as int)),
        decreases cs@.len() - i,
    {
        let ghost before = strs_m(parts@).push(cur@);
        assert(sv.subrange(0, i + 1).drop_last() =~= sv.subrange(0, i as int));
        assert(sv.subrange(0, i + 1).last() == cs@[i as int]);
        if cs[i] == '/' || cs[i] == '\\' {
            let ghost pp = parts@;
            let part = string_from_chars(cur.as_slice());
            parts.push(part);
            cur = Vec::new();
            assert(strs_m(parts@) =~= strs_m(pp).push(part@));
            assert(strs_m(parts@).push(cur@) =~= before.push(Seq::empty()));
        } else {
            cur.push(cs[i]);
            assert(strs_m(parts@).push(cur@) =~= before.update(before.len() - 1, before.last().push(cs@[i as int])));
        }
        i = i + 1;
    }
    assert(sv.subrange(0, i as int) =~= sv);
    let ghost pp = parts@;
    let last = string_from_chars(cur.as_slice());
    parts.push(last);
    assert(strs_m(parts@) =~= strs_m(pp).push(last@));
    parts
}

fn is_drive_exec(p: &String) -> (r: bool)
    ensures
        r == is_drive(p@),
{
    let cs = chars_of(p.as_str());
    cs.len() >= 2 && cs[1] == ':' && (('a' <= cs[0] && cs[0] <= 'z') || ('A' <= cs[0] && cs[0] <= 'Z'))
}

/// A request path as a clean path relative to the workspace root.
pub fn normalize_relative(path: &str) -> (r: Result<String, String>)
    ensures
        match normalized(path@) {
            Ok(p) => r matches Ok(x) && x@ == p,
            Err(m) => r matches Err(x) && x@ == m,
        },
{
    let cs = chars_of(path);
    let ps = split_path_exec(path);
    let ghost pm = strs_m(ps@);
    proof {
        lemma_split_path_len(path@);
    }
    if cs.len() > 0 && cs[0] == '/' {
        return Err(owned("absolute paths are not allowed"));
    }
    if cs.len() > 0 && cs[0] == '\\' {
        return Err(owned("path must stay inside the workspace"));
    }
    assert(pm[0] == ps@[0]@);
    if is_drive_exec(&ps[0]) {
        if chars_of(ps[0].as_str()).len() == 2 && ps.len() > 1 {
            return Err(owned("absolute paths are not allowed"));
        }
        return Err(owned("path must stay inside the workspace"));
    }
    assert(!(path@.len() > 0 && (path@[0] == '/' || path@[0] == '\\')));
    assert(!is_drive(pm[0]));
    let mut i: usize = 0;
    while i < ps.len()
        invariant
            i <= ps@.len(),
            pm == strs_m(ps@),
            pm == split_path(path@),
            pm.len() >= 1,
            !(path@.len() > 0 && (path@[0] == '/' || path@[0] == '\\')),
            !is_drive(pm[0]),
            forall|q: int| 0 <= q < i ==> pm[q] != ".."@,
        decreases ps@.len() - i,
    {
        if str_eq(ps[i].as_str(), "..") {
            assert(pm[i as int] == ".."@);
            assert(pm.contains(".."@));
            return Err(owned("path must stay inside the workspace"));
        }
        i = i + 1;
    }
    assert(!pm.contains(".."@));
    let mut out = String::new();
    let mut kept: usize = 0;
    let mut j: usize = 0;
    assert(pm.subrange(0, 0) =~= Seq::<Seq<char>>::empty());
    while j < ps.len()
        invariant
            j <= ps@.len(),
            pm == strs_m(ps@),
            kept == kept_parts(pm.subrange(0, j as int)).len(),
            out@ == join_slash(kept_parts(pm.subrange(0, j as int))),
            kept <= j,
        decreases ps@.len() - j,
    {
        assert(pm.subrange(0, j + 1).drop_last() =~= pm.subrange(0, j as int));
        assert(pm.subrange(0, j + 1).last() == ps@[j as int]@);
        let part = &ps[j];
        let ghost k0 = kept_parts(pm.subrange(0, j as int));
        let skip = part.as_str().is_empty() || str_eq(part.as_str(), ".");
        if part.as_str().is_empty() {
            assert(part@ =~= Seq::<char>::empty());
        }
        assert(skip == (pm[j as int] == Seq::<char>::empty() || pm[j as int] == "."@));
        if !skip {
            assert(kept_parts(pm.subrange(0, j + 1)) == k0.push(pm[j as int]));
            if kept > 0 {
                push_str(&mut out, "/");
            }
            push_str(&mut out, part.as_str());
            assert(k0.push(pm[j as int]).drop_last() =~= k0);
            kept = kept + 1;
            assert(out@ =~= join_slash(k0.push(pm[j as int])));
        }
        j = j + 1;
    }
    assert(pm.subrange(0, j as int) =~= pm);
    if kept == 0 {
        return Err(owned("path is empty"));
    }
    Ok(out)
}

/// `base` joined with `rel` as a path: an absolute `rel` replaces `base`;
/// otherwise a `/` separates them unless `base` is empty or ends with one.
pub open spec fn join_path_spec(base: Seq<char>, rel: Seq<char>) -> Seq<char> {
    if rel.len() > 0 && rel[0] == '/' {
        rel
    } else if base.len() == 0 || base.last() == '/' {
        base + rel
    } else {
        base + "/"@ + rel
    }
}

pub fn join_path(base: &str, rel: &str) -> (r: String)
    ensures
        r@ == join_path_spec(base@, rel@),
{
    let b = chars_of(base);
    let c = chars_of(rel);
    if c.len() > 0 && c[0] == '/' {
        return owned(rel);
    }
    let mut out = owned(base);
    if !(b.len() == 0 || b[b.len() - 1] == '/') {
        push_str(&mut out, "/");
    }
    push_str(&mut out, rel);
    out
}

/// The place in the workspace that a request path names.
pub fn resolve_workspace_path(root: &str, path: &str) -> (r: Result<String, String>)
    ensures
        match normalized(path@) {
            Ok(p) => r matches Ok(x) && x@ == join_path_spec(root@, p),
            Err(m) => r matches Err(x) && x@ == m,
        },
{
    match normalize_relative(path) {
        Ok(p) => Ok(join_path(root, p.as_str())),
        Err(m) => Err(m),
    }
}

/// Directories that a listing does not enter.
pub open spec fn skipped_dir(name: Seq<char>) -> bool {
    name == "target"@ || name == "node_modules"@ || name == ".git"@ || name == "dist"@
}

pub fn is_skipped_dir(name: &str) -> (r: bool)
    ensures
        r == skipped_dir(name@),
{
    str_eq(name, "target") || str_eq(name, "node_modules") || str_eq(name, ".git") || str_eq(name, "dist")
}

/// A source file of the language.
pub fn is_source_file(path: &str) -> (r: bool)
    ensures
        r == ends_with(path@, ".vya"@),
{
    str_ends_with(path, ".vya")
}

/// A query with nothing but whitespace finds nothing.
pub fn is_blank_query(query: &str) -> (r: bool)
    ensures
        r == (trim(query@).len() == 0),
{
    let cs = chars_of(query);
    let t = trimmed(&cs);
    t.as_str().is_empty()
}

/// The hits of a query in lines: for each line containing it, the line
/// number from 1, the byte column of the first occurrence from 1, and the
/// trimmed line.
pub open spec fn line_hits(ls: Seq<Seq<char>>, q: Seq<char>) -> Seq<(int, int, Seq<char>)>
    decreases ls.len(),
{
    if ls.len() == 0 {
        Seq::empty()
    } else {
        let rest = line_hits(ls.drop_last(), q);
        match first_match(ls.last(), q) {
            Some(c) => rest.push((ls.len() as int, byte_len(ls.last().subrange(0, c)) + 1int, trim(ls.last()))),
            None => rest,
        }
    }
}

/// The line, column and preview of each match.
pub open spec fn hits_view(v: Seq<SearchMatch>) -> Seq<(int, int, Seq<char>)> {
    v.map_values(|m: SearchMatch| (m.line as int, m.column as int, m.preview@))
}

/// The matches of a query in one file.
pub fn search_file(path: &str, content: &str, query: &str) -> (r: Vec<SearchMatch>)
    requires
        byte_len(content@) < usize::MAX,
    ensures
        hits_view(r@) == line_hits(lines_of(content@), query@),
        forall|i: int| 0 <= i < r@.len() ==> #[trigger] r@[i].path@ == path@,
{
    let ls = lines(content);
    let ghost lm = strs_m(ls@);
    proof {
        lemma_lines_bytes(content@);
    }
    let q = chars_of(query);
    let mut out: Vec<SearchMatch> = Vec::new();
    let mut i: usize = 0;
    assert(lm.subrange(0, 0) =~= Seq::<Seq<char>>::empty());
    assert(hits_view(out@) =~= Seq::<(int, int, Seq<char>)>::empty());
    while i < ls.len()
        invariant
            i <= ls@.len(),
            lm == strs_m(ls@),
            lm == lines_of(content@),
            forall|k: int| 0 <= k < lm.len() ==> #[trigger] byte_len(lm[k]) <= byte_len(content@),
            byte_len(content@) < usize::MAX,
            q@ == query@,
            hits_view(out@) == line_hits(lm.subrange(0, i as int), query@),
            forall|k: int| 0 <= k < out@.len() ==> #[trigger] out@[k].path@ == path@,
        decreases ls@.len() - i,
    {
        let ghost sub = lm.subrange(0, i + 1);
        assert(sub.drop_last() =~= lm.subrange(0, i as int));
        assert(sub.last() == lm[i as int]);
        assert(sub.len() == i + 1);
        let cs = chars_of(ls[i].as_str());
        assert(cs@ == lm[i as int]);
        let ghost prev = out@;
        match find_chars(&cs, &q) {
            Some(c) => {
                proof {
                    lemma_byte_len_prefix(cs@, c as int);
                }
                let column = prefix_bytes(&cs, c) + 1;
                let preview = trimmed(&cs);
                let m = SearchMatch { path: owned(path), line: i + 1, column, preview };
                let ghost mg = m;
                out.push(m);
                assert(hits_view(out@) =~= hits_view(prev).push((mg.line as int, mg.column as int, mg.preview@)));
                assert forall|k: int| 0 <= k < out@.len() implies #[trigger] out@[k].path@ == path@ by {
                    if k < prev.len() {
                        assert(out@[k] == prev[k]);
                        assert(prev[k].path@ == path@);
                    }
                }
            },
            None => {},
        }
        i = i + 1;
        assert(lm.subrange(0, i as int) =~= sub);
    }
    assert(lm.subrange(0, i as int) =~= lm);
    out
}
} // verus!
