//! The path rules of `आयात "path.vya" ।`: the `.vya` extension, refusal of
//! absolute paths, resolution against the importing file's directory, and
//! confinement to the workspace root.  Reading and parsing the imported
//! files is the host's part.
use vstd::prelude::*;
use crate::text::{ends_with, str_ends_with};
use crate::workspace::{join_path, join_path_spec};
use crate::util::{owned, push_str, chars_of, str_eq};

verus! {

/// The file an import names: the path itself when it ends with `.vya`,
/// otherwise the path with `.vya` appended.
pub open spec fn with_vya(p: Seq<char>) -> Seq<char> {
    if ends_with(p, ".vya"@) { p } else { p + ".vya"@ }
}

/// A path from the root of the file system.
pub open spec fn is_absolute(p: Seq<char>) -> bool {
    p.len() > 0 && p[0] == '/'
}

/// Whether `path` lies at or below `root`, comparing whole components of
/// normalized paths.
pub open spec fn within(path: Seq<char>, root: Seq<char>) -> bool {
    root.len() <= path.len() && path.subrange(0, root.len() as int) == root
        && (root.len() == 0 || path.len() == root.len() || root.last() == '/' || path[root.len() as int] == '/')
}

pub open spec fn absolute_import_msg(file_path: Seq<char>) -> Seq<char> {
    "absolute import path '"@ + file_path + "' is not allowed"@
}

pub open spec fn escape_msg(file_path: Seq<char>) -> Seq<char> {
    "import path '"@ + file_path + "' escapes the workspace root"@
}

/// The file an import statement names, resolved against the importing
/// file's directory.
pub open spec fn import_candidate_spec(file_path: Seq<char>, base_dir: Seq<char>) -> Result<Seq<char>, Seq<char>> {
    if is_absolute(with_vya(file_path)) {
        Err(absolute_import_msg(file_path))
    } else {
        Ok(join_path_spec(base_dir, with_vya(file_path)))
    }
}

/// Resolution of an import against the importing file's directory and the
/// workspace root, on paths that are already normalized.
pub open spec fn resolve_import_spec(file_path: Seq<char>, base_dir: Seq<char>, root: Seq<char>) -> Result<Seq<char>, Seq<char>> {
    match import_candidate_spec(file_path, base_dir) {
        Ok(p) => if within(p, root) { Ok(p) } else { Err(escape_msg(file_path)) },
        Err(m) => Err(m),
    }
}

/// An import that resolves names a `.vya` file at or below the workspace
/// root; one that would leave the root is refused with the escape message.
pub proof fn law_import_confined(file_path: Seq<char>, base_dir: Seq<char>, root: Seq<char>)
    ensures
        resolve_import_spec(file_path, base_dir, root) matches Ok(p) ==> within(p, root) && ends_with(p, ".vya"@),
        import_candidate_spec(file_path, base_dir) matches Ok(p) && !within(p, root)
            ==> resolve_import_spec(file_path, base_dir, root) == Err::<Seq<char>, Seq<char>>(escape_msg(file_path)),
{
    reveal_strlit(".vya");
    let w = with_vya(file_path);
    assert(ends_with(w, ".vya"@)) by {
        if !ends_with(file_path, ".vya"@) {
            assert((file_path + ".vya"@).subrange(file_path.len() as int, file_path.len() + 4int) =~= ".vya"@);
        }
    }
    if !is_absolute(w) {
        let p = join_path_spec(base_dir, w);
        if w.len() > 0 && w[0] == '/' {
        } else if base_dir.len() == 0 || base_dir.last() == '/' {
            assert(p.subrange(p.len() - 4, p.len() as int) =~= w.subrange(w.len() - 4, w.len() as int));
        } else {
            assert(p.subrange(p.len() - 4, p.len() as int) =~= w.subrange(w.len() - 4, w.len() as int));
        }
    }
}

pub fn with_vya_extension(file_path: &str) -> (r: String)
    ensures
        r@ == with_vya(file_path@),
{
    if str_ends_with(file_path, ".vya") {
        owned(file_path)
    } else {
        let mut s = owned(file_path);
        push_str(&mut s, ".vya");
        s
    }
}

pub fn path_within(path: &str, root: &str) -> (r: bool)
    ensures
        r == within(path@, root@),
{
    let p = chars_of(path);
    let q = chars_of(root);
    if q.len() > p.len() {
        return false;
    }
    let mut k: usize = 0;
    while k < q.len()
        invariant
            k <= q@.len(),
            q@.len() <= p@.len(),
            p@ == path@,
            q@ == root@,
            forall|x: int| 0 <= x < k ==> p@[x] == q@[x],
        decreases q@.len() - k,
    {
        if p[k] != q[k] {
            assert(p@.subrange(0, q@.len() as int)[k as int] != q@[k as int]);
            return false;
        }
        k = k + 1;
    }
    assert(p@.subrange(0, q@.len() as int) =~= q@);
    q.len() == 0 || p.len() == q.len() || q[q.len() - 1] == '/' || p[q.len()] == '/'
}

/// The file an import names, before it is confined to the workspace.
pub fn import_candidate(file_path: &str, base_dir: &str) -> (r: Result<String, String>)
    ensures
        match import_candidate_spec(file_path@, base_dir@) {
            Ok(p) => r matches Ok(x) && x@ == p,
            Err(m) => r matches Err(x) && x@ == m,
        },
{
    let path_str = with_vya_extension(file_path);
    let cs = chars_of(path_str.as_str());
    if cs.len() > 0 && cs[0] == '/' {
        let mut m = owned("absolute import path '");
        push_str(&mut m, file_path);
        push_str(&mut m, "' is not allowed");
        return Err(m);
    }
    Ok(join_path(base_dir, path_str.as_str()))
}

/// An import's resolved file, refused when it leaves the workspace root.
pub fn confine_import(file_path: &str, resolved: String, root: &str) -> (r: Result<String, String>)
    ensures
        within(resolved@, root@) ==> (r matches Ok(x) && x@ == resolved@),
        !within(resolved@, root@) ==> (r matches Err(x) && x@ == escape_msg(file_path@)),
{
    if path_within(resolved.as_str(), root) {
        Ok(resolved)
    } else {
        let mut m = owned("import path '");
        push_str(&mut m, file_path);
        push_str(&mut m, "' escapes the workspace root");
        Err(m)
    }
}

/// The file an import names, for an importing directory and a workspace
/// root given as normalized paths.
pub fn resolve_import_path(file_path: &str, base_dir: &str, workspace_root: &str) -> (r: Result<String, String>)
    ensures
        match resolve_import_spec(file_path@, base_dir@, workspace_root@) {
            Ok(p) => r matches Ok(x) && x@ == p,
            Err(m) => r matches Err(x) && x@ == m,
        },
{
    match import_candidate(file_path, base_dir) {
        Ok(p) => confine_import(file_path, p, workspace_root),
        Err(m) => Err(m),
    }
}

/// The files already imported by one file, so that a repeated import is
/// skipped.
pub struct ImportTracker {
    pub visited: Vec<String>,
}

impl ImportTracker {
    pub fn new() -> (r: Self)
        ensures
            r.visited@.len() == 0,
    {
        ImportTracker { visited: Vec::new() }
    }

    /// Records a file; whether it was new.
    pub fn first_visit(&mut self, path: &str) -> (r: bool)
        ensures
            r == !old(self).visited@.map_values(|s: String| s@).contains(path@),
            r ==> final(self).visited@.map_values(|s: String| s@) == old(self).visited@.map_values(|s: String| s@).push(path@),
            !r ==> final(self).visited@ == old(self).visited@,
    {
        let ghost vm = self.visited@.map_values(|s: String| s@);
        let mut i: usize = 0;
        while i < self.visited.len()
            invariant
                i <= self.visited@.len(),
                vm == self.visited@.map_values(|s: String| s@),
                forall|k: int| 0 <= k < i ==> vm[k] != path@,
            decreases self.visited@.len() - i,
        {
            if str_eq(self.visited[i].as_str(), path) {
                assert(vm[i as int] == path@);
                return false;
            }
            i = i + 1;
        }
        self.visited.push(owned(path));
        assert(self.visited@.map_values(|s: String| s@) =~= vm.push(path@));
        true
    }
}

} // verus!
