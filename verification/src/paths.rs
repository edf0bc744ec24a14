use crate::text::push_char;
use vstd::prelude::*;
use vstd::string::{StrSliceExecFns, StringExecFns};

verus! {

/// A path is absolute when it begins with the root marker.
pub open spec fn is_absolute(p: Seq<char>) -> bool {
    p.len() > 0 && p[0] == '/'
}

/// Decides whether a path string is absolute.
pub fn is_absolute_path(p: &str) -> (r: bool)
    ensures
        r == is_absolute(p@),
{
    if p.unicode_len() == 0 {
        false
    } else {
        p.get_char(0) == '/'
    }
}

/// Joins a child name onto a relative base path, as listings and breadcrumbs
/// build entry paths: an empty base contributes no separator.
pub open spec fn join_rel(base: Seq<char>, name: Seq<char>) -> Seq<char> {
    if base.len() == 0 {
        name
    } else {
        base.push('/') + name
    }
}

/// Executable form of `join_rel`.
pub fn join_path(base: &str, name: &str) -> (r: String)
    ensures
        r@ == join_rel(base@, name@),
{
    if base.unicode_len() == 0 {
        let r = String::from_str(name);
        r
    } else {
        let mut r = String::from_str(base);
        push_char(&mut r, '/');
        r.append(name);
        assert(r@ =~= join_rel(base@, name@));
        r
    }
}

/// Joins a relative request path onto the served root, inserting a separator
/// only where the root does not already end in one.
pub open spec fn join_under(root: Seq<char>, rel: Seq<char>) -> Seq<char> {
    if rel.len() == 0 {
        root
    } else if root.len() > 0 && root[root.len() - 1] == '/' {
        root + rel
    } else {
        root.push('/') + rel
    }
}

/// Executable form of `join_under`.
pub fn join_under_root(root: &str, rel: &str) -> (r: String)
    ensures
        r@ == join_under(root@, rel@),
{
    let rootlen: usize = root.unicode_len();
    if rel.unicode_len() == 0 {
        let r = String::from_str(root);
        r
    } else if rootlen > 0 && root.get_char(rootlen - 1) == '/' {
        let mut r = String::from_str(root);
        r.append(rel);
        r
    } else {
        let mut r = String::from_str(root);
        push_char(&mut r, '/');
        r.append(rel);
        assert(r@ =~= join_under(root@, rel@));
        r
    }
}

/// Splits a path on `'/'`.  Every piece between two separators is kept, also
/// the empty ones, so the result always has at least one piece.
pub open spec fn split_slash(s: Seq<char>) -> Seq<Seq<char>>
    decreases s.len(),
{
    if s.len() == 0 {
        seq![Seq::<char>::empty()]
    } else if s[0] == '/' {
        seq![Seq::<char>::empty()] + split_slash(s.drop_first())
    } else {
        let rest = split_slash(s.drop_first());
        seq![seq![s[0]] + rest[0]] + rest.drop_first()
    }
}

/// The split never yields an empty sequence of pieces.
pub proof fn lemma_split_slash_len(s: Seq<char>)
    ensures
        split_slash(s).len() >= 1,
    decreases s.len(),
{
    if s.len() != 0 {
        lemma_split_slash_len(s.drop_first());
    }
}

/// Splits a path string into its `'/'`-separated pieces.
pub fn split_path(s: &str) -> (r: Vec<String>)
    ensures
        r@.map_values(|t: String| t@) =~= split_slash(s@),
{
    let slen: usize = s.unicode_len();
    let mut out: Vec<String> = Vec::new();
    let mut cur: String = String::new();
    let mut i: usize = 0;
    proof {
        lemma_split_slash_len(s@);
        assert(s@.skip(0) =~= s@);
    }
    while i < slen
        invariant
            i <= slen,
            slen == s@.len(),
            split_slash(s@) =~= out@.map_values(|t: String| t@) + seq![
                cur@ + split_slash(s@.skip(i as int))[0],
            ] + split_slash(s@.skip(i as int)).drop_first(),
        decreases slen - i,
    {
        let ghost pre_out = out@.map_values(|t: String| t@);
        let ghost pre_cur = cur@;
        let c: char = s.get_char(i);
        proof {
            lemma_split_slash_len(s@.skip(i as int));
            lemma_split_slash_len(s@.skip(i + 1));
            assert(s@.skip(i as int)[0] == s@[i as int]);
            assert(s@.skip(i as int).drop_first() =~= s@.skip(i + 1));
        }
        if c == '/' {
            out.push(cur);
            cur = String::new();
            proof {
                assert(out@.map_values(|t: String| t@) =~= pre_out.push(pre_cur));
                assert(split_slash(s@.skip(i as int)) =~= seq![Seq::<char>::empty()]
                    + split_slash(s@.skip(i + 1)));
                assert(pre_cur + split_slash(s@.skip(i as int))[0] =~= pre_cur);
                assert(split_slash(s@.skip(i as int)).drop_first() =~= split_slash(
                    s@.skip(i + 1),
                ));
                assert(split_slash(s@) =~= out@.map_values(|t: String| t@) + seq![
                    cur@ + split_slash(s@.skip(i + 1))[0],
                ] + split_slash(s@.skip(i + 1)).drop_first());
            }
        } else {
            push_char(&mut cur, c);
            proof {
                let rest = split_slash(s@.skip(i + 1));
                assert(split_slash(s@.skip(i as int)) =~= seq![seq![s@[i as int]] + rest[0]]
                    + rest.drop_first());
                assert(cur@ + rest[0] =~= pre_cur + (seq![s@[i as int]] + rest[0]));
                assert(split_slash(s@) =~= out@.map_values(|t: String| t@) + seq![
                    cur@ + rest[0],
                ] + rest.drop_first());
            }
        }
        i = i + 1;
    }
    proof {
        assert(s@.skip(slen as int) =~= Seq::<char>::empty());
        assert(split_slash(s@.skip(slen as int)) =~= seq![Seq::<char>::empty()]);
    }
    out.push(cur);
    proof {
        assert(out@.map_values(|t: String| t@) =~= split_slash(s@));
    }
    out
}

/// Walks the pieces of a relative path, counting how deep below the starting
/// directory the walk stands.  Empty pieces and `.` change nothing, `..` steps
/// up one level, any other piece steps down one.  `None` means the walk left
/// the starting directory: such a path must never be served.
pub open spec fn walk_depth(parts: Seq<Seq<char>>, depth: int) -> Option<int>
    decreases parts.len(),
{
    if parts.len() == 0 {
        Some(depth)
    } else if parts[0].len() == 0 || parts[0] == "."@ {
        walk_depth(parts.drop_first(), depth)
    } else if parts[0] == ".."@ {
        if depth <= 0 {
            None
        } else {
            walk_depth(parts.drop_first(), depth - 1)
        }
    } else {
        walk_depth(parts.drop_first(), depth + 1)
    }
}

/// A relative path escapes when some prefix of it resolves above the
/// directory it starts from.
pub open spec fn escapes(s: Seq<char>) -> bool {
    walk_depth(split_slash(s), 0) is None
}

/// Decides whether a relative path string escapes upward.
pub fn path_escapes(s: &str) -> (r: bool)
    ensures
        r == escapes(s@),
{
    let parts = split_path(s);
    let dot: String = String::from_str(".");
    let dotdot: String = String::from_str("..");
    let n: usize = parts.len();
    let mut depth: usize = 0;
    let mut j: usize = 0;
    let ghost ps = parts@.map_values(|t: String| t@);
    proof {
        assert(ps.skip(0) =~= ps);
    }
    while j < n
        invariant
            j <= n,
            n == parts@.len(),
            depth <= j,
            ps =~= parts@.map_values(|t: String| t@),
            ps =~= split_slash(s@),
            dot@ == "."@,
            dotdot@ == ".."@,
            walk_depth(ps, 0) == walk_depth(ps.skip(j as int), depth as int),
        decreases n - j,
    {
        proof {
            assert(ps.skip(j as int)[0] == ps[j as int]);
            assert(ps.skip(j as int).drop_first() =~= ps.skip(j + 1));
        }
        let p: &String = &parts[j];
        if p.as_str().unicode_len() == 0 || *p == dot {
        } else if *p == dotdot {
            if depth == 0 {
                assert(walk_depth(ps.skip(j as int), depth as int) is None);
                return true;
            }
            depth = depth - 1;
        } else {
            depth = depth + 1;
        }
        j = j + 1;
    }
    proof {
        assert(ps.skip(n as int) =~= Seq::<Seq<char>>::empty());
    }
    false
}

/// Why a requested path was refused.
#[derive(PartialEq, Eq, Structural, Clone, Copy, Debug)]
pub enum ResolveError {
    /// The path was absolute, or a traversal would leave the served root.
    Forbidden,
}

/// Maps an untrusted request path onto the served root.  An absolute path, or
/// one whose traversal steps would leave the root, is refused; anything else
/// is joined under the root.
///
/// Containment is decided lexically, on the path's pieces alone: a deliberate
/// design choice.  A symbolic link inside the root is followed to wherever
/// the filesystem takes it, also outside the root.
pub fn resolve(root: &str, requested: &str) -> (r: Result<String, ResolveError>)
    ensures
        match r {
            Ok(p) => !is_absolute(requested@) && !escapes(requested@) && p@ == join_under(
                root@,
                requested@,
            ),
            Err(e) => (is_absolute(requested@) || escapes(requested@)) && e
                == ResolveError::Forbidden,
        },
{
    if is_absolute_path(requested) {
        Err(ResolveError::Forbidden)
    } else if path_escapes(requested) {
        Err(ResolveError::Forbidden)
    } else {
        Ok(join_under_root(root, requested))
    }
}

} // verus!
