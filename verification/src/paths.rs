//! Path strings for the traversal: entry names, directory paths, and the
//! construction of a child path from a parent path and an entry name.

use vstd::prelude::*;

verus! {

/// A directory-entry name as a remote listing reports it: nonempty and free
/// of the path separator.
pub open spec fn valid_name(n: Seq<char>) -> bool {
    n.len() > 0 && forall|i: int| 0 <= i < n.len() ==> n[i] != '/'
}

/// The self and parent entries (`.` and `..`) that a listing reports but a
/// traversal must never follow or print.
pub open spec fn is_dot(n: Seq<char>) -> bool {
    n == seq!['.'] || n == seq!['.', '.']
}

/// A directory path the engine works on: either the bare separator (the
/// volume root) or a nonempty string that does not end with the separator.
pub open spec fn valid_dir_path(p: Seq<char>) -> bool {
    p.len() > 0 && (p == seq!['/'] || p[p.len() - 1] != '/')
}

/// The full path of an entry named `n` read under directory `p`.
pub open spec fn join_seq(p: Seq<char>, n: Seq<char>) -> Seq<char> {
    if p == seq!['/'] {
        seq!['/'] + n
    } else {
        p + seq!['/'] + n
    }
}

/// Joining a valid name onto a directory path yields a strictly longer path
/// than either part.
pub proof fn lemma_join_len(p: Seq<char>, n: Seq<char>)
    requires
        p.len() > 0,
        valid_name(n),
    ensures
        join_seq(p, n).len() > p.len(),
        join_seq(p, n).len() > n.len(),
{
}

/// Joining a valid name onto a valid directory path yields a valid directory
/// path, so child directories can themselves be expanded.
pub proof fn lemma_join_valid(p: Seq<char>, n: Seq<char>)
    requires
        valid_dir_path(p),
        valid_name(n),
    ensures
        valid_dir_path(join_seq(p, n)),
{
    let s = join_seq(p, n);
    assert(s[s.len() - 1] == n[n.len() - 1]);
    assert(s.len() >= 2);
    assert(s != seq!['/']) by {
        assert(s.len() != seq!['/'].len());
    }
}

/// Position `k` holds the last separator of `s`.
pub open spec fn last_sep_at(s: Seq<char>, k: int) -> bool {
    &&& 0 <= k < s.len()
    &&& s[k] == '/'
    &&& forall|j: int| k < j < s.len() ==> s[j] != '/'
}

/// The last separator of a joined path sits exactly where the parent ends,
/// because the name holds no separator of its own.
pub proof fn lemma_join_last_sep(p: Seq<char>, n: Seq<char>)
    requires
        valid_dir_path(p),
        valid_name(n),
    ensures
        last_sep_at(join_seq(p, n), if p == seq!['/'] { 0int } else { p.len() as int }),
{
    let s = join_seq(p, n);
    if p == seq!['/'] {
        assert(s[0] == '/');
        assert forall|j: int| 0 < j < s.len() implies s[j] != '/' by {
            assert(s[j] == n[j - 1]);
        }
    } else {
        assert(s[p.len() as int] == '/');
        assert forall|j: int| p.len() < j < s.len() implies s[j] != '/' by {
            assert(s[j] == n[j - p.len() - 1]);
        }
    }
}

/// A string has at most one last-separator position.
pub proof fn lemma_last_sep_unique(s: Seq<char>, k1: int, k2: int)
    requires
        last_sep_at(s, k1),
        last_sep_at(s, k2),
    ensures
        k1 == k2,
{
}

/// Distinct (parent, name) pairs build distinct full paths: the engine can
/// recover the parent and the name from a joined path, so two different
/// directories never contribute the same child.
pub proof fn lemma_join_injective(p1: Seq<char>, n1: Seq<char>, p2: Seq<char>, n2: Seq<char>)
    requires
        valid_dir_path(p1),
        valid_name(n1),
        valid_dir_path(p2),
        valid_name(n2),
        join_seq(p1, n1) == join_seq(p2, n2),
    ensures
        p1 == p2,
        n1 == n2,
{
    let s = join_seq(p1, n1);
    let k1: int = if p1 == seq!['/'] { 0 } else { p1.len() as int };
    let k2: int = if p2 == seq!['/'] { 0 } else { p2.len() as int };
    lemma_join_last_sep(p1, n1);
    lemma_join_last_sep(p2, n2);
    lemma_last_sep_unique(s, k1, k2);
    if p1 == seq!['/'] && p2 == seq!['/'] {
        assert(n1 =~= n2) by {
            assert(forall|i: int| 0 <= i < n1.len() ==> n1[i] == s[i + 1] && s[i + 1] == n2[i]);
        }
    } else if p1 != seq!['/'] && p2 != seq!['/'] {
        assert(p1.len() == p2.len());
        assert(p1 =~= p2) by {
            assert(forall|i: int| 0 <= i < p1.len() ==> p1[i] == s[i] && s[i] == p2[i]);
        }
        assert(n1 =~= n2) by {
            assert(forall|i: int|
                0 <= i < n1.len() ==> n1[i] == s[i + p1.len() + 1] && s[i + p2.len() + 1] == n2[i]);
        }
    } else if p1 == seq!['/'] {
        assert(k2 == 0);
        assert(p2.len() > 0);
        assert(false);
    } else {
        assert(k1 == 0);
        assert(p1.len() > 0);
        assert(false);
    }
}

/// Tests whether a name is one of the self or parent entries.
pub fn is_dot_name(name: &String) -> (b: bool)
    ensures
        b == is_dot(name@),
{
    proof {
        reveal_strlit(".");
        reveal_strlit("..");
        assert("."@ =~= seq!['.']);
        assert(".."@ =~= seq!['.', '.']);
    }
    let dot = String::from_str(".");
    let dotdot = String::from_str("..");
    *name == dot || *name == dotdot
}

/// Builds the full path of entry `name` read under directory `parent`,
/// inserting the separator unless the parent is the volume root.
pub fn join_path(parent: &String, name: &String) -> (r: String)
    ensures
        r@ == join_seq(parent@, name@),
{
    proof {
        reveal_strlit("/");
        assert("/"@ =~= seq!['/']);
    }
    let sep = String::from_str("/");
    if *parent == sep {
        let mut r = sep;
        r.append(name.as_str());
        r
    } else {
        let mut r = parent.clone();
        r.append(sep.as_str());
        r.append(name.as_str());
        r
    }
}

} // verus!
