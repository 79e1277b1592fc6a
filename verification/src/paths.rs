//! Path strings: the file-name component of a path and joining a
//! directory with a name, together with their specifications.
//!
//! A path is kept as a plain string; the only structure the engine
//! reads from it is the position of `'/'` separators.

use vstd::prelude::*;

verus! {

/// The file-name component of a path: everything after the last `'/'`,
/// or the whole path when it has no separator.  Empty when the path
/// ends with a separator or is itself empty.
pub open spec fn basename_spec(s: Seq<char>) -> Seq<char>
    decreases s.len(),
{
    if s.len() == 0 {
        Seq::empty()
    } else if s[s.len() - 1] == '/' {
        Seq::empty()
    } else {
        basename_spec(s.drop_last()).push(s[s.len() - 1])
    }
}

/// A directory path with a trailing separator, ready to be prefixed to
/// an entry name.
pub open spec fn dir_prefix_spec(d: Seq<char>) -> Seq<char> {
    if d.len() > 0 && d[d.len() - 1] == '/' {
        d
    } else {
        d.push('/')
    }
}

/// A directory joined with an entry name.
pub open spec fn join_spec(d: Seq<char>, name: Seq<char>) -> Seq<char> {
    if d.len() == 0 {
        name
    } else {
        dir_prefix_spec(d) + name
    }
}

/// `p` names a direct (non-recursive) entry of the directory `d`: it
/// extends `d`'s prefix by a non-empty name without further separators.
pub open spec fn is_direct_child(d: Seq<char>, p: Seq<char>) -> bool {
    let pre = dir_prefix_spec(d);
    &&& p.len() > pre.len()
    &&& p.subrange(0, pre.len() as int) == pre
    &&& forall|k: int| pre.len() <= k < p.len() ==> p[k] != '/'
}

/// `q` lies in the tree rooted at `root`: it is `root` itself or an
/// entry below it.
pub open spec fn path_under(root: Seq<char>, q: Seq<char>) -> bool {
    q == root || dir_prefix_spec(root).is_prefix_of(q)
}

/// Joining a non-empty name onto a directory gives a strictly longer
/// path.
pub proof fn lemma_join_longer(d: Seq<char>, name: Seq<char>)
    requires
        name.len() > 0,
    ensures
        join_spec(d, name).len() > d.len(),
{
}

/// Two strings are equal exactly when their character sequences are.
pub fn str_eq(a: &str, b: &str) -> (r: bool)
    ensures
        r == (a@ == b@),
{
    let a_len = a.unicode_len();
    let b_len = b.unicode_len();
    if a_len != b_len {
        return false;
    }
    let mut i: usize = 0;
    while i < a_len
        invariant
            a_len == a@.len(),
            b_len == b@.len(),
            a_len == b_len,
            i <= a_len,
            forall|j: int| 0 <= j < i ==> a@[j] == b@[j],
        decreases a_len - i,
    {
        if a.get_char(i) != b.get_char(i) {
            return false;
        }
        i = i + 1;
    }
    proof {
        assert(a@ =~= b@);
    }
    true
}

/// `pre` is a prefix of `p`.
pub fn has_prefix(p: &str, pre: &str) -> (r: bool)
    ensures
        r == pre@.is_prefix_of(p@),
{
    let p_len = p.unicode_len();
    let pre_len = pre.unicode_len();
    if p_len < pre_len {
        return false;
    }
    let mut i: usize = 0;
    while i < pre_len
        invariant
            p_len == p@.len(),
            pre_len == pre@.len(),
            pre_len <= p_len,
            i <= pre_len,
            forall|j: int| 0 <= j < i ==> p@[j] == pre@[j],
        decreases pre_len - i,
    {
        if p.get_char(i) != pre.get_char(i) {
            proof {
                assert(p@.subrange(0, pre@.len() as int)[i as int] != pre@[i as int]);
            }
            return false;
        }
        i = i + 1;
    }
    proof {
        assert(p@.subrange(0, pre@.len() as int) =~= pre@);
    }
    true
}

proof fn lemma_basename_tail(s: Seq<char>, j: int)
    requires
        0 <= j <= s.len(),
        j == 0 || s[j - 1] == '/',
        forall|k: int| j <= k < s.len() ==> s[k] != '/',
    ensures
        basename_spec(s) == s.subrange(j, s.len() as int),
    decreases s.len(),
{
    if s.len() == j {
        if s.len() == 0 {
            assert(basename_spec(s) =~= s.subrange(j, s.len() as int));
        } else {
            assert(s[s.len() - 1] == '/');
            assert(basename_spec(s) =~= s.subrange(j, s.len() as int));
        }
    } else {
        assert(s[s.len() - 1] != '/');
        let d = s.drop_last();
        assert(forall|k: int| j <= k < d.len() ==> d[k] == s[k]);
        if j > 0 {
            assert(d[j - 1] == s[j - 1]);
        }
        lemma_basename_tail(d, j);
        assert(d.subrange(j, d.len() as int).push(s[s.len() - 1]) =~= s.subrange(
            j,
            s.len() as int,
        ));
    }
}

/// The file-name component of `s` as an owned string.
pub fn basename_of(s: &str) -> (r: String)
    ensures
        r@ == basename_spec(s@),
{
    let len = s.unicode_len();
    let mut j: usize = len;
    while j > 0 && s.get_char(j - 1) != '/'
        invariant
            len == s@.len(),
            j <= len,
            forall|k: int| j <= k < len ==> s@[k] != '/',
        decreases j,
    {
        j = j - 1;
    }
    proof {
        lemma_basename_tail(s@, j as int);
    }
    let sub = s.substring_char(j, len);
    String::from_str(sub)
}

/// `d` with a trailing separator appended when it lacks one.
pub fn dir_prefix_of(d: &str) -> (r: String)
    ensures
        r@ == dir_prefix_spec(d@),
{
    let len = d.unicode_len();
    let mut out = String::from_str(d);
    if len == 0 || d.get_char(len - 1) != '/' {
        out.append("/");
        proof {
            reveal_strlit("/");
            assert(d@ + "/"@ =~= d@.push('/'));
        }
    }
    out
}

/// `d` joined with the entry name `name`.
pub fn join_path(d: &str, name: &str) -> (r: String)
    ensures
        r@ == join_spec(d@, name@),
{
    if d.unicode_len() == 0 {
        return String::from_str(name);
    }
    let mut out = dir_prefix_of(d);
    out.append(name);
    out
}

/// Decides [`is_direct_child`] on string slices.
pub fn is_direct_child_of(d: &str, p: &str) -> (r: bool)
    ensures
        r == is_direct_child(d@, p@),
{
    let pre = dir_prefix_of(d);
    let pre_len = pre.as_str().unicode_len();
    let p_len = p.unicode_len();
    if p_len <= pre_len {
        return false;
    }
    if !has_prefix(p, pre.as_str()) {
        return false;
    }
    let mut k: usize = pre_len;
    while k < p_len
        invariant
            p_len == p@.len(),
            pre_len == dir_prefix_spec(d@).len(),
            pre_len <= k <= p_len,
            forall|j: int| pre_len <= j < k ==> p@[j] != '/',
        decreases p_len - k,
    {
        if p.get_char(k) == '/' {
            return false;
        }
        k = k + 1;
    }
    proof {
        assert(p@.subrange(0, pre@.len() as int) =~= pre@) by {
            assert(pre@.is_prefix_of(p@));
        }
    }
    true
}

/// Decides [`path_under`] on string slices.
pub fn path_under_of(root: &str, q: &str) -> (r: bool)
    ensures
        r == path_under(root@, q@),
{
    if str_eq(q, root) {
        return true;
    }
    let pre = dir_prefix_of(root);
    has_prefix(q, pre.as_str())
}

} // verus!
