//! The filesystem as an explicit value.
//!
//! A [`FileSystem`] is a flat list of entries, each binding a path
//! string to a node (a file with its byte content, or a directory).
//! Paths are unique; the order of entries is the enumeration order
//! that a listing reports.  The actions are verified against this
//! model, and its operations carry exact contracts over the view
//! `Seq<EntryModel>`.

use vstd::prelude::*;
use vstd::seq_lib::group_seq_properties;

use crate::paths::{is_direct_child, is_direct_child_of, path_under, path_under_of, str_eq};

verus! {

broadcast use group_seq_properties;

/// What a path is bound to, at the specification level.
#[verifier::ext_equal]
pub enum NodeModel {
    File(Seq<u8>),
    Directory,
}

/// One binding of the model: a path and its node.
#[verifier::ext_equal]
pub struct EntryModel {
    pub path: Seq<char>,
    pub node: NodeModel,
}

/// What a path is bound to, at the executable level.
pub enum Node {
    File(Vec<u8>),
    Directory,
}

/// One executable binding: a path and its node.
pub struct FsEntry {
    pub path: String,
    pub node: Node,
}

/// What a lookup reports about a path.
#[derive(Clone, Copy, PartialEq, Eq, Structural, Debug)]
pub enum PathKind {
    File,
    Directory,
    Missing,
}

impl View for Node {
    type V = NodeModel;

    closed spec fn view(&self) -> NodeModel {
        match self {
            Node::File(content) => NodeModel::File(content@),
            Node::Directory => NodeModel::Directory,
        }
    }
}

impl View for FsEntry {
    type V = EntryModel;

    closed spec fn view(&self) -> EntryModel {
        EntryModel { path: self.path@, node: self.node@ }
    }
}

/// The modelled filesystem: a list of path-to-node bindings with
/// pairwise distinct paths.
pub struct FileSystem {
    entries: Vec<FsEntry>,
}

impl View for FileSystem {
    type V = Seq<EntryModel>;

    closed spec fn view(&self) -> Seq<EntryModel> {
        self.entries@.map_values(|e: FsEntry| e@)
    }
}

/// Paths of the model are pairwise distinct.
pub open spec fn fs_wf(m: Seq<EntryModel>) -> bool {
    forall|i: int, j: int| 0 <= i < j < m.len() ==> m[i].path != m[j].path
}

/// Some entry binds the path `p`.
pub open spec fn fs_contains_path(m: Seq<EntryModel>, p: Seq<char>) -> bool {
    exists|i: int| 0 <= i < m.len() && m[i].path == p
}

/// The node bound to `p` (meaningful only when `p` is bound).
pub open spec fn fs_node_at(m: Seq<EntryModel>, p: Seq<char>) -> NodeModel {
    m[choose|i: int| 0 <= i < m.len() && m[i].path == p].node
}

/// What a lookup of `p` reports.
pub open spec fn fs_kind(m: Seq<EntryModel>, p: Seq<char>) -> PathKind {
    if !fs_contains_path(m, p) {
        PathKind::Missing
    } else {
        match fs_node_at(m, p) {
            NodeModel::File(_) => PathKind::File,
            NodeModel::Directory => PathKind::Directory,
        }
    }
}

/// The byte content of the file bound to `p` (meaningful only when a
/// file is bound there).
pub open spec fn fs_file_content(m: Seq<EntryModel>, p: Seq<char>) -> Seq<u8> {
    match fs_node_at(m, p) {
        NodeModel::File(content) => content,
        NodeModel::Directory => Seq::empty(),
    }
}

/// Keeps every entry except the one binding `p`.
pub open spec fn keep_not_path(p: Seq<char>) -> spec_fn(EntryModel) -> bool {
    |e: EntryModel| e.path != p
}

/// Keeps every entry outside the tree rooted at `root`.
pub open spec fn keep_outside_tree(root: Seq<char>) -> spec_fn(EntryModel) -> bool {
    |e: EntryModel| !path_under(root, e.path)
}

/// Keeps the direct entries of the directory `d`.
pub open spec fn keep_child_of(d: Seq<char>) -> spec_fn(EntryModel) -> bool {
    |e: EntryModel| is_direct_child(d, e.path)
}

/// The model with the binding of `p` removed (unchanged when absent).
pub open spec fn fs_remove_exact(m: Seq<EntryModel>, p: Seq<char>) -> Seq<EntryModel> {
    m.filter(keep_not_path(p))
}

/// The model with the whole tree rooted at `root` removed.
pub open spec fn fs_remove_tree(m: Seq<EntryModel>, root: Seq<char>) -> Seq<EntryModel> {
    m.filter(keep_outside_tree(root))
}

/// The model with `p` bound to `n`, replacing any earlier binding.
pub open spec fn fs_insert(m: Seq<EntryModel>, p: Seq<char>, n: NodeModel) -> Seq<EntryModel> {
    fs_remove_exact(m, p).push(EntryModel { path: p, node: n })
}

/// The model with a directory at `d` when `d` was unbound.
pub open spec fn fs_ensure_dir(m: Seq<EntryModel>, d: Seq<char>) -> Seq<EntryModel> {
    if fs_contains_path(m, d) {
        m
    } else {
        m.push(EntryModel { path: d, node: NodeModel::Directory })
    }
}

/// The paths of the direct entries of `d`, in enumeration order.
pub open spec fn fs_children(m: Seq<EntryModel>, d: Seq<char>) -> Seq<Seq<char>> {
    m.filter(keep_child_of(d)).map_values(|e: EntryModel| e.path)
}

/// The state a directory-chain creation ends in: the model it leaves
/// behind, and whether every component could be made a directory.
#[verifier::ext_equal]
pub struct EnsureChain {
    pub fs: Seq<EntryModel>,
    pub ok: bool,
}

/// Creates the directory `d` together with all its missing ancestor
/// components, scanning `d` from position `i` on: each proper prefix
/// ending just before a separator is made a directory, then `d`
/// itself.  A component already bound to a file stops the run there,
/// leaving the components created so far in place.
pub open spec fn fs_ensure_dir_chain_from(
    m: Seq<EntryModel>,
    d: Seq<char>,
    i: int,
) -> EnsureChain
    decreases d.len() - i,
{
    if i < 0 || i >= d.len() {
        if fs_kind(m, d) == PathKind::File {
            EnsureChain { fs: m, ok: false }
        } else {
            EnsureChain { fs: fs_ensure_dir(m, d), ok: true }
        }
    } else if d[i] == '/' && i > 0 && d[i - 1] != '/' {
        let p = d.subrange(0, i);
        if fs_kind(m, p) == PathKind::File {
            EnsureChain { fs: m, ok: false }
        } else {
            fs_ensure_dir_chain_from(fs_ensure_dir(m, p), d, i + 1)
        }
    } else {
        fs_ensure_dir_chain_from(m, d, i + 1)
    }
}

/// Creates the directory `d` and all its missing ancestor components.
pub open spec fn fs_ensure_dir_chain(m: Seq<EntryModel>, d: Seq<char>) -> EnsureChain {
    fs_ensure_dir_chain_from(m, d, 0)
}

/// In a well-formed model the entry at index `i` is the one that a
/// lookup of its path finds.
pub proof fn lemma_node_at_is(m: Seq<EntryModel>, i: int)
    requires
        fs_wf(m),
        0 <= i < m.len(),
    ensures
        fs_contains_path(m, m[i].path),
        fs_node_at(m, m[i].path) == m[i].node,
{
    assert(fs_contains_path(m, m[i].path));
    let j = choose|j: int| 0 <= j < m.len() && m[j].path == m[i].path;
    if i < j {
        assert(m[i].path != m[j].path);
    } else if j < i {
        assert(m[j].path != m[i].path);
    }
}

/// Filtering keeps a sequence it is wholly true on.
pub proof fn lemma_filter_all_true<A>(s: Seq<A>, pred: spec_fn(A) -> bool)
    requires
        forall|i: int| 0 <= i < s.len() ==> pred(s[i]),
    ensures
        s.filter(pred) == s,
    decreases s.len(),
{
    reveal(Seq::filter);
    if s.len() > 0 {
        lemma_filter_all_true(s.drop_last(), pred);
        assert(s.filter(pred) =~= s);
    }
}

/// Filtering a well-formed model keeps it well-formed, binds only
/// paths it bound before, keeps their nodes, and keeps every binding
/// whose entry the predicate accepts.
pub proof fn lemma_filter_props(m: Seq<EntryModel>, pred: spec_fn(EntryModel) -> bool)
    requires
        fs_wf(m),
    ensures
        fs_wf(m.filter(pred)),
        forall|q: Seq<char>|
            #[trigger] fs_contains_path(m.filter(pred), q) ==> fs_contains_path(m, q)
                && fs_node_at(m.filter(pred), q) == fs_node_at(m, q) && pred(
                EntryModel { path: q, node: fs_node_at(m, q) },
            ),
        forall|q: Seq<char>|
            fs_contains_path(m, q) && pred(EntryModel { path: q, node: fs_node_at(m, q) })
                ==> #[trigger] fs_contains_path(m.filter(pred), q),
    decreases m.len(),
{
    reveal(Seq::filter);
    let f = m.filter(pred);
    if m.len() == 0 {
    } else {
        let d = m.drop_last();
        let x = m.last();
        assert(fs_wf(d));
        lemma_filter_props(d, pred);
        let fd = d.filter(pred);
        assert(forall|i: int| 0 <= i < d.len() ==> m[i] == d[i]);

        // The last entry's path is fresh in `d`.
        assert(!fs_contains_path(d, x.path)) by {
            if fs_contains_path(d, x.path) {
                let i = choose|i: int| 0 <= i < d.len() && d[i].path == x.path;
                assert(m[i].path != m[m.len() - 1].path);
            }
        }
        assert(!fs_contains_path(fd, x.path));

        if pred(x) {
            assert(f == fd.push(x));
            assert(fs_wf(f)) by {
                assert forall|i: int, j: int| 0 <= i < j < f.len() implies f[i].path
                    != f[j].path by {
                    if j < f.len() - 1 {
                        assert(fd[i].path != fd[j].path);
                    } else {
                        assert(f[j] == x);
                        lemma_node_at_is(fd, i);
                        assert(fs_contains_path(fd, fd[i].path));
                    }
                }
            }
        } else {
            assert(f == fd);
        }

        assert forall|q: Seq<char>| #[trigger] fs_contains_path(f, q) implies fs_contains_path(
            m,
            q,
        ) && fs_node_at(f, q) == fs_node_at(m, q) && pred(
            EntryModel { path: q, node: fs_node_at(m, q) },
        ) by {
            let i = choose|i: int| 0 <= i < f.len() && f[i].path == q;
            lemma_node_at_is(f, i);
            if pred(x) && i == f.len() - 1 {
                // The binding is the last entry of `m` itself.
                lemma_node_at_is(m, m.len() - 1);
            } else {
                assert(f[i] == fd[i]);
                lemma_node_at_is(fd, i);
                assert(fs_contains_path(fd, q));
                assert(fs_contains_path(d, q));
                let k = choose|k: int| 0 <= k < d.len() && d[k].path == q;
                lemma_node_at_is(d, k);
                lemma_node_at_is(m, k);
            }
        }

        assert forall|q: Seq<char>|
            fs_contains_path(m, q) && pred(
                EntryModel { path: q, node: fs_node_at(m, q) },
            ) implies #[trigger] fs_contains_path(f, q) by {
            let i = choose|i: int| 0 <= i < m.len() && m[i].path == q;
            lemma_node_at_is(m, i);
            assert(m[i] == EntryModel { path: q, node: fs_node_at(m, q) });
            if i == m.len() - 1 {
                assert(f == fd.push(x));
                assert(f[f.len() - 1].path == q);
            } else {
                lemma_node_at_is(d, i);
                assert(fs_contains_path(d, q) && fs_node_at(d, q) == m[i].node);
                assert(fs_contains_path(fd, q));
                let k = choose|k: int| 0 <= k < fd.len() && fd[k].path == q;
                if pred(x) {
                    assert(f[k] == fd[k]);
                }
            }
        }
    }
}

/// Removing one binding: the path is gone, everything else is kept.
pub proof fn lemma_remove_exact_props(m: Seq<EntryModel>, p: Seq<char>)
    requires
        fs_wf(m),
    ensures
        fs_wf(fs_remove_exact(m, p)),
        fs_kind(fs_remove_exact(m, p), p) == PathKind::Missing,
        forall|q: Seq<char>| q != p ==> #[trigger] fs_kind(fs_remove_exact(m, p), q) == fs_kind(
            m,
            q,
        ),
        forall|q: Seq<char>| q != p && fs_contains_path(m, q) ==> #[trigger] fs_file_content(
            fs_remove_exact(m, p),
            q,
        ) == fs_file_content(m, q),
{
    let f = fs_remove_exact(m, p);
    lemma_filter_props(m, keep_not_path(p));
    assert(!fs_contains_path(f, p));
    assert forall|q: Seq<char>| q != p && fs_contains_path(m, q) implies #[trigger] fs_file_content(
        f,
        q,
    ) == fs_file_content(m, q) by {
        assert(keep_not_path(p)(EntryModel { path: q, node: fs_node_at(m, q) }));
        assert(fs_contains_path(f, q));
    }
}

/// Removing a tree: everything under the root is gone, everything
/// outside it is kept.
pub proof fn lemma_remove_tree_props(m: Seq<EntryModel>, root: Seq<char>)
    requires
        fs_wf(m),
    ensures
        fs_wf(fs_remove_tree(m, root)),
        forall|q: Seq<char>| path_under(root, q) ==> #[trigger] fs_kind(fs_remove_tree(m, root), q)
            == PathKind::Missing,
        forall|q: Seq<char>| !path_under(root, q) ==> #[trigger] fs_kind(fs_remove_tree(m, root), q)
            == fs_kind(m, q),
        forall|q: Seq<char>| !path_under(root, q) && fs_contains_path(m, q)
            ==> #[trigger] fs_file_content(fs_remove_tree(m, root), q) == fs_file_content(m, q),
{
    let f = fs_remove_tree(m, root);
    lemma_filter_props(m, keep_outside_tree(root));
    assert forall|q: Seq<char>| path_under(root, q) implies #[trigger] fs_kind(f, q)
        == PathKind::Missing by {
        if fs_contains_path(f, q) {
            assert(keep_outside_tree(root)(EntryModel { path: q, node: fs_node_at(m, q) }));
        }
    }
    assert forall|q: Seq<char>| !path_under(root, q) implies #[trigger] fs_kind(f, q) == fs_kind(
        m,
        q,
    ) by {
        if fs_contains_path(m, q) {
            assert(keep_outside_tree(root)(EntryModel { path: q, node: fs_node_at(m, q) }));
            assert(fs_contains_path(f, q));
        }
    }
    assert forall|q: Seq<char>| !path_under(root, q) && fs_contains_path(m, q) implies
        #[trigger] fs_file_content(f, q) == fs_file_content(m, q) by {
        assert(keep_outside_tree(root)(EntryModel { path: q, node: fs_node_at(m, q) }));
        assert(fs_contains_path(f, q));
    }
}

/// Inserting a binding: the path is now bound to the node, everything
/// else is kept.
pub proof fn lemma_insert_props(m: Seq<EntryModel>, p: Seq<char>, n: NodeModel)
    requires
        fs_wf(m),
    ensures
        fs_wf(fs_insert(m, p, n)),
        fs_contains_path(fs_insert(m, p, n), p),
        fs_node_at(fs_insert(m, p, n), p) == n,
        forall|q: Seq<char>| q != p ==> #[trigger] fs_kind(fs_insert(m, p, n), q) == fs_kind(m, q),
        forall|q: Seq<char>| q != p && fs_contains_path(m, q) ==> #[trigger] fs_file_content(
            fs_insert(m, p, n),
            q,
        ) == fs_file_content(m, q),
{
    let r = fs_remove_exact(m, p);
    let f = fs_insert(m, p, n);
    lemma_remove_exact_props(m, p);
    let e = EntryModel { path: p, node: n };
    assert(f == r.push(e));
    assert(fs_wf(f)) by {
        assert forall|i: int, j: int| 0 <= i < j < f.len() implies f[i].path != f[j].path by {
            if j < f.len() - 1 {
                assert(r[i].path != r[j].path);
            } else {
                lemma_node_at_is(r, i);
                assert(fs_contains_path(r, r[i].path));
                assert(fs_kind(r, p) == PathKind::Missing);
            }
        }
    }
    lemma_node_at_is(f, f.len() - 1);
    assert forall|q: Seq<char>| q != p implies #[trigger] fs_kind(f, q) == fs_kind(m, q) by {
        assert(fs_kind(r, q) == fs_kind(m, q));
        if fs_contains_path(r, q) {
            let i = choose|i: int| 0 <= i < r.len() && r[i].path == q;
            assert(f[i] == r[i]);
            lemma_node_at_is(r, i);
            lemma_node_at_is(f, i);
            assert(fs_kind(f, q) == fs_kind(r, q));
        } else {
            if fs_contains_path(f, q) {
                let i = choose|i: int| 0 <= i < f.len() && f[i].path == q;
                assert(f[i] == r[i]);
                assert(fs_contains_path(r, q));
            }
            assert(fs_kind(f, q) == PathKind::Missing);
        }
    }
    assert forall|q: Seq<char>| q != p && fs_contains_path(m, q) implies #[trigger] fs_file_content(
        f,
        q,
    ) == fs_file_content(m, q) by {
        assert(fs_kind(r, q) == fs_kind(m, q));
        assert(fs_contains_path(r, q));
        let i = choose|i: int| 0 <= i < r.len() && r[i].path == q;
        assert(f[i] == r[i]);
        lemma_node_at_is(r, i);
        lemma_node_at_is(f, i);
        assert(fs_file_content(r, q) == fs_file_content(m, q));
    }
}

/// Ensuring a directory: the path reports a directory afterwards,
/// everything else is kept.
pub proof fn lemma_ensure_dir_props(m: Seq<EntryModel>, d: Seq<char>)
    requires
        fs_wf(m),
        fs_kind(m, d) != PathKind::File,
    ensures
        fs_wf(fs_ensure_dir(m, d)),
        fs_kind(fs_ensure_dir(m, d), d) == PathKind::Directory,
        forall|q: Seq<char>| q != d ==> #[trigger] fs_kind(fs_ensure_dir(m, d), q) == fs_kind(m, q),
        forall|q: Seq<char>| q != d && fs_contains_path(m, q) ==> #[trigger] fs_file_content(
            fs_ensure_dir(m, d),
            q,
        ) == fs_file_content(m, q),
{
    let f = fs_ensure_dir(m, d);
    if fs_contains_path(m, d) {
        assert(f == m);
    } else {
        let e = EntryModel { path: d, node: NodeModel::Directory };
        assert(f == m.push(e));
        assert(fs_wf(f)) by {
            assert forall|i: int, j: int| 0 <= i < j < f.len() implies f[i].path != f[j].path by {
                if j < f.len() - 1 {
                    assert(m[i].path != m[j].path);
                } else {
                    lemma_node_at_is(m, i);
                    assert(fs_contains_path(m, m[i].path));
                }
            }
        }
        lemma_node_at_is(f, f.len() - 1);
        assert forall|q: Seq<char>| q != d implies #[trigger] fs_kind(f, q) == fs_kind(m, q) by {
            if fs_contains_path(m, q) {
                let i = choose|i: int| 0 <= i < m.len() && m[i].path == q;
                lemma_node_at_is(m, i);
                lemma_node_at_is(f, i);
            } else {
                if fs_contains_path(f, q) {
                    let i = choose|i: int| 0 <= i < f.len() && f[i].path == q;
                    assert(f[i] == m[i]);
                }
            }
        }
        assert forall|q: Seq<char>| q != d && fs_contains_path(m, q) implies
            #[trigger] fs_file_content(f, q) == fs_file_content(m, q) by {
            let i = choose|i: int| 0 <= i < m.len() && m[i].path == q;
            lemma_node_at_is(m, i);
            lemma_node_at_is(f, i);
        }
    }
}

/// Creating a directory chain keeps the model well-formed, never
/// shrinks it, changes no binding that existed (only missing
/// components become directories), and on success leaves the target a
/// directory and a second run from the same position a no-op.
pub proof fn lemma_ensure_dir_chain_props(m: Seq<EntryModel>, d: Seq<char>, i: int)
    requires
        fs_wf(m),
    ensures
        fs_wf(fs_ensure_dir_chain_from(m, d, i).fs),
        fs_ensure_dir_chain_from(m, d, i).fs.len() >= m.len(),
        forall|q: Seq<char>| fs_kind(m, q) != PathKind::Missing ==> #[trigger] fs_kind(
            fs_ensure_dir_chain_from(m, d, i).fs,
            q,
        ) == fs_kind(m, q),
        forall|q: Seq<char>| fs_contains_path(m, q) ==> #[trigger] fs_file_content(
            fs_ensure_dir_chain_from(m, d, i).fs,
            q,
        ) == fs_file_content(m, q),
        fs_ensure_dir_chain_from(m, d, i).ok ==> fs_kind(fs_ensure_dir_chain_from(m, d, i).fs, d)
            == PathKind::Directory,
        fs_ensure_dir_chain_from(m, d, i).ok ==> fs_ensure_dir_chain_from(
            fs_ensure_dir_chain_from(m, d, i).fs,
            d,
            i,
        ) == (EnsureChain { fs: fs_ensure_dir_chain_from(m, d, i).fs, ok: true }),
    decreases d.len() - i,
{
    let c = fs_ensure_dir_chain_from(m, d, i);
    if i < 0 || i >= d.len() {
        if fs_kind(m, d) == PathKind::File {
        } else {
            lemma_ensure_dir_props(m, d);
            assert(fs_kind(c.fs, d) == PathKind::Directory);
            assert(fs_ensure_dir(c.fs, d) == c.fs);
        }
    } else if d[i] == '/' && i > 0 && d[i - 1] != '/' {
        let p = d.subrange(0, i);
        if fs_kind(m, p) == PathKind::File {
        } else {
            lemma_ensure_dir_props(m, p);
            let m1 = fs_ensure_dir(m, p);
            lemma_ensure_dir_chain_props(m1, d, i + 1);
            assert(c == fs_ensure_dir_chain_from(m1, d, i + 1));
            assert forall|q: Seq<char>| fs_kind(m, q) != PathKind::Missing implies #[trigger]
                fs_kind(c.fs, q) == fs_kind(m, q) by {
                assert(fs_kind(m1, q) == fs_kind(m, q));
            }
            assert forall|q: Seq<char>| fs_contains_path(m, q) implies #[trigger] fs_file_content(
                c.fs,
                q,
            ) == fs_file_content(m, q) by {
                assert(fs_kind(m1, q) == fs_kind(m, q));
                assert(fs_contains_path(m1, q));
            }
            if c.ok {
                // A second run from `i` meets the component already
                // bound as a directory and moves on unchanged.
                assert(fs_kind(m1, p) == PathKind::Directory);
                assert(fs_kind(c.fs, p) == PathKind::Directory);
                assert(fs_ensure_dir(c.fs, p) == c.fs);
                assert(fs_ensure_dir_chain_from(c.fs, d, i) == fs_ensure_dir_chain_from(
                    c.fs,
                    d,
                    i + 1,
                ));
            }
        }
    } else {
        lemma_ensure_dir_chain_props(m, d, i + 1);
    }
}

/// After a directory chain is created, every component prefix of the
/// target — each prefix ending just before a separator — reports a
/// directory, as the target itself does.
pub proof fn lemma_ensure_dir_chain_components(m: Seq<EntryModel>, d: Seq<char>, i: int)
    requires
        fs_wf(m),
        0 <= i,
        fs_ensure_dir_chain_from(m, d, i).ok,
    ensures
        forall|j: int|
            i <= j < d.len() && d[j] == '/' && j > 0 && d[j - 1] != '/' ==> #[trigger] fs_kind(
                fs_ensure_dir_chain_from(m, d, i).fs,
                d.subrange(0, j),
            ) == PathKind::Directory,
    decreases d.len() - i,
{
    let c = fs_ensure_dir_chain_from(m, d, i);
    if i < 0 || i >= d.len() {
    } else if d[i] == '/' && i > 0 && d[i - 1] != '/' {
        let p = d.subrange(0, i);
        lemma_ensure_dir_props(m, p);
        let m1 = fs_ensure_dir(m, p);
        lemma_ensure_dir_chain_props(m1, d, i + 1);
        lemma_ensure_dir_chain_components(m1, d, i + 1);
        assert(fs_kind(m1, p) == PathKind::Directory);
        assert forall|j: int|
            i <= j < d.len() && d[j] == '/' && j > 0 && d[j - 1] != '/' implies #[trigger] fs_kind(
            c.fs,
            d.subrange(0, j),
        ) == PathKind::Directory by {
            if j == i {
                assert(fs_kind(c.fs, p) == PathKind::Directory);
            } else {
                assert(fs_kind(
                    fs_ensure_dir_chain_from(m1, d, i + 1).fs,
                    d.subrange(0, j),
                ) == PathKind::Directory);
            }
        }
    } else {
        lemma_ensure_dir_chain_components(m, d, i + 1);
        assert forall|j: int|
            i <= j < d.len() && d[j] == '/' && j > 0 && d[j - 1] != '/' implies #[trigger] fs_kind(
            c.fs,
            d.subrange(0, j),
        ) == PathKind::Directory by {
            assert(fs_kind(
                fs_ensure_dir_chain_from(m, d, i + 1).fs,
                d.subrange(0, j),
            ) == PathKind::Directory);
        }
    }
}

/// A model that reports the same kinds as one on which a chain
/// creation is a settled no-op is itself left unchanged by that chain
/// creation.
pub proof fn lemma_ensure_dir_chain_noop(
    mref: Seq<EntryModel>,
    m2: Seq<EntryModel>,
    d: Seq<char>,
    i: int,
)
    requires
        fs_ensure_dir_chain_from(mref, d, i) == (EnsureChain { fs: mref, ok: true }),
        forall|q: Seq<char>| q.len() <= d.len() ==> #[trigger] fs_kind(m2, q) == fs_kind(mref, q),
    ensures
        fs_ensure_dir_chain_from(m2, d, i) == (EnsureChain { fs: m2, ok: true }),
    decreases d.len() - i,
{
    if i < 0 || i >= d.len() {
        // The settled run neither failed nor grew `mref`, so `d` is
        // bound there and not a file; `m2` reports the same.
        assert(fs_kind(mref, d) != PathKind::File);
        if !fs_contains_path(mref, d) {
            assert(fs_ensure_dir(mref, d) == mref.push(
                EntryModel { path: d, node: NodeModel::Directory },
            ));
            assert(fs_ensure_dir(mref, d).len() == mref.len() + 1);
        }
        assert(fs_kind(m2, d) == fs_kind(mref, d));
        assert(fs_contains_path(m2, d));
        assert(fs_ensure_dir(m2, d) == m2);
    } else if d[i] == '/' && i > 0 && d[i - 1] != '/' {
        let p = d.subrange(0, i);
        assert(fs_kind(mref, p) != PathKind::File);
        let m1 = fs_ensure_dir(mref, p);
        if !fs_contains_path(mref, p) {
            lemma_chain_len(m1, d, i + 1);
            assert(m1.len() == mref.len() + 1);
        }
        assert(m1 == mref);
        assert(fs_ensure_dir_chain_from(mref, d, i + 1) == (EnsureChain { fs: mref, ok: true }));
        assert(p.len() <= d.len());
        assert(fs_kind(m2, p) == fs_kind(mref, p));
        assert(fs_contains_path(m2, p));
        assert(fs_ensure_dir(m2, p) == m2);
        lemma_ensure_dir_chain_noop(mref, m2, d, i + 1);
    } else {
        lemma_ensure_dir_chain_noop(mref, m2, d, i + 1);
    }
}

/// A chain creation never shrinks the model.
proof fn lemma_chain_len(m: Seq<EntryModel>, d: Seq<char>, i: int)
    ensures
        fs_ensure_dir_chain_from(m, d, i).fs.len() >= m.len(),
    decreases d.len() - i,
{
    if i < 0 || i >= d.len() {
    } else if d[i] == '/' && i > 0 && d[i - 1] != '/' {
        let p = d.subrange(0, i);
        if fs_kind(m, p) != PathKind::File {
            lemma_chain_len(fs_ensure_dir(m, p), d, i + 1);
        }
    } else {
        lemma_chain_len(m, d, i + 1);
    }
}

impl FileSystem {
    /// The model invariant: paths are pairwise distinct.
    pub open spec fn wf(&self) -> bool {
        fs_wf(self@)
    }

    /// An empty filesystem.
    pub fn new() -> (r: FileSystem)
        ensures
            r@ == Seq::<EntryModel>::empty(),
            r.wf(),
    {
        let fs = FileSystem { entries: Vec::new() };
        proof {
            assert(fs@ =~= Seq::<EntryModel>::empty());
        }
        fs
    }

    /// The index of the entry binding `path`, when one exists.
    fn index_of(&self, path: &str) -> (r: Option<usize>)
        ensures
            match r {
                Some(i) => i < self@.len() && self@[i as int].path == path@,
                None => !fs_contains_path(self@, path@),
            },
    {
        let n = self.entries.len();
        let mut i: usize = 0;
        while i < n
            invariant
                n == self.entries.len(),
                i <= n,
                self@.len() == n,
                forall|j: int| 0 <= j < i ==> self@[j].path != path@,
            decreases n - i,
        {
            if str_eq(self.entries[i].path.as_str(), path) {
                return Some(i);
            }
            i = i + 1;
        }
        None
    }

    /// What a lookup of `path` reports.
    pub fn kind_of(&self, path: &str) -> (k: PathKind)
        requires
            self.wf(),
        ensures
            k == fs_kind(self@, path@),
    {
        match self.index_of(path) {
            None => PathKind::Missing,
            Some(i) => {
                proof {
                    lemma_node_at_is(self@, i as int);
                }
                match &self.entries[i].node {
                    Node::File(_) => PathKind::File,
                    Node::Directory => PathKind::Directory,
                }
            },
        }
    }

    /// The content of the file bound to `path`, when a file is bound
    /// there.
    pub fn file_content(&self, path: &str) -> (r: Option<&Vec<u8>>)
        requires
            self.wf(),
        ensures
            match r {
                Some(content) => fs_kind(self@, path@) == PathKind::File && content@
                    == fs_file_content(self@, path@),
                None => fs_kind(self@, path@) != PathKind::File,
            },
    {
        match self.index_of(path) {
            None => None,
            Some(i) => {
                proof {
                    lemma_node_at_is(self@, i as int);
                }
                match &self.entries[i].node {
                    Node::File(content) => Some(content),
                    Node::Directory => None,
                }
            },
        }
    }

    /// Removes the binding of `path` (no change when it is absent).
    pub fn remove_path(&mut self, path: &str)
        requires
            old(self).wf(),
        ensures
            final(self).wf(),
            final(self)@ == fs_remove_exact(old(self)@, path@),
    {
        proof {
            lemma_remove_exact_props(old(self)@, path@);
        }
        match self.index_of(path) {
            Some(i) => {
                let ghost m = self@;
                self.entries.remove(i);
                proof {
                    assert(self@ =~= m.remove(i as int));
                    lemma_removed_index_is_filter(m, path@, i as int);
                }
            },
            None => {
                proof {
                    lemma_filter_all_true(self@, keep_not_path(path@));
                }
            },
        }
    }

    /// Removes the whole tree rooted at `root`.
    pub fn remove_tree(&mut self, root: &str)
        requires
            old(self).wf(),
        ensures
            final(self).wf(),
            final(self)@ == fs_remove_tree(old(self)@, root@),
    {
        let ghost m0 = self@;
        let mut i: usize = 0;
        let ghost consumed: int = 0;
        proof {
            assert(m0.take(0).filter(keep_outside_tree(root@)) =~= Seq::<EntryModel>::empty());
            assert(self@ =~= m0.take(0).filter(keep_outside_tree(root@)) + m0.skip(0));
            lemma_remove_tree_props(m0, root@);
        }
        while i < self.entries.len()
            invariant
                0 <= consumed <= m0.len(),
                i == m0.take(consumed).filter(keep_outside_tree(root@)).len(),
                self@ =~= m0.take(consumed).filter(keep_outside_tree(root@)) + m0.skip(consumed),
                self@.len() == self.entries.len(),
            decreases m0.len() - consumed,
        {
            proof {
                assert(self@[i as int] == self.entries@[i as int]@);
                assert(self@[i as int] == m0.skip(consumed)[0]);
                assert(m0.skip(consumed)[0] == m0[consumed]);
                assert(m0.take(consumed + 1) =~= m0.take(consumed).push(m0[consumed]));
                m0.take(consumed).lemma_filter_push(m0[consumed], keep_outside_tree(root@));
            }
            let keep = !path_under_of(root, self.entries[i].path.as_str());
            proof {
                assert(self.entries@[i as int].path@ == m0[consumed].path);
                assert(keep == keep_outside_tree(root@)(m0[consumed]));
            }
            if keep {
                i = i + 1;
                proof {
                    assert(m0.take(consumed + 1).filter(keep_outside_tree(root@)) =~= m0.take(consumed).filter(keep_outside_tree(root@)).push(m0[consumed]));
                    assert(self@ =~= m0.take(consumed + 1).filter(keep_outside_tree(root@)) + m0.skip(consumed + 1));
                }
            } else {
                let ghost m_before = self@;
                self.entries.remove(i);
                proof {
                    assert(self@ =~= m_before.remove(i as int));
                    assert(m0.take(consumed + 1).filter(keep_outside_tree(root@)) =~= m0.take(consumed).filter(keep_outside_tree(root@)));
                    assert(m0.skip(consumed).drop_first() =~= m0.skip(consumed + 1));
                    assert(m_before.remove(i as int) =~= m0.take(consumed).filter(keep_outside_tree(root@))
                        + m0.skip(consumed + 1));
                }
            }
            proof {
                consumed = consumed + 1;
                assert(self@ =~= m0.take(consumed).filter(keep_outside_tree(root@)) + m0.skip(consumed));
            }
        }
        proof {
            assert(m0.skip(consumed).len() == 0);
            assert(consumed == m0.len());
            assert(m0.take(consumed) =~= m0);
            assert(self@ =~= fs_remove_tree(m0, root@));
        }
    }

    /// Binds `path` to `node`, replacing any earlier binding.
    fn set_node(&mut self, path: &str, node: Node)
        requires
            old(self).wf(),
        ensures
            final(self).wf(),
            final(self)@ == fs_insert(old(self)@, path@, node@),
    {
        let ghost nm = node@;
        proof {
            lemma_insert_props(old(self)@, path@, nm);
        }
        self.remove_path(path);
        let ghost r = self@;
        let entry = FsEntry { path: String::from_str(path), node };
        self.entries.push(entry);
        proof {
            assert(self@ =~= r.push(EntryModel { path: path@, node: nm }));
        }
    }

    /// Binds `path` to a file with the given content.
    pub fn add_file(&mut self, path: &str, content: Vec<u8>)
        requires
            old(self).wf(),
        ensures
            final(self).wf(),
            final(self)@ == fs_insert(old(self)@, path@, NodeModel::File(content@)),
    {
        self.set_node(path, Node::File(content));
    }

    /// Binds `path` to a directory.
    pub fn add_directory(&mut self, path: &str)
        requires
            old(self).wf(),
        ensures
            final(self).wf(),
            final(self)@ == fs_insert(old(self)@, path@, NodeModel::Directory),
    {
        self.set_node(path, Node::Directory);
    }

    /// Makes sure `path` is a directory; the caller has ruled out a
    /// file at that path.
    pub fn ensure_directory(&mut self, path: &str)
        requires
            old(self).wf(),
            fs_kind(old(self)@, path@) != PathKind::File,
        ensures
            final(self).wf(),
            final(self)@ == fs_ensure_dir(old(self)@, path@),
    {
        proof {
            lemma_ensure_dir_props(old(self)@, path@);
        }
        match self.index_of(path) {
            Some(_) => {},
            None => {
                let ghost m = self@;
                let entry = FsEntry { path: String::from_str(path), node: Node::Directory };
                self.entries.push(entry);
                proof {
                    assert(self@ =~= m.push(
                        EntryModel { path: path@, node: NodeModel::Directory },
                    ));
                }
            },
        }
    }

    /// Makes sure `path` and every missing ancestor component of it
    /// are directories, reporting whether that succeeded; a component
    /// already bound to a file stops the work there.
    pub fn ensure_directory_chain(&mut self, path: &str) -> (ok: bool)
        requires
            old(self).wf(),
        ensures
            final(self).wf(),
            final(self)@ == fs_ensure_dir_chain(old(self)@, path@).fs,
            ok == fs_ensure_dir_chain(old(self)@, path@).ok,
    {
        let ghost m0 = self@;
        let len = path.unicode_len();
        let mut i: usize = 0;
        while i < len
            invariant
                m0 == old(self)@,
                len == path@.len(),
                i <= len,
                self.wf(),
                fs_ensure_dir_chain(m0, path@) == fs_ensure_dir_chain_from(
                    self@,
                    path@,
                    i as int,
                ),
            decreases len - i,
        {
            if path.get_char(i) == '/' && i > 0 && path.get_char(i - 1) != '/' {
                let component = path.substring_char(0, i);
                match self.kind_of(component) {
                    PathKind::File => {
                        proof {
                            assert(fs_ensure_dir_chain_from(self@, path@, i as int)
                                == (EnsureChain { fs: self@, ok: false }));
                        }
                        return false;
                    },
                    _ => {
                        let ghost before = self@;
                        self.ensure_directory(component);
                        proof {
                            assert(fs_ensure_dir_chain_from(before, path@, i as int)
                                == fs_ensure_dir_chain_from(self@, path@, i as int + 1));
                        }
                    },
                }
            } else {
                proof {
                    assert(fs_ensure_dir_chain_from(self@, path@, i as int)
                        == fs_ensure_dir_chain_from(self@, path@, i as int + 1));
                }
            }
            i = i + 1;
        }
        match self.kind_of(path) {
            PathKind::File => {
                proof {
                    assert(fs_ensure_dir_chain_from(self@, path@, len as int) == (EnsureChain {
                        fs: self@,
                        ok: false,
                    }));
                }
                false
            },
            _ => {
                proof {
                    assert(fs_ensure_dir_chain_from(self@, path@, len as int) == (EnsureChain {
                        fs: fs_ensure_dir(self@, path@),
                        ok: true,
                    }));
                }
                self.ensure_directory(path);
                true
            },
        }
    }

    /// The full paths of the direct entries of `dir`, in enumeration
    /// order.
    pub fn children_of(&self, dir: &str) -> (r: Vec<String>)
        requires
            self.wf(),
        ensures
            r.deep_view() == fs_children(self@, dir@),
    {
        let mut out: Vec<String> = Vec::new();
        let n = self.entries.len();
        let mut i: usize = 0;
        proof {
            assert(self@.take(0).filter(keep_child_of(dir@)) =~= Seq::<EntryModel>::empty());
            assert(out.deep_view() =~= self@.take(0).filter(keep_child_of(dir@)).map_values(
                |e: EntryModel| e.path,
            ));
        }
        while i < n
            invariant
                n == self.entries.len(),
                self@.len() == n,
                i <= n,
                out.deep_view() == self@.take(i as int).filter(keep_child_of(dir@)).map_values(
                    |e: EntryModel| e.path,
                ),
            decreases n - i,
        {
            proof {
                assert(self@[i as int] == self.entries@[i as int]@);
                assert(self@.take(i + 1) =~= self@.take(i as int).push(self@[i as int]));
                self@.take(i as int).lemma_filter_push(self@[i as int], keep_child_of(dir@));
            }
            let ghost before = out.deep_view();
            if is_direct_child_of(dir, self.entries[i].path.as_str()) {
                out.push(self.entries[i].path.clone());
                proof {
                    assert(out.deep_view() =~= before.push(self@[i as int].path));
                    assert(self@.take(i + 1).filter(keep_child_of(dir@)) =~= self@.take(i as int).filter(keep_child_of(dir@)).push(self@[i as int]));
                    assert(out.deep_view() =~= self@.take(i + 1).filter(keep_child_of(dir@)).map_values(
                        |e: EntryModel| e.path,
                    ));
                }
            } else {
                proof {
                    assert(self@.take(i + 1).filter(keep_child_of(dir@)) =~= self@.take(i as int).filter(keep_child_of(dir@)));
                    assert(out.deep_view() =~= self@.take(i + 1).filter(keep_child_of(dir@)).map_values(
                        |e: EntryModel| e.path,
                    ));
                }
            }
            i = i + 1;
        }
        proof {
            assert(self@.take(n as int) =~= self@);
        }
        out
    }

    /// Copies the file at `src` to `dest`, overwriting any earlier
    /// binding of `dest`.
    pub fn copy_entry(&mut self, src: &str, dest: &str)
        requires
            old(self).wf(),
            fs_kind(old(self)@, src@) == PathKind::File,
        ensures
            final(self).wf(),
            final(self)@ == fs_insert(
                old(self)@,
                dest@,
                NodeModel::File(fs_file_content(old(self)@, src@)),
            ),
    {
        let content: Vec<u8> = match self.index_of(src) {
            Some(i) => {
                proof {
                    lemma_node_at_is(self@, i as int);
                }
                match &self.entries[i].node {
                    Node::File(content) => clone_bytes(content),
                    Node::Directory => {
                        proof {
                            assert(false);
                        }
                        Vec::new()
                    },
                }
            },
            None => {
                proof {
                    assert(false);
                }
                Vec::new()
            },
        };
        self.set_node(dest, Node::File(content));
    }
}

/// Removing the unique entry binding `p` is the same as filtering that
/// path out.
proof fn lemma_removed_index_is_filter(m: Seq<EntryModel>, p: Seq<char>, i: int)
    requires
        fs_wf(m),
        0 <= i < m.len(),
        m[i].path == p,
    ensures
        m.remove(i) == fs_remove_exact(m, p),
{
    let pred = keep_not_path(p);
    let a = m.take(i);
    let b = m.skip(i + 1);
    assert(m =~= a + seq![m[i]] + b);
    Seq::filter_distributes_over_add(a + seq![m[i]], b, pred);
    Seq::filter_distributes_over_add(a, seq![m[i]], pred);
    assert(forall|j: int| 0 <= j < a.len() ==> a[j] == m[j] && pred(a[j]));
    assert(forall|j: int| 0 <= j < b.len() ==> b[j] == m[i + 1 + j] && pred(b[j]));
    lemma_filter_all_true(a, pred);
    lemma_filter_all_true(b, pred);
    assert(seq![m[i]].filter(pred) =~= Seq::<EntryModel>::empty()) by {
        reveal(Seq::filter);
        assert(seq![m[i]].drop_last() =~= Seq::<EntryModel>::empty());
    }
    assert(a + Seq::<EntryModel>::empty() + b =~= a + b);
    assert(m.remove(i) =~= a + b);
}

/// A fresh vector with the same bytes.
fn clone_bytes(v: &Vec<u8>) -> (r: Vec<u8>)
    ensures
        r@ == v@,
{
    let mut r: Vec<u8> = Vec::new();
    let n = v.len();
    let mut i: usize = 0;
    proof {
        assert(r@ =~= v@.take(0));
    }
    while i < n
        invariant
            n == v@.len(),
            i <= n,
            r@ == v@.take(i as int),
        decreases n - i,
    {
        r.push(v[i]);
        proof {
            assert(v@.take(i as int).push(v@[i as int]) =~= v@.take(i + 1));
        }
        i = i + 1;
    }
    proof {
        assert(v@.take(n as int) =~= v@);
    }
    r
}

} // verus!
