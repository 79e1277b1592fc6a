//! Listing directories: each source path that is a directory
//! contributes its direct entries, in enumeration order; any other
//! source path is skipped.

use vstd::prelude::*;

use crate::action::{Action, OutcomeModel};
use crate::errors::ActionError;
use crate::fs_model::{
    fs_children, fs_contains_path, fs_kind, fs_node_at, fs_wf, keep_child_of, lemma_filter_props,
    lemma_node_at_is, EntryModel, FileSystem, PathKind,
};
use crate::paths::is_direct_child;

verus! {

/// Lists the direct entries of each source directory in input order,
/// skipping source paths that are not directories.
pub struct ListAction {
    source_paths: Vec<String>,
}

impl View for ListAction {
    type V = Seq<Seq<char>>;

    closed spec fn view(&self) -> Seq<Seq<char>> {
        self.source_paths.deep_view()
    }
}

/// The listing a run produces: the concatenation, in input order, of
/// the direct entries of each source path that is a directory.
pub open spec fn list_run(m: Seq<EntryModel>, paths: Seq<Seq<char>>) -> Seq<Seq<char>>
    decreases paths.len(),
{
    if paths.len() == 0 {
        Seq::empty()
    } else {
        let head = if fs_kind(m, paths.first()) == PathKind::Directory {
            fs_children(m, paths.first())
        } else {
            Seq::empty()
        };
        head + list_run(m, paths.drop_first())
    }
}

impl ListAction {
    /// A listing of the given source paths.
    pub fn new(source_paths: Vec<String>) -> (r: Self)
        ensures
            r@ == source_paths.deep_view(),
    {
        ListAction { source_paths }
    }
}

impl Action for ListAction {
    open spec fn fs_after(&self, m: Seq<EntryModel>) -> Seq<EntryModel> {
        m
    }

    open spec fn outcome(&self, m: Seq<EntryModel>) -> OutcomeModel {
        OutcomeModel::Paths(list_run(m, self@))
    }

    fn execute(&self, file_system: &mut FileSystem) -> (r: Result<Option<Vec<String>>, ActionError>)
    {
        let ghost m0 = file_system@;
        let mut listing: Vec<String> = Vec::new();
        let n = self.source_paths.len();
        let mut idx: usize = 0;
        proof {
            assert(self@.skip(0) =~= self@);
            assert(listing.deep_view() =~= Seq::<Seq<char>>::empty());
        }
        while idx < n
            invariant
                m0 == old(file_system)@,
                file_system@ == m0,
                file_system.wf(),
                n == self.source_paths.len(),
                idx <= n,
                self@.len() == n,
                list_run(m0, self@) == listing.deep_view() + list_run(
                    m0,
                    self@.skip(idx as int),
                ),
            decreases n - idx,
        {
            let path = &self.source_paths[idx];
            proof {
                assert(self@[idx as int] == self.source_paths@[idx as int]@);
                assert(self@.skip(idx as int).first() == self@[idx as int]);
                assert(self@.skip(idx as int).drop_first() =~= self@.skip(idx as int + 1));
            }
            let ghost before = listing.deep_view();
            let kind = file_system.kind_of(path.as_str());
            match kind {
                PathKind::Directory => {
                    let mut entries = file_system.children_of(path.as_str());
                    listing.append(&mut entries);
                    proof {
                        assert(listing.deep_view() =~= before + fs_children(
                            m0,
                            self@[idx as int],
                        ));
                        assert((before + fs_children(m0, self@[idx as int])) + list_run(
                            m0,
                            self@.skip(idx as int + 1),
                        ) =~= before + (fs_children(m0, self@[idx as int]) + list_run(
                            m0,
                            self@.skip(idx as int + 1),
                        )));
                    }
                },
                _ => {
                    proof {
                        assert(Seq::<Seq<char>>::empty() + list_run(
                            m0,
                            self@.skip(idx as int + 1),
                        ) =~= list_run(m0, self@.skip(idx as int + 1)));
                    }
                },
            }
            idx = idx + 1;
        }
        proof {
            assert(self@.skip(n as int) =~= Seq::<Seq<char>>::empty());
            assert(listing.deep_view() + Seq::<Seq<char>>::empty() =~= listing.deep_view());
        }
        Ok(Some(listing))
    }
}

/// Listing a directory reports exactly its direct entries: every
/// direct entry of the directory appears, everything reported is such
/// an entry, and nothing appears twice.
pub proof fn lemma_list_directory_children(m: Seq<EntryModel>, d: Seq<char>)
    requires
        fs_wf(m),
        fs_kind(m, d) == PathKind::Directory,
    ensures
        forall|q: Seq<char>| #[trigger] list_run(m, seq![d]).contains(q) <==> (fs_contains_path(
            m,
            q,
        ) && is_direct_child(d, q)),
        forall|i: int, j: int| 0 <= i < j < list_run(m, seq![d]).len() ==> list_run(m, seq![d])[i]
            != list_run(m, seq![d])[j],
{
    assert(seq![d].first() == d);
    assert(seq![d].drop_first() =~= Seq::<Seq<char>>::empty());
    let out = list_run(m, seq![d]);
    assert(list_run(m, Seq::<Seq<char>>::empty()) =~= Seq::<Seq<char>>::empty());
    assert(out =~= fs_children(m, d));
    let f = m.filter(keep_child_of(d));
    lemma_filter_props(m, keep_child_of(d));
    assert(out =~= f.map_values(|e: EntryModel| e.path));

    assert forall|q: Seq<char>| #[trigger] out.contains(q) implies (fs_contains_path(m, q)
        && is_direct_child(d, q)) by {
        let i = choose|i: int| 0 <= i < out.len() && out[i] == q;
        assert(f[i].path == q);
        lemma_node_at_is(f, i);
        assert(fs_contains_path(f, q));
        assert(keep_child_of(d)(EntryModel { path: q, node: fs_node_at(m, q) }));
    }
    assert forall|q: Seq<char>| fs_contains_path(m, q) && is_direct_child(d, q) implies
        #[trigger] out.contains(q) by {
        assert(keep_child_of(d)(EntryModel { path: q, node: fs_node_at(m, q) }));
        assert(fs_contains_path(f, q));
        let i = choose|i: int| 0 <= i < f.len() && f[i].path == q;
        assert(out[i] == q);
    }
    assert forall|i: int, j: int| 0 <= i < j < out.len() implies out[i] != out[j] by {
        assert(f[i].path != f[j].path);
    }
}

/// A source path that is not a directory contributes nothing to a
/// listing.
pub proof fn lemma_list_non_directory(m: Seq<EntryModel>, p: Seq<char>)
    requires
        fs_kind(m, p) != PathKind::Directory,
    ensures
        list_run(m, seq![p]) == Seq::<Seq<char>>::empty(),
{
    assert(seq![p].first() == p);
    assert(seq![p].drop_first() =~= Seq::<Seq<char>>::empty());
    assert(list_run(m, Seq::<Seq<char>>::empty()) =~= Seq::<Seq<char>>::empty());
    assert(list_run(m, seq![p]) =~= Seq::<Seq<char>>::empty());
}

} // verus!
