//! Removing source paths: a file is deleted, a directory is deleted
//! with its whole tree, and any other path fails the run at once.

use vstd::prelude::*;

use crate::action::{Action, ErrInfo, OutcomeModel};
use crate::errors::{missing_path_message_spec, ActionError, ErrorKind};
use crate::fs_model::{
    fs_contains_path, fs_kind, fs_remove_exact, fs_remove_tree, fs_wf, lemma_remove_exact_props,
    lemma_remove_tree_props, EntryModel, FileSystem, PathKind,
};
use crate::paths::path_under;

verus! {

/// Removes each source path in input order, failing fast on the first
/// path that is neither a file nor a directory.
pub struct RemoveAction {
    source_paths: Vec<String>,
}

impl View for RemoveAction {
    type V = Seq<Seq<char>>;

    closed spec fn view(&self) -> Seq<Seq<char>> {
        self.source_paths.deep_view()
    }
}

/// The state a removal run ends in: the filesystem it leaves behind
/// and the failure that stopped it, if one did.
#[verifier::ext_equal]
pub struct RemoveRun {
    pub fs: Seq<EntryModel>,
    pub failure: Option<ErrInfo>,
}

/// Runs a removal over the model: paths are taken in order; a file is
/// removed, a directory tree is removed, and a missing path stops the
/// run with the failure that names it.
pub open spec fn remove_run(m: Seq<EntryModel>, paths: Seq<Seq<char>>) -> RemoveRun
    decreases paths.len(),
{
    if paths.len() == 0 {
        RemoveRun { fs: m, failure: None }
    } else {
        let p = paths.first();
        match fs_kind(m, p) {
            PathKind::File => remove_run(fs_remove_exact(m, p), paths.drop_first()),
            PathKind::Directory => remove_run(fs_remove_tree(m, p), paths.drop_first()),
            PathKind::Missing => RemoveRun {
                fs: m,
                failure: Some(
                    ErrInfo {
                        kind: ErrorKind::PathNotFound,
                        message: missing_path_message_spec(p),
                    },
                ),
            },
        }
    }
}

/// What a removal does with one path, given what a lookup reported.
pub enum RemoveStep {
    DeleteFile,
    DeleteDirectory,
    Fail(ActionError),
}

/// The decision a removal takes on one path: delete a file, delete a
/// directory tree, or fail naming the path.
pub fn remove_step(kind: PathKind, path: &str) -> (r: RemoveStep)
    ensures
        kind == PathKind::File ==> r is DeleteFile,
        kind == PathKind::Directory ==> r is DeleteDirectory,
        kind == PathKind::Missing ==> r is Fail && r->Fail_0.kind == ErrorKind::PathNotFound
            && r->Fail_0.message@ == missing_path_message_spec(path@),
{
    match kind {
        PathKind::File => RemoveStep::DeleteFile,
        PathKind::Directory => RemoveStep::DeleteDirectory,
        PathKind::Missing => RemoveStep::Fail(ActionError::path_not_found(path)),
    }
}

impl RemoveAction {
    /// A removal of the given source paths.
    pub fn new(source_paths: Vec<String>) -> (r: Self)
        ensures
            r@ == source_paths.deep_view(),
    {
        RemoveAction { source_paths }
    }
}

impl Action for RemoveAction {
    open spec fn fs_after(&self, m: Seq<EntryModel>) -> Seq<EntryModel> {
        remove_run(m, self@).fs
    }

    open spec fn outcome(&self, m: Seq<EntryModel>) -> OutcomeModel {
        match remove_run(m, self@).failure {
            None => OutcomeModel::NoOutput,
            Some(e) => OutcomeModel::Failure(e),
        }
    }

    fn execute(&self, file_system: &mut FileSystem) -> (r: Result<Option<Vec<String>>, ActionError>)
    {
        let ghost m0 = file_system@;
        let n = self.source_paths.len();
        let mut idx: usize = 0;
        proof {
            assert(self@.skip(0) =~= self@);
        }
        while idx < n
            invariant
                m0 == old(file_system)@,
                n == self.source_paths.len(),
                idx <= n,
                self@.len() == n,
                file_system.wf(),
                remove_run(m0, self@) == remove_run(file_system@, self@.skip(idx as int)),
            decreases n - idx,
        {
            let path = &self.source_paths[idx];
            proof {
                assert(self@[idx as int] == self.source_paths@[idx as int]@);
                assert(self@.skip(idx as int).first() == self@[idx as int]);
                assert(self@.skip(idx as int).drop_first() =~= self@.skip(idx as int + 1));
            }
            let kind = file_system.kind_of(path.as_str());
            match remove_step(kind, path.as_str()) {
                RemoveStep::DeleteFile => {
                    file_system.remove_path(path.as_str());
                },
                RemoveStep::DeleteDirectory => {
                    file_system.remove_tree(path.as_str());
                },
                RemoveStep::Fail(e) => {
                    proof {
                        assert(self@.skip(idx as int).len() > 0);
                        assert(remove_run(file_system@, self@.skip(idx as int)) == RemoveRun {
                            fs: file_system@,
                            failure: Some(
                                ErrInfo {
                                    kind: ErrorKind::PathNotFound,
                                    message: missing_path_message_spec(self@[idx as int]),
                                },
                            ),
                        });
                    }
                    return Err(e);
                },
            }
            idx = idx + 1;
        }
        proof {
            assert(self@.skip(n as int) =~= Seq::<Seq<char>>::empty());
        }
        Ok(None)
    }
}

/// Removing an existing file succeeds and leaves the file gone.
pub proof fn lemma_remove_existing_file(m: Seq<EntryModel>, f: Seq<char>)
    requires
        fs_wf(m),
        fs_kind(m, f) == PathKind::File,
    ensures
        remove_run(m, seq![f]).failure is None,
        !fs_contains_path(remove_run(m, seq![f]).fs, f),
{
    lemma_remove_exact_props(m, f);
    assert(seq![f].first() == f);
    assert(seq![f].drop_first() =~= Seq::<Seq<char>>::empty());
    let m1 = fs_remove_exact(m, f);
    assert(remove_run(m1, Seq::<Seq<char>>::empty()) == RemoveRun { fs: m1, failure: None });
    assert(remove_run(m, seq![f]) == remove_run(m1, seq![f].drop_first()));
    assert(remove_run(m, seq![f]).fs == m1);
}

/// A removal run over a batch is the run over its first part,
/// continued over the rest only when the first part succeeded.
pub proof fn lemma_remove_run_append(m: Seq<EntryModel>, ps: Seq<Seq<char>>, qs: Seq<Seq<char>>)
    ensures
        remove_run(m, ps).failure is Some ==> remove_run(m, ps + qs) == remove_run(m, ps),
        remove_run(m, ps).failure is None ==> remove_run(m, ps + qs) == remove_run(
            remove_run(m, ps).fs,
            qs,
        ),
    decreases ps.len(),
{
    if ps.len() == 0 {
        assert(ps + qs =~= qs);
    } else {
        let p = ps.first();
        assert((ps + qs).first() == p);
        assert((ps + qs).drop_first() =~= ps.drop_first() + qs);
        match fs_kind(m, p) {
            PathKind::File => {
                lemma_remove_run_append(fs_remove_exact(m, p), ps.drop_first(), qs);
            },
            PathKind::Directory => {
                lemma_remove_run_append(fs_remove_tree(m, p), ps.drop_first(), qs);
            },
            PathKind::Missing => {},
        }
    }
}

/// A removal never binds a path it did not find bound, and keeps the
/// filesystem well-formed.
pub proof fn lemma_remove_run_monotone(m: Seq<EntryModel>, ps: Seq<Seq<char>>)
    requires
        fs_wf(m),
    ensures
        fs_wf(remove_run(m, ps).fs),
        forall|q: Seq<char>| #[trigger] fs_contains_path(remove_run(m, ps).fs, q)
            ==> fs_contains_path(m, q),
    decreases ps.len(),
{
    if ps.len() == 0 {
    } else {
        let p = ps.first();
        match fs_kind(m, p) {
            PathKind::File => {
                lemma_remove_exact_props(m, p);
                lemma_remove_run_monotone(fs_remove_exact(m, p), ps.drop_first());
                assert forall|q: Seq<char>| #[trigger] fs_contains_path(
                    remove_run(m, ps).fs,
                    q,
                ) implies fs_contains_path(m, q) by {
                    assert(fs_contains_path(fs_remove_exact(m, p), q));
                    assert(fs_kind(fs_remove_exact(m, p), q) != PathKind::Missing);
                    if q == p {
                        assert(fs_kind(fs_remove_exact(m, p), p) == PathKind::Missing);
                    } else {
                        assert(fs_kind(fs_remove_exact(m, p), q) == fs_kind(m, q));
                    }
                }
            },
            PathKind::Directory => {
                lemma_remove_tree_props(m, p);
                lemma_remove_run_monotone(fs_remove_tree(m, p), ps.drop_first());
                assert forall|q: Seq<char>| #[trigger] fs_contains_path(
                    remove_run(m, ps).fs,
                    q,
                ) implies fs_contains_path(m, q) by {
                    assert(fs_contains_path(fs_remove_tree(m, p), q));
                    assert(fs_kind(fs_remove_tree(m, p), q) != PathKind::Missing);
                    if path_under(p, q) {
                        assert(fs_kind(fs_remove_tree(m, p), q) == PathKind::Missing);
                    } else {
                        assert(fs_kind(fs_remove_tree(m, p), q) == fs_kind(m, q));
                    }
                }
            },
            PathKind::Missing => {},
        }
    }
}

/// After a removal run succeeds, none of its source paths exists.
pub proof fn lemma_remove_all_gone(m: Seq<EntryModel>, ps: Seq<Seq<char>>)
    requires
        fs_wf(m),
        remove_run(m, ps).failure is None,
    ensures
        forall|i: int| 0 <= i < ps.len() ==> !fs_contains_path(remove_run(m, ps).fs, ps[i]),
    decreases ps.len(),
{
    if ps.len() == 0 {
    } else {
        let p = ps.first();
        match fs_kind(m, p) {
            PathKind::File => {
                lemma_remove_exact_props(m, p);
                let m1 = fs_remove_exact(m, p);
                lemma_remove_all_gone(m1, ps.drop_first());
                lemma_remove_run_monotone(m1, ps.drop_first());
                assert(!fs_contains_path(m1, p));
                assert forall|i: int| 0 <= i < ps.len() implies !fs_contains_path(
                    remove_run(m, ps).fs,
                    ps[i],
                ) by {
                    if i > 0 {
                        assert(ps.drop_first()[i - 1] == ps[i]);
                    }
                }
            },
            PathKind::Directory => {
                lemma_remove_tree_props(m, p);
                let m1 = fs_remove_tree(m, p);
                lemma_remove_all_gone(m1, ps.drop_first());
                lemma_remove_run_monotone(m1, ps.drop_first());
                assert(fs_kind(m1, p) == PathKind::Missing);
                assert(!fs_contains_path(m1, p));
                assert forall|i: int| 0 <= i < ps.len() implies !fs_contains_path(
                    remove_run(m, ps).fs,
                    ps[i],
                ) by {
                    if i > 0 {
                        assert(ps.drop_first()[i - 1] == ps[i]);
                    }
                }
            },
            PathKind::Missing => {},
        }
    }
}

/// Meeting a path that is neither file nor directory fails the batch
/// with the message naming that path, while the work already done on
/// the earlier paths is kept.
pub proof fn lemma_remove_missing_fail_fast(
    m: Seq<EntryModel>,
    ps: Seq<Seq<char>>,
    p: Seq<char>,
)
    requires
        fs_wf(m),
        remove_run(m, ps).failure is None,
        fs_kind(remove_run(m, ps).fs, p) == PathKind::Missing,
    ensures
        remove_run(m, ps.push(p)).fs == remove_run(m, ps).fs,
        remove_run(m, ps.push(p)).failure == Some(
            ErrInfo { kind: ErrorKind::PathNotFound, message: missing_path_message_spec(p) },
        ),
{
    lemma_remove_run_append(m, ps, seq![p]);
    assert(ps.push(p) =~= ps + seq![p]);
    let m1 = remove_run(m, ps).fs;
    assert(seq![p].first() == p);
    assert(remove_run(m1, seq![p]).fs == m1);
}

} // verus!
