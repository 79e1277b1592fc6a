//! Copying source paths into an output directory: each file lands
//! under its own file name, directory chains are created on demand,
//! and the first failure stops the run.

use vstd::prelude::*;

use crate::action::{Action, ErrInfo, OutcomeModel};
use crate::errors::{
    copy_failure_message_spec, mkdir_failure_message_spec, ActionError, ErrorKind,
};
use crate::fs_model::{
    fs_ensure_dir_chain, fs_file_content, fs_insert, fs_kind, fs_wf,
    lemma_ensure_dir_chain_components, lemma_ensure_dir_chain_noop,
    lemma_ensure_dir_chain_props, lemma_insert_props, EntryModel,
    EnsureChain, FileSystem, NodeModel, PathKind,
};
use crate::paths::{basename_of, basename_spec, join_path, join_spec};

verus! {

/// Copies each source file into the output directory, in input order,
/// failing fast on the first path that cannot be copied.
pub struct CopyAction {
    source_paths: Vec<String>,
    output_directory: String,
}

/// The parameters a copy was built from, at the specification level.
#[verifier::ext_equal]
pub struct CopyActionModel {
    pub source_paths: Seq<Seq<char>>,
    pub output_directory: Seq<char>,
}

impl View for CopyAction {
    type V = CopyActionModel;

    closed spec fn view(&self) -> CopyActionModel {
        CopyActionModel {
            source_paths: self.source_paths.deep_view(),
            output_directory: self.output_directory@,
        }
    }
}

/// The state a copy run ends in: the filesystem it leaves behind, the
/// destination paths written so far, and the failure that stopped it,
/// if one did.
#[verifier::ext_equal]
pub struct CopyRun {
    pub fs: Seq<EntryModel>,
    pub outputs: Seq<Seq<char>>,
    pub failure: Option<ErrInfo>,
}

/// Runs a copy over the model: for each source path in order, the
/// destination is the output directory joined with the source's file
/// name; the output directory is created when missing, together with
/// all its missing ancestor components; the source must be an
/// existing file, whose content then overwrites the destination.  A
/// source without a file name, a directory component that cannot be
/// created, or a source that is not a file stops the run.
pub open spec fn copy_run(m: Seq<EntryModel>, paths: Seq<Seq<char>>, od: Seq<char>) -> CopyRun
    decreases paths.len(),
{
    if paths.len() == 0 {
        CopyRun { fs: m, outputs: Seq::empty(), failure: None }
    } else {
        let p = paths.first();
        let name = basename_spec(p);
        if name.len() == 0 {
            CopyRun {
                fs: m,
                outputs: Seq::empty(),
                failure: Some(
                    ErrInfo { kind: ErrorKind::IoFailure, message: copy_failure_message_spec(p) },
                ),
            }
        } else if !fs_ensure_dir_chain(m, od).ok {
            CopyRun {
                fs: fs_ensure_dir_chain(m, od).fs,
                outputs: Seq::empty(),
                failure: Some(
                    ErrInfo { kind: ErrorKind::IoFailure, message: mkdir_failure_message_spec(od) },
                ),
            }
        } else {
            let m1 = fs_ensure_dir_chain(m, od).fs;
            if fs_kind(m1, p) != PathKind::File {
                CopyRun {
                    fs: m1,
                    outputs: Seq::empty(),
                    failure: Some(
                        ErrInfo {
                            kind: ErrorKind::IoFailure,
                            message: copy_failure_message_spec(p),
                        },
                    ),
                }
            } else {
                let dest = join_spec(od, name);
                let m2 = fs_insert(m1, dest, NodeModel::File(fs_file_content(m1, p)));
                let rest = copy_run(m2, paths.drop_first(), od);
                CopyRun {
                    fs: rest.fs,
                    outputs: seq![dest] + rest.outputs,
                    failure: rest.failure,
                }
            }
        }
    }
}

/// The destination a source path is copied to: the output directory
/// joined with the source's file name; a source without a file name
/// cannot be copied.
pub fn copy_destination(output_directory: &str, source: &str) -> (r: Result<String, ActionError>)
    ensures
        basename_spec(source@).len() == 0 ==> r is Err && r->Err_0.kind == ErrorKind::IoFailure
            && r->Err_0.message@ == copy_failure_message_spec(source@),
        basename_spec(source@).len() > 0 ==> r is Ok && r->Ok_0@ == join_spec(
            output_directory@,
            basename_spec(source@),
        ),
{
    let name = basename_of(source);
    if name.as_str().unicode_len() == 0 {
        Err(ActionError::copy_failure(source))
    } else {
        Ok(join_path(output_directory, name.as_str()))
    }
}

impl CopyAction {
    /// A copy of the given source paths into the output directory.
    pub fn new(source_paths: Vec<String>, output_directory: String) -> (r: Self)
        ensures
            r@ == (CopyActionModel {
                source_paths: source_paths.deep_view(),
                output_directory: output_directory@,
            }),
    {
        CopyAction { source_paths, output_directory }
    }
}

impl Action for CopyAction {
    open spec fn fs_after(&self, m: Seq<EntryModel>) -> Seq<EntryModel> {
        copy_run(m, self@.source_paths, self@.output_directory).fs
    }

    open spec fn outcome(&self, m: Seq<EntryModel>) -> OutcomeModel {
        let run = copy_run(m, self@.source_paths, self@.output_directory);
        match run.failure {
            None => OutcomeModel::Paths(run.outputs),
            Some(e) => OutcomeModel::Failure(e),
        }
    }

    fn execute(&self, file_system: &mut FileSystem) -> (r: Result<Option<Vec<String>>, ActionError>)
    {
        let ghost m0 = file_system@;
        let ghost od_spec = self@.output_directory;
        let mut output_files: Vec<String> = Vec::new();
        let n = self.source_paths.len();
        let mut idx: usize = 0;
        proof {
            assert(self@.source_paths.skip(0) =~= self@.source_paths);
            assert(output_files.deep_view() =~= Seq::<Seq<char>>::empty());
            assert(Seq::<Seq<char>>::empty() + copy_run(m0, self@.source_paths, od_spec).outputs
                =~= copy_run(m0, self@.source_paths, od_spec).outputs);
        }
        while idx < n
            invariant
                m0 == old(file_system)@,
                od_spec == self@.output_directory,
                file_system.wf(),
                n == self.source_paths.len(),
                idx <= n,
                self@.source_paths.len() == n,
                copy_run(m0, self@.source_paths, od_spec).fs == copy_run(
                    file_system@,
                    self@.source_paths.skip(idx as int),
                    od_spec,
                ).fs,
                copy_run(m0, self@.source_paths, od_spec).failure == copy_run(
                    file_system@,
                    self@.source_paths.skip(idx as int),
                    od_spec,
                ).failure,
                copy_run(m0, self@.source_paths, od_spec).outputs == output_files.deep_view()
                    + copy_run(file_system@, self@.source_paths.skip(idx as int), od_spec).outputs,
            decreases n - idx,
        {
            let ghost rem = self@.source_paths.skip(idx as int);
            let path = &self.source_paths[idx];
            proof {
                assert(self@.source_paths[idx as int] == self.source_paths@[idx as int]@);
                assert(rem.first() == self@.source_paths[idx as int]);
                assert(rem.drop_first() =~= self@.source_paths.skip(idx as int + 1));
            }
            let dest = match copy_destination(self.output_directory.as_str(), path.as_str()) {
                Ok(dest) => dest,
                Err(e) => {
                    return Err(e);
                },
            };
            let chain_ok = file_system.ensure_directory_chain(self.output_directory.as_str());
            if !chain_ok {
                return Err(ActionError::directory_creation_failure(self.output_directory.as_str()));
            }
            let src_kind = file_system.kind_of(path.as_str());
            if !matches!(src_kind, PathKind::File) {
                return Err(ActionError::copy_failure(path.as_str()));
            }
            proof {
                lemma_insert_props(
                    file_system@,
                    dest@,
                    NodeModel::File(fs_file_content(file_system@, rem.first())),
                );
            }
            file_system.copy_entry(path.as_str(), dest.as_str());
            let ghost before = output_files.deep_view();
            output_files.push(dest);
            proof {
                assert(output_files.deep_view() =~= before.push(
                    join_spec(od_spec, basename_spec(rem.first())),
                ));
                assert(before + (seq![join_spec(od_spec, basename_spec(rem.first()))] + copy_run(
                    file_system@,
                    self@.source_paths.skip(idx as int + 1),
                    od_spec,
                ).outputs) =~= output_files.deep_view() + copy_run(
                    file_system@,
                    self@.source_paths.skip(idx as int + 1),
                    od_spec,
                ).outputs);
            }
            idx = idx + 1;
        }
        proof {
            assert(self@.source_paths.skip(n as int) =~= Seq::<Seq<char>>::empty());
            assert(output_files.deep_view() + Seq::<Seq<char>>::empty() =~= output_files.deep_view());
        }
        Ok(Some(output_files))
    }
}

/// Copying one existing file into a directory whose component chain
/// can be created succeeds, reports exactly the joined destination
/// path, gives the destination the source's content — and running the
/// same copy again changes nothing and reports the same result.
///
/// The last premise rules out an ancestor component of the output
/// directory being bound to a file, which would make the directory
/// chain impossible to create; on a real filesystem an existing
/// directory always satisfies it.
pub proof fn lemma_copy_single_file(m: Seq<EntryModel>, f: Seq<char>, d: Seq<char>)
    requires
        fs_wf(m),
        fs_kind(m, f) == PathKind::File,
        fs_kind(m, d) == PathKind::Directory,
        basename_spec(f).len() > 0,
        fs_ensure_dir_chain(m, d).ok,
    ensures
        copy_run(m, seq![f], d).failure is None,
        copy_run(m, seq![f], d).outputs == seq![join_spec(d, basename_spec(f))],
        fs_kind(copy_run(m, seq![f], d).fs, join_spec(d, basename_spec(f))) == PathKind::File,
        fs_file_content(copy_run(m, seq![f], d).fs, join_spec(d, basename_spec(f)))
            == fs_file_content(m, f),
        fs_kind(copy_run(m, seq![f], d).fs, d) == PathKind::Directory,
        forall|j: int|
            0 < j < d.len() && d[j] == '/' && d[j - 1] != '/' ==> #[trigger] fs_kind(
                copy_run(m, seq![f], d).fs,
                d.subrange(0, j),
            ) == PathKind::Directory,
        copy_run(copy_run(m, seq![f], d).fs, seq![f], d) == copy_run(m, seq![f], d),
{
    assert(seq![f].first() == f);
    assert(seq![f].drop_first() =~= Seq::<Seq<char>>::empty());
    let dest = join_spec(d, basename_spec(f));
    let c = fs_ensure_dir_chain(m, d);
    lemma_ensure_dir_chain_props(m, d, 0);
    let m1 = c.fs;
    assert(fs_kind(m1, f) == PathKind::File);
    let content = fs_file_content(m1, f);
    assert(content == fs_file_content(m, f));
    let m2 = fs_insert(m1, dest, NodeModel::File(content));
    lemma_insert_props(m1, dest, NodeModel::File(content));
    assert(copy_run(m2, Seq::<Seq<char>>::empty(), d) == CopyRun {
        fs: m2,
        outputs: Seq::<Seq<char>>::empty(),
        failure: None::<ErrInfo>,
    });
    let run = copy_run(m, seq![f], d);
    assert(run.fs == m2);
    assert(run.outputs =~= seq![dest]);

    // The destination holds the source's content.
    assert(fs_kind(m2, dest) == PathKind::File);
    assert(fs_file_content(m2, dest) == content);

    // The output directory and each of its component prefixes stand
    // as directories after the run (mkdir -p semantics).
    lemma_ensure_dir_chain_components(m, d, 0);
    assert(dest.len() > d.len()) by {
        crate::paths::lemma_join_longer(d, basename_spec(f));
    }
    assert(fs_kind(m2, d) == PathKind::Directory);
    assert forall|j: int|
        0 < j < d.len() && d[j] == '/' && d[j - 1] != '/' implies #[trigger] fs_kind(
        run.fs,
        d.subrange(0, j),
    ) == PathKind::Directory by {
        assert(fs_kind(m1, d.subrange(0, j)) == PathKind::Directory);
        assert(d.subrange(0, j).len() < dest.len());
        assert(fs_kind(m2, d.subrange(0, j)) == fs_kind(m1, d.subrange(0, j)));
    }

    // The second run starts from `m2`, where the whole directory
    // chain already stands and the source is still the same file.
    assert forall|q: Seq<char>| q.len() <= d.len() implies #[trigger] fs_kind(m2, q) == fs_kind(
        m1,
        q,
    ) by {
        assert(q != dest);
    }
    lemma_ensure_dir_chain_noop(m1, m2, d, 0);
    assert(fs_ensure_dir_chain(m2, d) == (EnsureChain { fs: m2, ok: true }));
    assert(fs_kind(m2, f) == PathKind::File && fs_file_content(m2, f) == content) by {
        if f != dest {
            assert(fs_kind(m2, f) == fs_kind(m1, f));
        }
    }
    let m3 = fs_insert(m2, dest, NodeModel::File(content));
    assert(m3 == m2) by {
        lemma_insert_same_again(m1, dest, NodeModel::File(content));
    }
    assert(copy_run(m3, Seq::<Seq<char>>::empty(), d) == CopyRun {
        fs: m3,
        outputs: Seq::<Seq<char>>::empty(),
        failure: None::<ErrInfo>,
    });
    let run2 = copy_run(m2, seq![f], d);
    assert(run2.fs == m2);
    assert(run2.outputs =~= seq![dest]);
    assert(run2 =~= run);
}

/// Re-inserting the binding that an insertion just made leaves the
/// model unchanged.
proof fn lemma_insert_same_again(m: Seq<EntryModel>, p: Seq<char>, n: NodeModel)
    requires
        fs_wf(m),
    ensures
        fs_insert(fs_insert(m, p, n), p, n) == fs_insert(m, p, n),
{
    let e = EntryModel { path: p, node: n };
    let r = crate::fs_model::fs_remove_exact(m, p);
    let m2 = fs_insert(m, p, n);
    assert(m2 == r.push(e));
    r.lemma_filter_push(e, crate::fs_model::keep_not_path(p));
    assert(!crate::fs_model::keep_not_path(p)(e));
    assert(crate::fs_model::fs_remove_exact(m2, p) == r.filter(crate::fs_model::keep_not_path(p)));
    assert forall|i: int| 0 <= i < r.len() implies crate::fs_model::keep_not_path(p)(r[i]) by {
        m.lemma_filter_pred(crate::fs_model::keep_not_path(p), i);
    }
    crate::fs_model::lemma_filter_all_true(r, crate::fs_model::keep_not_path(p));
}

} // verus!
