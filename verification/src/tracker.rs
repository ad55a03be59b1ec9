//! Batching filesystem events into invalidation sets.
//!
//! The tracker stages observed mutations as three disjoint sets of
//! graph keys, and hands them to the update transaction in one shot.
//! A content change dirties the file and metadata keys of the path
//! alone; additions and removals additionally dirty the parent's
//! listing, since only they alter what the parent directory contains;
//! a directory event always dirties the directory's own listing too.

use vstd::prelude::*;

use crate::fs::FsNodeV;
use crate::icg::spec_eval;
use crate::icg::EngineEnvV;
use crate::icg::Key;
use crate::icg::KeyV;
use crate::icg::PathMetadataKey;
use crate::icg::ReadDirKey;
use crate::icg::ReadFileKey;
use crate::icg::VersionedGraph;
use crate::paths::CellPath;
use crate::paths::CellPathV;

verus! {

/// Mathematical image of the tracker: the three staged key sets.
#[verifier::ext_equal]
pub struct FileChangeTrackerV {
    pub files_to_dirty: Set<KeyV>,
    pub dirs_to_dirty: Set<KeyV>,
    pub paths_to_dirty: Set<KeyV>,
}

/// Batches observed filesystem mutations into invalidation sets for
/// the graph.
pub struct FileChangeTracker {
    pub files_to_dirty: Vec<Key>,
    pub dirs_to_dirty: Vec<Key>,
    pub paths_to_dirty: Vec<Key>,
}

impl View for FileChangeTracker {
    type V = FileChangeTrackerV;

    open spec fn view(&self) -> FileChangeTrackerV {
        FileChangeTrackerV {
            files_to_dirty: self.files_to_dirty.deep_view().to_set(),
            dirs_to_dirty: self.dirs_to_dirty.deep_view().to_set(),
            paths_to_dirty: self.paths_to_dirty.deep_view().to_set(),
        }
    }
}

/// Appends a key to a staged list.
fn push_key(v: &mut Vec<Key>, k: Key)
    ensures
        final(v).deep_view().to_set() == old(v).deep_view().to_set().insert(k@),
{
    let ghost oldv = v.deep_view();
    let ghost kv = k@;
    v.push(k);
    proof {
        crate::icg::lemma_keys_deep_view(*v);
        assert(v.deep_view() =~= oldv.push(kv));
        oldv.lemma_push_to_set_commute(kv);
        assert(v.deep_view().to_set() =~= oldv.to_set().insert(kv));
    }
}

impl FileChangeTracker {
    /// A tracker with nothing staged.
    pub fn new() -> (r: FileChangeTracker)
        ensures
            r@.files_to_dirty == Set::<KeyV>::empty(),
            r@.dirs_to_dirty == Set::<KeyV>::empty(),
            r@.paths_to_dirty == Set::<KeyV>::empty(),
    {
        let r = FileChangeTracker {
            files_to_dirty: Vec::new(),
            dirs_to_dirty: Vec::new(),
            paths_to_dirty: Vec::new(),
        };
        proof {
            crate::icg::lemma_keys_deep_view(r.files_to_dirty);
            crate::icg::lemma_keys_deep_view(r.dirs_to_dirty);
            crate::icg::lemma_keys_deep_view(r.paths_to_dirty);
            assert(r@.files_to_dirty =~= Set::<KeyV>::empty());
            assert(r@.dirs_to_dirty =~= Set::<KeyV>::empty());
            assert(r@.paths_to_dirty =~= Set::<KeyV>::empty());
        }
        r
    }

    /// A content change in place: dirties the file key and the
    /// metadata key of the path, and nothing else.
    fn file_contents_modify(&mut self, path: CellPath)
        ensures
            final(self)@.files_to_dirty == old(self)@.files_to_dirty.insert(
                KeyV::ReadFile { path: path@ },
            ),
            final(self)@.paths_to_dirty == old(self)@.paths_to_dirty.insert(
                KeyV::PathMetadata { path: path@ },
            ),
            final(self)@.dirs_to_dirty == old(self)@.dirs_to_dirty,
    {
        let p2 = path.clone();
        push_key(&mut self.files_to_dirty, Key::ReadFile(ReadFileKey(path)));
        push_key(&mut self.paths_to_dirty, Key::PathMetadata(PathMetadataKey(p2)));
    }

    /// A file's bytes changed without the file appearing or
    /// disappearing: the parent's listing is unaffected.
    pub fn file_changed(&mut self, path: CellPath)
        ensures
            final(self)@.files_to_dirty == old(self)@.files_to_dirty.insert(
                KeyV::ReadFile { path: path@ },
            ),
            final(self)@.paths_to_dirty == old(self)@.paths_to_dirty.insert(
                KeyV::PathMetadata { path: path@ },
            ),
            final(self)@.dirs_to_dirty == old(self)@.dirs_to_dirty,
    {
        self.file_contents_modify(path)
    }

    /// A file appeared or disappeared: additionally dirties the
    /// parent's listing, when the path has a parent in its cell.
    pub fn file_added_or_removed(&mut self, path: CellPath)
        ensures
            final(self)@.files_to_dirty == old(self)@.files_to_dirty.insert(
                KeyV::ReadFile { path: path@ },
            ),
            final(self)@.paths_to_dirty == old(self)@.paths_to_dirty.insert(
                KeyV::PathMetadata { path: path@ },
            ),
            (match path@.parent() {
                Option::Some(q) => final(self)@.dirs_to_dirty == old(self)@.dirs_to_dirty.insert(
                    KeyV::ReadDir { path: q },
                ),
                Option::None => final(self)@.dirs_to_dirty == old(self)@.dirs_to_dirty,
            }),
    {
        let parent = path.parent();
        self.file_contents_modify(path);
        match parent {
            Option::Some(q) => {
                // The root of a cell has no parent; since the sets
                // never cross into an enclosing cell, it is
                // deliberately not dirtied there.
                push_key(&mut self.dirs_to_dirty, Key::ReadDir(ReadDirKey(q)));
            },
            Option::None => {},
        }
    }

    /// A directory appeared or disappeared: dirties its metadata key
    /// and its own listing key, and the parent's listing when the
    /// path has a parent in its cell.
    pub fn dir_added_or_removed(&mut self, path: CellPath)
        ensures
            final(self)@.paths_to_dirty == old(self)@.paths_to_dirty.insert(
                KeyV::PathMetadata { path: path@ },
            ),
            final(self)@.files_to_dirty == old(self)@.files_to_dirty,
            (match path@.parent() {
                Option::Some(q) => final(self)@.dirs_to_dirty == old(self)@.dirs_to_dirty.insert(
                    KeyV::ReadDir { path: path@ },
                ).insert(KeyV::ReadDir { path: q }),
                Option::None => final(self)@.dirs_to_dirty == old(self)@.dirs_to_dirty.insert(
                    KeyV::ReadDir { path: path@ },
                ),
            }),
    {
        let p2 = path.clone();
        let p3 = path.clone();
        let parent = path.parent();
        push_key(&mut self.paths_to_dirty, Key::PathMetadata(PathMetadataKey(p2)));
        push_key(&mut self.dirs_to_dirty, Key::ReadDir(ReadDirKey(p3)));
        match parent {
            Option::Some(q) => {
                push_key(&mut self.dirs_to_dirty, Key::ReadDir(ReadDirKey(q)));
            },
            Option::None => {},
        }
    }

    /// A file disappeared.
    pub fn file_removed(&mut self, path: CellPath)
        ensures
            final(self)@.files_to_dirty == old(self)@.files_to_dirty.insert(
                KeyV::ReadFile { path: path@ },
            ),
            final(self)@.paths_to_dirty == old(self)@.paths_to_dirty.insert(
                KeyV::PathMetadata { path: path@ },
            ),
            (match path@.parent() {
                Option::Some(q) => final(self)@.dirs_to_dirty == old(self)@.dirs_to_dirty.insert(
                    KeyV::ReadDir { path: q },
                ),
                Option::None => final(self)@.dirs_to_dirty == old(self)@.dirs_to_dirty,
            }),
    {
        self.file_added_or_removed(path)
    }

    /// A file appeared.
    pub fn file_added(&mut self, path: CellPath)
        ensures
            final(self)@.files_to_dirty == old(self)@.files_to_dirty.insert(
                KeyV::ReadFile { path: path@ },
            ),
            final(self)@.paths_to_dirty == old(self)@.paths_to_dirty.insert(
                KeyV::PathMetadata { path: path@ },
            ),
            (match path@.parent() {
                Option::Some(q) => final(self)@.dirs_to_dirty == old(self)@.dirs_to_dirty.insert(
                    KeyV::ReadDir { path: q },
                ),
                Option::None => final(self)@.dirs_to_dirty == old(self)@.dirs_to_dirty,
            }),
    {
        self.file_added_or_removed(path)
    }

    /// A directory's contents changed in place.
    pub fn dir_changed(&mut self, path: CellPath)
        ensures
            final(self)@.paths_to_dirty == old(self)@.paths_to_dirty.insert(
                KeyV::PathMetadata { path: path@ },
            ),
            final(self)@.dirs_to_dirty == old(self)@.dirs_to_dirty.insert(
                KeyV::ReadDir { path: path@ },
            ),
            final(self)@.files_to_dirty == old(self)@.files_to_dirty,
    {
        let p2 = path.clone();
        push_key(&mut self.paths_to_dirty, Key::PathMetadata(PathMetadataKey(p2)));
        push_key(&mut self.dirs_to_dirty, Key::ReadDir(ReadDirKey(path)));
    }

    /// A directory appeared.
    pub fn dir_added(&mut self, path: CellPath)
        ensures
            final(self)@.paths_to_dirty == old(self)@.paths_to_dirty.insert(
                KeyV::PathMetadata { path: path@ },
            ),
            final(self)@.files_to_dirty == old(self)@.files_to_dirty,
            (match path@.parent() {
                Option::Some(q) => final(self)@.dirs_to_dirty == old(self)@.dirs_to_dirty.insert(
                    KeyV::ReadDir { path: path@ },
                ).insert(KeyV::ReadDir { path: q }),
                Option::None => final(self)@.dirs_to_dirty == old(self)@.dirs_to_dirty.insert(
                    KeyV::ReadDir { path: path@ },
                ),
            }),
    {
        self.dir_added_or_removed(path)
    }

    /// A directory disappeared.
    pub fn dir_removed(&mut self, path: CellPath)
        ensures
            final(self)@.paths_to_dirty == old(self)@.paths_to_dirty.insert(
                KeyV::PathMetadata { path: path@ },
            ),
            final(self)@.files_to_dirty == old(self)@.files_to_dirty,
            (match path@.parent() {
                Option::Some(q) => final(self)@.dirs_to_dirty == old(self)@.dirs_to_dirty.insert(
                    KeyV::ReadDir { path: path@ },
                ).insert(KeyV::ReadDir { path: q }),
                Option::None => final(self)@.dirs_to_dirty == old(self)@.dirs_to_dirty.insert(
                    KeyV::ReadDir { path: path@ },
                ),
            }),
    {
        self.dir_added_or_removed(path)
    }

    /// Hands all three sets to the update transaction and consumes
    /// the tracker; the staged keys take effect at the next commit,
    /// atomically.
    pub fn write_to_dice(self, g: &mut VersionedGraph)
        ensures
            final(g)@.staged.to_set() == old(g)@.staged.to_set().union(
                self@.files_to_dirty,
            ).union(self@.dirs_to_dirty).union(self@.paths_to_dirty),
            final(g)@.nodes == old(g)@.nodes,
            final(g)@.env == old(g)@.env,
            final(g)@.version == old(g)@.version,
            crate::icg::wf(old(g)@) ==> crate::icg::wf(final(g)@),
    {
        let ghost fv = self.files_to_dirty.deep_view();
        let ghost dv = self.dirs_to_dirty.deep_view();
        let ghost pv = self.paths_to_dirty.deep_view();
        let ghost staged0 = g@.staged;
        g.changed(self.files_to_dirty);
        g.changed(self.dirs_to_dirty);
        g.changed(self.paths_to_dirty);
        proof {
            assert(final(g)@.staged =~= staged0 + fv + dv + pv);
            assert(final(g)@.staged.to_set() =~= staged0.to_set().union(fv.to_set()).union(
                dv.to_set(),
            ).union(pv.to_set())) by {
                assert forall|x: KeyV| (staged0 + fv + dv + pv).to_set().contains(x) implies
                    staged0.to_set().union(fv.to_set()).union(dv.to_set()).union(
                    pv.to_set(),
                ).contains(x) by {
                    let s = staged0 + fv + dv + pv;
                    let i = choose|i: int| 0 <= i < s.len() && s[i] == x;
                    if i < staged0.len() {
                        assert(staged0[i] == x);
                    } else if i < staged0.len() + fv.len() {
                        assert(fv[i - staged0.len()] == x);
                    } else if i < staged0.len() + fv.len() + dv.len() {
                        assert(dv[i - staged0.len() - fv.len()] == x);
                    } else {
                        assert(pv[i - staged0.len() - fv.len() - dv.len()] == x);
                    }
                }
                assert forall|x: KeyV|
                    staged0.to_set().union(fv.to_set()).union(dv.to_set()).union(
                    pv.to_set(),
                ).contains(x) implies (staged0 + fv + dv + pv).to_set().contains(x) by {
                    let s = staged0 + fv + dv + pv;
                    if staged0.to_set().contains(x) {
                        let i = choose|i: int| 0 <= i < staged0.len() && staged0[i] == x;
                        assert(s[i] == x);
                    } else if fv.to_set().contains(x) {
                        let i = choose|i: int| 0 <= i < fv.len() && fv[i] == x;
                        assert(s[staged0.len() + i] == x);
                    } else if dv.to_set().contains(x) {
                        let i = choose|i: int| 0 <= i < dv.len() && dv[i] == x;
                        assert(s[staged0.len() + fv.len() + i] == x);
                    } else {
                        let i = choose|i: int| 0 <= i < pv.len() && pv[i] == x;
                        assert(s[staged0.len() + fv.len() + dv.len() + i] == x);
                    }
                }
            }
        }
    }
}

// ---------------------------------------------------------------------
// Invalidation minimality
// ---------------------------------------------------------------------

/// Two snapshots that differ only in the byte content of the file
/// stored at `proj`: same paths, same entry kinds, equal entries
/// everywhere else.
pub open spec fn fs_differs_only_content(
    fs1: Seq<FsNodeV>,
    fs2: Seq<FsNodeV>,
    proj: Seq<Seq<u8>>,
) -> bool {
    &&& fs1.len() == fs2.len()
    &&& forall|i: int| 0 <= i < fs1.len() ==> (#[trigger] fs2[i]).path == (#[trigger] fs1[i]).path
    &&& forall|i: int|
        0 <= i < fs1.len() ==> (fs1[i].path == proj ==> (#[trigger] fs1[i]).entry is File && (
        #[trigger] fs2[i]).entry is File)
    &&& forall|i: int|
        0 <= i < fs1.len() ==> (fs1[i].path != proj ==> (#[trigger] fs2[i]).entry == (
        #[trigger] fs1[i]).entry)
}

proof fn lemma_lookup_unchanged(fs1: Seq<FsNodeV>, fs2: Seq<FsNodeV>, proj: Seq<Seq<u8>>, q: Seq<
    Seq<u8>,
>)
    requires
        fs_differs_only_content(fs1, fs2, proj),
        q != proj,
    ensures
        crate::fs::spec_fs_lookup(fs1, q) == crate::fs::spec_fs_lookup(fs2, q),
    decreases fs1.len(),
{
    if fs1.len() > 0 {
        assert(fs2[0].path == fs1[0].path);
        if fs1[0].path != q {
            assert forall|i: int| 0 <= i < fs1.drop_first().len() implies (
            #[trigger] fs2.drop_first()[i]).path == (#[trigger] fs1.drop_first()[i]).path && (
            fs1.drop_first()[i].path == proj ==> fs1.drop_first()[i].entry is File
                && fs2.drop_first()[i].entry is File) && (fs1.drop_first()[i].path != proj
                ==> fs2.drop_first()[i].entry == fs1.drop_first()[i].entry) by {
                assert(fs1.drop_first()[i] == fs1[i + 1]);
                assert(fs2.drop_first()[i] == fs2[i + 1]);
            }
            lemma_lookup_unchanged(fs1.drop_first(), fs2.drop_first(), proj, q);
        } else {
            assert(fs1[0].entry == fs2[0].entry);
        }
    }
}

proof fn lemma_is_dir_unchanged(fs1: Seq<FsNodeV>, fs2: Seq<FsNodeV>, proj: Seq<Seq<u8>>, q: Seq<
    Seq<u8>,
>)
    requires
        fs_differs_only_content(fs1, fs2, proj),
    ensures
        crate::fs::spec_fs_is_dir(fs1, q) == crate::fs::spec_fs_is_dir(fs2, q),
    decreases fs1.len(),
{
    if q != proj {
        lemma_lookup_unchanged(fs1, fs2, proj, q);
    } else {
        if fs1.len() > 0 {
            assert(fs2[0].path == fs1[0].path);
            if fs1[0].path == q {
                assert(fs1[0].entry is File && fs2[0].entry is File);
            } else {
                assert forall|i: int| 0 <= i < fs1.drop_first().len() implies (
                #[trigger] fs2.drop_first()[i]).path == (#[trigger] fs1.drop_first()[i]).path && (
                fs1.drop_first()[i].path == proj ==> fs1.drop_first()[i].entry is File
                    && fs2.drop_first()[i].entry is File) && (fs1.drop_first()[i].path != proj
                    ==> fs2.drop_first()[i].entry == fs1.drop_first()[i].entry) by {
                    assert(fs1.drop_first()[i] == fs1[i + 1]);
                    assert(fs2.drop_first()[i] == fs2[i + 1]);
                }
                lemma_is_dir_unchanged(fs1.drop_first(), fs2.drop_first(), proj, q);
            }
        }
    }
}

proof fn lemma_listing_unchanged(fs1: Seq<FsNodeV>, fs2: Seq<FsNodeV>, proj: Seq<Seq<u8>>, dir: Seq<
    Seq<u8>,
>)
    requires
        fs_differs_only_content(fs1, fs2, proj),
    ensures
        crate::fileops::spec_raw_listing(fs1, dir) == crate::fileops::spec_raw_listing(fs2, dir),
    decreases fs1.len(),
{
    if fs1.len() > 0 {
        assert forall|i: int| 0 <= i < fs1.drop_last().len() implies (
        #[trigger] fs2.drop_last()[i]).path == (#[trigger] fs1.drop_last()[i]).path && (
        fs1.drop_last()[i].path == proj ==> fs1.drop_last()[i].entry is File && fs2.drop_last()[
            i
        ].entry is File) && (fs1.drop_last()[i].path != proj ==> fs2.drop_last()[i].entry
            == fs1.drop_last()[i].entry) by {
            assert(fs1.drop_last()[i] == fs1[i]);
            assert(fs2.drop_last()[i] == fs2[i]);
        }
        lemma_listing_unchanged(fs1.drop_last(), fs2.drop_last(), proj, dir);
        let n1 = fs1.last();
        let n2 = fs2.last();
        assert(n1 == fs1[fs1.len() - 1]);
        assert(n2 == fs2[fs1.len() - 1]);
        assert(n1.path == n2.path);
        assert(crate::fs::spec_entry_file_type(n1.entry) == crate::fs::spec_entry_file_type(
            n2.entry,
        ));
    }
}

/// Invalidation minimality. Changing the byte content of the file at
/// cell path `p` — in place, without touching any other entry —
/// changes the direct value of no key other than the file key and the
/// metadata key of `p`: those two are exactly what the tracker
/// dirties for a content change. The path `p` must be the canonical
/// cell path of the modified file, the one its project path resolves
/// back to.
pub proof fn lemma_invalidation_minimal(
    env1: EngineEnvV,
    env2: EngineEnvV,
    p: CellPathV,
    proj: Seq<Seq<u8>>,
    k: KeyV,
)
    requires
        env2.cells == env1.cells,
        env2.ignores == env1.ignores,
        env2.cfg == env1.cfg,
        crate::paths::spec_resolve(env1.cells, p) == Option::Some(proj),
        fs_differs_only_content(env1.fs, env2.fs, proj),
        forall|q: CellPathV|
            crate::paths::spec_resolve(env1.cells, q) == Option::Some(proj) ==> q == p,
        k != (KeyV::ReadFile { path: p }),
        k != (KeyV::PathMetadata { path: p }),
    ensures
        spec_eval(env2, k) == spec_eval(env1, k),
{
    lemma_invalidation_minimal_inner(env1, env2, p, proj, k)
}

proof fn lemma_invalidation_minimal_inner(
    env1: EngineEnvV,
    env2: EngineEnvV,
    p: CellPathV,
    proj: Seq<Seq<u8>>,
    k: KeyV,
)
    requires
        env2.cells == env1.cells,
        env2.ignores == env1.ignores,
        env2.cfg == env1.cfg,
        crate::paths::spec_resolve(env1.cells, p) == Option::Some(proj),
        fs_differs_only_content(env1.fs, env2.fs, proj),
        forall|q: CellPathV|
            crate::paths::spec_resolve(env1.cells, q) == Option::Some(proj) ==> q == p,
        k != (KeyV::ReadFile { path: p }),
        k != (KeyV::PathMetadata { path: p }),
    ensures
        spec_eval(env2, k) == spec_eval(env1, k),
{
    match k {
        KeyV::ReadFile { path } => {},
        KeyV::FileOps => {},
        KeyV::GetCfgConstructor => {},
        KeyV::CfgInvocation { data } => {},
        KeyV::ReadDir { path } => {
            match crate::paths::spec_resolve(env1.cells, path) {
                Option::None => {},
                Option::Some(d) => {
                    lemma_is_dir_unchanged(env1.fs, env2.fs, proj, d);
                    lemma_listing_unchanged(env1.fs, env2.fs, proj, d);
                },
            }
        },
        KeyV::PathMetadata { path } => {
            match crate::paths::spec_resolve(env1.cells, path) {
                Option::None => {},
                Option::Some(d) => {
                    if d == proj {
                        assert(path == p);
                        assert(false);
                    } else {
                        lemma_lookup_unchanged(env1.fs, env2.fs, proj, d);
                    }
                },
            }
        },
    }
}

/// A content change whose file and metadata keys are both staged
/// discharges the commit's obligation: every key left unstaged keeps
/// its direct value under the new environment. The sets the tracker
/// stages for a content change are exactly these two keys.
pub proof fn lemma_content_change_commit_frame(
    env1: EngineEnvV,
    env2: EngineEnvV,
    p: CellPathV,
    proj: Seq<Seq<u8>>,
    staged: Seq<KeyV>,
)
    requires
        env2.cells == env1.cells,
        env2.ignores == env1.ignores,
        env2.cfg == env1.cfg,
        crate::paths::spec_resolve(env1.cells, p) == Option::Some(proj),
        fs_differs_only_content(env1.fs, env2.fs, proj),
        forall|q: CellPathV|
            crate::paths::spec_resolve(env1.cells, q) == Option::Some(proj) ==> q == p,
        staged.contains(KeyV::ReadFile { path: p }),
        staged.contains(KeyV::PathMetadata { path: p }),
    ensures
        forall|k2: KeyV| !staged.contains(k2) ==> spec_eval(env2, k2) == spec_eval(env1, k2),
{
    assert forall|k2: KeyV| !staged.contains(k2) implies spec_eval(env2, k2) == spec_eval(
        env1,
        k2,
    ) by {
        lemma_invalidation_minimal_inner(env1, env2, p, proj, k2);
    }
}

/// Applies one in-place content change end to end: stages exactly the
/// file and metadata keys of the path, and commits the new snapshot.
/// The tracker's sets discharge the commit's obligation — every
/// unstaged key keeps its direct value — which is the invalidation
/// minimality of a content change, carried out.
pub fn commit_content_change(g: &mut VersionedGraph, path: &CellPath, new_env: crate::icg::EngineEnv)
    requires
        crate::icg::wf(old(g)@),
        old(g)@.version < 0xffff_ffff_ffff_ffffu64,
        old(g)@.staged.len() == 0,
        new_env@.cells == old(g)@.env.cells,
        new_env@.ignores == old(g)@.env.ignores,
        new_env@.cfg == old(g)@.env.cfg,
        crate::paths::spec_resolve(old(g)@.env.cells, path@) is Some,
        fs_differs_only_content(
            old(g)@.env.fs,
            new_env@.fs,
            crate::paths::spec_resolve(old(g)@.env.cells, path@).unwrap(),
        ),
        forall|q: CellPathV|
            #[trigger] crate::paths::spec_resolve(old(g)@.env.cells, q)
                == crate::paths::spec_resolve(old(g)@.env.cells, path@) ==> q == path@,
    ensures
        crate::icg::wf(final(g)@),
        final(g)@.version == old(g)@.version + 1,
        final(g)@.env == new_env@,
        final(g)@.staged.len() == 0,
{
    let ghost env1 = g@.env;
    let ghost proj = crate::paths::spec_resolve(env1.cells, path@).unwrap();
    let mut tracker = FileChangeTracker::new();
    tracker.file_changed(path.clone());
    let ghost files = tracker@.files_to_dirty;
    let ghost paths = tracker@.paths_to_dirty;
    tracker.write_to_dice(g);
    proof {
        let staged = g@.staged;
        assert(files.contains(KeyV::ReadFile { path: path@ }));
        assert(paths.contains(KeyV::PathMetadata { path: path@ }));
        assert(staged.to_set().contains(KeyV::ReadFile { path: path@ }));
        assert(staged.to_set().contains(KeyV::PathMetadata { path: path@ }));
        assert(staged.contains(KeyV::ReadFile { path: path@ }));
        assert(staged.contains(KeyV::PathMetadata { path: path@ }));
        lemma_content_change_commit_frame(env1, new_env@, path@, proj, staged);
    }
    g.commit(new_env);
}

} // verus!
