//! An observed snapshot of the project's file tree.
//!
//! The raw io layer is modelled as a snapshot value: a table from
//! project-relative paths to file-tree entries. The engine computes
//! against the snapshot pinned in the current version; filesystem
//! mutations become a new snapshot plus an invalidation set.

use vstd::prelude::*;

use crate::bytes::bytes_clone;
use crate::paths::ProjectPath;

verus! {

/// The kind of a directory entry.
#[derive(Clone, Copy, Debug, PartialEq, Eq, Structural, Hash)]
pub enum FileType {
    File,
    Dir,
    Symlink,
}

/// Mathematical image of an `FsEntry`.
#[verifier::ext_equal]
pub enum FsEntryV {
    File { content: Seq<u8> },
    Dir,
    Symlink { target: Seq<Seq<u8>> },
}

/// One entry of the file tree: a file with its bytes, a directory, or
/// a symbolic link with its target path.
#[derive(Debug)]
pub enum FsEntry {
    File { content: Vec<u8> },
    Dir,
    Symlink { target: ProjectPath },
}

impl View for FsEntry {
    type V = FsEntryV;

    open spec fn view(&self) -> FsEntryV {
        match self {
            FsEntry::File { content } => FsEntryV::File { content: content@ },
            FsEntry::Dir => FsEntryV::Dir,
            FsEntry::Symlink { target } => FsEntryV::Symlink { target: target@.comps },
        }
    }
}

/// Mathematical image of an `FsNode`.
#[verifier::ext_equal]
pub struct FsNodeV {
    pub path: Seq<Seq<u8>>,
    pub entry: FsEntryV,
}

/// One named node of the snapshot.
#[derive(Debug)]
pub struct FsNode {
    pub path: ProjectPath,
    pub entry: FsEntry,
}

impl View for FsNode {
    type V = FsNodeV;

    open spec fn view(&self) -> FsNodeV {
        FsNodeV { path: self.path@.comps, entry: self.entry@ }
    }
}

impl DeepView for FsNode {
    type V = FsNodeV;

    open spec fn deep_view(&self) -> FsNodeV {
        self@
    }
}

/// A snapshot of the project tree. The project root itself is a
/// directory and is not listed.
#[derive(Debug)]
pub struct FsSnapshot {
    pub nodes: Vec<FsNode>,
}

impl View for FsSnapshot {
    type V = Seq<FsNodeV>;

    open spec fn view(&self) -> Seq<FsNodeV> {
        self.nodes.deep_view()
    }
}

/// The deep view of a vector of snapshot nodes, elementwise.
pub proof fn lemma_nodes_deep_view(v: Vec<FsNode>)
    ensures
        v.deep_view().len() == v@.len(),
        forall|i: int| 0 <= i < v@.len() ==> v.deep_view()[i] == v@[i]@,
{
}

/// The entry stored for `path`: the first node with that path.
pub open spec fn spec_fs_lookup(fs: Seq<FsNodeV>, path: Seq<Seq<u8>>) -> Option<FsEntryV>
    decreases fs.len(),
{
    if fs.len() == 0 {
        Option::None
    } else if fs[0].path == path {
        Option::Some(fs[0].entry)
    } else {
        spec_fs_lookup(fs.drop_first(), path)
    }
}

/// Whether `path` names a directory of the snapshot; the project root
/// always does.
pub open spec fn spec_fs_is_dir(fs: Seq<FsNodeV>, path: Seq<Seq<u8>>) -> bool {
    path.len() == 0 || spec_fs_lookup(fs, path) == Option::Some(FsEntryV::Dir)
}

/// The digest recorded for file contents: a 64-bit
/// fold of the bytes, a stand-in for the content hash the real io
/// layer would report.
pub open spec fn spec_digest(content: Seq<u8>) -> u64
    decreases content.len(),
{
    if content.len() == 0 {
        0xcbf29ce484222325u64
    } else {
        (((spec_digest(content.drop_last()) ^ (content.last() as u64)) * 0x100000001b3u64) % 0x10000000000000000) as u64
    }
}

/// Computes the digest of a byte string.
pub fn digest(content: &Vec<u8>) -> (r: u64)
    ensures
        r == spec_digest(content@),
{
    let n: usize = content.len();
    let mut h: u64 = 0xcbf29ce484222325u64;
    let mut i: usize = 0;
    while i < n
        invariant
            n == content@.len(),
            0 <= i <= n,
            h == spec_digest(content@.take(i as int)),
        decreases n - i,
    {
        let b = content[i];
        h = (h ^ (b as u64)).wrapping_mul(0x100000001b3u64);
        proof {
            assert(content@.take(i + 1).drop_last() =~= content@.take(i as int));
            assert(content@.take(i + 1).last() == content@[i as int]);
        }
        i = i + 1;
    }
    proof {
        assert(content@.take(n as int) =~= content@);
    }
    h
}

/// The kind of the entry, as a directory listing reports it.
pub open spec fn spec_entry_file_type(e: FsEntryV) -> FileType {
    match e {
        FsEntryV::File { .. } => FileType::File,
        FsEntryV::Dir => FileType::Dir,
        FsEntryV::Symlink { .. } => FileType::Symlink,
    }
}

/// Project paths joined with `/`, as the raw layer renders a symlink's
/// target into file bytes.
pub open spec fn spec_render_path(comps: Seq<Seq<u8>>) -> Seq<u8>
    decreases comps.len(),
{
    if comps.len() == 0 {
        Seq::empty()
    } else if comps.len() == 1 {
        comps[0]
    } else {
        spec_render_path(comps.drop_last()) + seq![47u8] + comps.last()
    }
}

/// Renders a project path, components joined with `/`.
pub fn render_path(p: &ProjectPath) -> (r: Vec<u8>)
    ensures
        r@ == spec_render_path(p@.comps),
{
    let n: usize = p.comps.len();
    let mut r: Vec<u8> = Vec::new();
    let mut i: usize = 0;
    proof {
        crate::bytes::lemma_comps_deep_view(p.comps);
    }
    while i < n
        invariant
            n == p.comps@.len(),
            0 <= i <= n,
            p@.comps.len() == n,
            forall|j: int| 0 <= j < n ==> p@.comps[j] == p.comps@[j]@,
            r@ == spec_render_path(p@.comps.take(i as int)),
        decreases n - i,
    {
        if i > 0 {
            r.push(47u8);
        }
        let mut k: usize = 0;
        let ghost r0: Seq<u8> = r@;
        let m: usize = p.comps[i].len();
        while k < m
            invariant
                m == p.comps@[i as int]@.len(),
                i < n == p.comps@.len(),
                0 <= k <= m,
                r@ == r0 + p.comps@[i as int]@.take(k as int),
            decreases m - k,
        {
            let b = p.comps[i][k];
            r.push(b);
            proof {
                assert(p.comps@[i as int]@.take(k + 1) =~= p.comps@[i as int]@.take(
                    k as int,
                ).push(b));
                assert(r@ =~= r0 + p.comps@[i as int]@.take(k + 1));
            }
            k = k + 1;
        }
        proof {
            assert(p.comps@[i as int]@.take(m as int) =~= p.comps@[i as int]@);
            let t1 = p@.comps.take(i + 1);
            assert(t1.drop_last() =~= p@.comps.take(i as int));
            assert(t1.last() == p@.comps[i as int]);
            if i == 0 {
                assert(p@.comps.take(0).len() == 0);
                assert(r@ =~= spec_render_path(t1));
            } else {
                assert(r@ =~= spec_render_path(t1));
            }
        }
        i = i + 1;
    }
    proof {
        assert(p@.comps.take(n as int) =~= p@.comps);
    }
    r
}

/// What reading the file at `path` yields: file bytes verbatim, a
/// symlink's rendered target, nothing for a directory or an absent
/// path.
pub open spec fn spec_fs_read_file(fs: Seq<FsNodeV>, path: Seq<Seq<u8>>) -> Option<Seq<u8>> {
    match spec_fs_lookup(fs, path) {
        Option::Some(FsEntryV::File { content }) => Option::Some(content),
        Option::Some(FsEntryV::Symlink { target }) => Option::Some(spec_render_path(target)),
        _ => Option::None,
    }
}

impl FsSnapshot {
    /// Looks up the entry stored for `path`.
    pub fn lookup(&self, path: &ProjectPath) -> (r: Option<&FsEntry>)
        ensures
            r matches Option::Some(e) ==> spec_fs_lookup(self@, path@.comps) == Option::Some(e@),
            r is None <==> spec_fs_lookup(self@, path@.comps) is None,
    {
        let n: usize = self.nodes.len();
        let mut i: usize = 0;
        proof {
            lemma_nodes_deep_view(self.nodes);
            assert(self@.skip(0) =~= self@);
        }
        while i < n
            invariant
                n == self.nodes@.len(),
                self@.len() == n,
                forall|j: int| 0 <= j < n ==> self@[j] == self.nodes@[j]@,
                0 <= i <= n,
                spec_fs_lookup(self@, path@.comps) == spec_fs_lookup(
                    self@.skip(i as int),
                    path@.comps,
                ),
            decreases n - i,
        {
            proof {
                assert(self@.skip(i as int)[0] == self@[i as int]);
                assert(self@.skip(i as int).drop_first() =~= self@.skip(i + 1));
            }
            if crate::paths::comps_eq(&self.nodes[i].path.comps, &path.comps) {
                proof {
                    assert(self.nodes@[i as int]@.path == path@.comps);
                }
                return Option::Some(&self.nodes[i].entry);
            }
            i = i + 1;
        }
        proof {
            assert(self@.skip(n as int).len() == 0);
        }
        Option::None
    }

    /// Reads the file at `path`, as the raw io layer would: file bytes
    /// verbatim, a symlink's rendered target, nothing otherwise.
    pub fn read_file_if_exists(&self, path: &ProjectPath) -> (r: Option<Vec<u8>>)
        ensures
            r matches Option::Some(c) ==> spec_fs_read_file(self@, path@.comps) == Option::Some(
                c@,
            ),
            r is None <==> spec_fs_read_file(self@, path@.comps) is None,
    {
        match self.lookup(path) {
            Option::Some(e) => match e {
                FsEntry::File { content } => Option::Some(bytes_clone(content)),
                FsEntry::Symlink { target } => Option::Some(render_path(target)),
                FsEntry::Dir => Option::None,
            },
            Option::None => Option::None,
        }
    }
}

} // verus!
