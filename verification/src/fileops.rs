//! Cell-aware file operations.
//!
//! The raw snapshot knows only project-relative paths. The delegate
//! defined here owns a `CellResolver` and per-cell ignore patterns;
//! it translates cell paths, refuses reads of ignored directories,
//! sorts and filters directory listings, and maps symlink metadata
//! back into cell paths.

use vstd::prelude::*;

use crate::bytes::bytes_clone;
use crate::bytes::bytes_eq;
use crate::bytes::comps_clone;
use vstd::multiset::Multiset;
use crate::bytes::lex_le;
use crate::fs::FileType;
use crate::fs::FsSnapshot;
use crate::fs::FsNodeV;
use crate::paths::CellEntryV;
use crate::paths::CellPath;
use crate::paths::CellPathV;
use crate::paths::CellResolver;
use crate::paths::ProjectPath;
use crate::paths::ProjectPathV;

verus! {

// ---------------------------------------------------------------------
// Directory entries
// ---------------------------------------------------------------------

/// Mathematical image of a directory entry.
#[verifier::ext_equal]
pub struct DirEntryV {
    pub file_name: Seq<u8>,
    pub file_type: FileType,
}

/// An entry as the raw layer lists it: not yet validated or filtered.
#[derive(Debug)]
pub struct RawDirEntry {
    pub file_name: Vec<u8>,
    pub file_type: FileType,
}

impl View for RawDirEntry {
    type V = DirEntryV;

    open spec fn view(&self) -> DirEntryV {
        DirEntryV { file_name: self.file_name@, file_type: self.file_type }
    }
}

impl DeepView for RawDirEntry {
    type V = DirEntryV;

    open spec fn deep_view(&self) -> DirEntryV {
        self@
    }
}

/// An entry of a filtered, sorted listing; its name has been checked.
#[derive(Debug)]
pub struct SimpleDirEntry {
    pub file_name: Vec<u8>,
    pub file_type: FileType,
}

impl View for SimpleDirEntry {
    type V = DirEntryV;

    open spec fn view(&self) -> DirEntryV {
        DirEntryV { file_name: self.file_name@, file_type: self.file_type }
    }
}

impl DeepView for SimpleDirEntry {
    type V = DirEntryV;

    open spec fn deep_view(&self) -> DirEntryV {
        self@
    }
}

/// The deep view of a vector of listing entries, elementwise.
pub proof fn lemma_simple_entries_deep_view(v: Vec<SimpleDirEntry>)
    ensures
        v.deep_view().len() == v@.len(),
        forall|i: int| 0 <= i < v@.len() ==> v.deep_view()[i] == v@[i]@,
{
}

/// The deep view of a vector of raw entries, elementwise.
pub proof fn lemma_raw_entries_deep_view(v: Vec<RawDirEntry>)
    ensures
        v.deep_view().len() == v@.len(),
        forall|i: int| 0 <= i < v@.len() ==> v.deep_view()[i] == v@[i]@,
{
}

/// An ordered, filtered directory listing. Two outputs are equal iff
/// their entry sequences are equal elementwise.
#[derive(Debug)]
pub struct ReadDirOutput {
    pub included: Vec<SimpleDirEntry>,
}

impl View for ReadDirOutput {
    type V = Seq<DirEntryV>;

    open spec fn view(&self) -> Seq<DirEntryV> {
        self.included.deep_view()
    }
}

// ---------------------------------------------------------------------
// Ordering of listings
// ---------------------------------------------------------------------

/// Tie-break rank for entry kinds with equal names.
pub open spec fn ft_rank(t: FileType) -> int {
    match t {
        FileType::File => 0,
        FileType::Dir => 1,
        FileType::Symlink => 2,
    }
}

/// The listing order: lexicographic by file name, with a fixed
/// tie-break on the entry kind.
pub open spec fn entry_le(a: DirEntryV, b: DirEntryV) -> bool {
    if a.file_name == b.file_name {
        ft_rank(a.file_type) <= ft_rank(b.file_type)
    } else {
        lex_le(a.file_name, b.file_name)
    }
}

/// The listing order is a total order, in the sense used by
/// `Seq::sort_by`.
pub proof fn lemma_entry_le_total_ordering()
    ensures
        vstd::relations::total_ordering(|a: DirEntryV, b: DirEntryV| entry_le(a, b)),
{
    let leq = |a: DirEntryV, b: DirEntryV| entry_le(a, b);
    assert forall|a: DirEntryV| #[trigger] leq(a, a) by {
        crate::bytes::lemma_lex_le_refl(a.file_name);
    }
    assert forall|a: DirEntryV, b: DirEntryV| #[trigger] leq(a, b) && #[trigger] leq(b, a)
        implies a == b by {
        if a.file_name == b.file_name {
            assert(a =~= b);
        } else {
            crate::bytes::lemma_lex_le_antisymmetric(a.file_name, b.file_name);
        }
    }
    assert forall|a: DirEntryV, b: DirEntryV, c: DirEntryV|
        #[trigger] leq(a, b) && #[trigger] leq(b, c) implies leq(a, c) by {
        if a.file_name != b.file_name && b.file_name != c.file_name {
            crate::bytes::lemma_lex_le_transitive(a.file_name, b.file_name, c.file_name);
            if a.file_name == c.file_name {
                crate::bytes::lemma_lex_le_antisymmetric(a.file_name, b.file_name);
            }
        }
    }
    assert forall|a: DirEntryV, b: DirEntryV| #[trigger] leq(a, b) || #[trigger] leq(b, a) by {
        crate::bytes::lemma_lex_le_total(a.file_name, b.file_name);
    }
}

// ---------------------------------------------------------------------
// Ignore patterns
// ---------------------------------------------------------------------

/// Mathematical image of a pattern component.
pub enum PatCompV {
    Lit { name: Seq<u8> },
    Star,
    DoubleStar,
}

/// One component of an ignore pattern: a literal name, `*` for one
/// component, or `**` for any number of components.
#[derive(Debug)]
pub enum PatComp {
    Lit { name: Vec<u8> },
    Star,
    DoubleStar,
}

impl View for PatComp {
    type V = PatCompV;

    open spec fn view(&self) -> PatCompV {
        match self {
            PatComp::Lit { name } => PatCompV::Lit { name: name@ },
            PatComp::Star => PatCompV::Star,
            PatComp::DoubleStar => PatCompV::DoubleStar,
        }
    }
}

impl DeepView for PatComp {
    type V = PatCompV;

    open spec fn deep_view(&self) -> PatCompV {
        self@
    }
}

/// A glob over path components.
#[derive(Debug)]
pub struct IgnorePattern {
    pub comps: Vec<PatComp>,
}

impl View for IgnorePattern {
    type V = Seq<PatCompV>;

    open spec fn view(&self) -> Seq<PatCompV> {
        self.comps.deep_view()
    }
}

impl DeepView for IgnorePattern {
    type V = Seq<PatCompV>;

    open spec fn deep_view(&self) -> Seq<PatCompV> {
        self@
    }
}

/// The deep view of a pattern, elementwise.
pub proof fn lemma_pattern_deep_view(v: Vec<PatComp>)
    ensures
        v.deep_view().len() == v@.len(),
        forall|i: int| 0 <= i < v@.len() ==> v.deep_view()[i] == v@[i]@,
{
}

/// Whether the glob matches the whole component sequence.
pub open spec fn glob_match(pat: Seq<PatCompV>, path: Seq<Seq<u8>>) -> bool
    decreases pat.len(), path.len(),
{
    if pat.len() == 0 {
        path.len() == 0
    } else {
        match pat[0] {
            PatCompV::Lit { name } => path.len() > 0 && path[0] == name && glob_match(
                pat.drop_first(),
                path.drop_first(),
            ),
            PatCompV::Star => path.len() > 0 && glob_match(pat.drop_first(), path.drop_first()),
            PatCompV::DoubleStar => glob_match(pat.drop_first(), path) || (path.len() > 0
                && glob_match(pat, path.drop_first())),
        }
    }
}

/// Whether some pattern matches some prefix of the path: an ignored
/// directory shadows everything below it.
pub open spec fn spec_is_ignored(patterns: Seq<Seq<PatCompV>>, rel: Seq<Seq<u8>>) -> bool {
    exists|pi: int, k: int|
        0 <= pi < patterns.len() && 0 <= k <= rel.len() && glob_match(patterns[pi], rel.take(k))
}

/// Matches the glob suffix starting at `pi` against the path suffix
/// starting at `qi`.
fn glob_match_at(pat: &IgnorePattern, pi: usize, path: &Vec<Vec<u8>>, qi: usize) -> (r: bool)
    requires
        pi <= pat.comps@.len(),
        qi <= path@.len(),
    ensures
        r == glob_match(pat@.skip(pi as int), path.deep_view().skip(qi as int)),
    decreases pat.comps@.len() - pi, path@.len() - qi,
{
    proof {
        lemma_pattern_deep_view(pat.comps);
        crate::bytes::lemma_comps_deep_view(*path);
        assert(pat@.len() == pat.comps@.len());
        assert(path.deep_view().len() == path@.len());
    }
    let ghost sp = pat@.skip(pi as int);
    let ghost sq = path.deep_view().skip(qi as int);
    if pi == pat.comps.len() {
        proof {
            assert(sp.len() == 0);
            assert(sq.len() == path@.len() - qi);
        }
        return qi == path.len();
    }
    proof {
        assert(sp[0] == pat@[pi as int]);
        assert(sp.drop_first() =~= pat@.skip(pi + 1));
        if qi < path@.len() {
            assert(sq[0] == path.deep_view()[qi as int]);
            assert(sq.drop_first() =~= path.deep_view().skip(qi + 1));
        }
    }
    match &pat.comps[pi] {
        PatComp::Lit { name } => {
            if qi == path.len() {
                return false;
            }
            if !bytes_eq(name, &path[qi]) {
                return false;
            }
            glob_match_at(pat, pi + 1, path, qi + 1)
        },
        PatComp::Star => {
            if qi == path.len() {
                return false;
            }
            glob_match_at(pat, pi + 1, path, qi + 1)
        },
        PatComp::DoubleStar => {
            if glob_match_at(pat, pi + 1, path, qi) {
                return true;
            }
            if qi == path.len() {
                return false;
            }
            glob_match_at(pat, pi, path, qi + 1)
        },
    }
}

/// Whether any of the patterns matches any prefix of `rel`.
pub fn is_ignored_by(patterns: &Vec<IgnorePattern>, rel: &Vec<Vec<u8>>) -> (r: bool)
    ensures
        r == spec_is_ignored(patterns.deep_view(), rel.deep_view()),
{
    let np: usize = patterns.len();
    let nr: usize = rel.len();
    let mut pi: usize = 0;
    proof {
        crate::bytes::lemma_comps_deep_view(*rel);
    }
    while pi < np
        invariant
            np == patterns@.len(),
            nr == rel@.len(),
            patterns.deep_view().len() == np,
            rel.deep_view().len() == nr,
            0 <= pi <= np,
            forall|i: int, k: int|
                0 <= i < pi && 0 <= k <= nr ==> !glob_match(
                    patterns.deep_view()[i],
                    rel.deep_view().take(k),
                ),
        decreases np - pi,
    {
        // The whole path counts as a prefix of itself.
        proof {
            assert(rel.deep_view().skip(0) =~= rel.deep_view());
            assert(rel.deep_view().take(nr as int) =~= rel.deep_view());
            assert(patterns[pi as int]@ == patterns.deep_view()[pi as int]);
            assert(patterns[pi as int]@.skip(0) =~= patterns.deep_view()[pi as int]);
        }
        if glob_match_at(&patterns[pi], 0, rel, 0) {
            proof {
                assert(glob_match(
                    patterns.deep_view()[pi as int],
                    rel.deep_view().take(nr as int),
                ));
            }
            return true;
        }
        let mut k: usize = 0;
        while k < nr
            invariant
                np == patterns@.len(),
                nr == rel@.len(),
                patterns.deep_view().len() == np,
                rel.deep_view().len() == nr,
                0 <= pi < np,
                0 <= k <= nr,
                forall|i: int, kk: int|
                    0 <= i < pi && 0 <= kk <= nr ==> !glob_match(
                        patterns.deep_view()[i],
                        rel.deep_view().take(kk),
                    ),
                !glob_match(patterns.deep_view()[pi as int], rel.deep_view().take(nr as int)),
                forall|kk: int|
                    0 <= kk < k ==> !glob_match(
                        patterns.deep_view()[pi as int],
                        rel.deep_view().take(kk),
                    ),
            decreases nr - k,
        {
            // A proper prefix of the path is itself a whole component
            // sequence.
            let mut prefix: Vec<Vec<u8>> = Vec::new();
            let mut j: usize = 0;
            while j < k
                invariant
                    0 <= j <= k < nr,
                    nr == rel@.len(),
                    prefix@.len() == j,
                    forall|t: int| 0 <= t < j ==> prefix@[t]@ == rel@[t]@,
                decreases k - j,
            {
                prefix.push(bytes_clone(&rel[j]));
                j = j + 1;
            }
            proof {
                crate::bytes::lemma_comps_deep_view(prefix);
                crate::bytes::lemma_comps_deep_view(*rel);
                assert(prefix.deep_view() =~= rel.deep_view().take(k as int));
            }
            let m = glob_match_at(&patterns[pi], 0, &prefix, 0);
            proof {
                assert(patterns[pi as int]@ == patterns.deep_view()[pi as int]);
                assert(patterns[pi as int]@.skip(0) =~= patterns.deep_view()[pi as int]);
                assert(prefix.deep_view().skip(0) =~= prefix.deep_view());
            }
            if m {
                proof {
                    assert(glob_match(
                        patterns.deep_view()[pi as int],
                        rel.deep_view().take(k as int),
                    ));
                }
                return true;
            }
            k = k + 1;
        }
        proof {
            assert forall|kk: int| 0 <= kk <= nr implies !glob_match(
                patterns.deep_view()[pi as int],
                rel.deep_view().take(kk),
            ) by {
            }
        }
        pi = pi + 1;
    }
    false
}

// ---------------------------------------------------------------------
// Per-cell ignores
// ---------------------------------------------------------------------

/// Mathematical image of one cell's ignore set.
#[verifier::ext_equal]
pub struct CellIgnoreEntryV {
    pub cell: Seq<u8>,
    pub patterns: Seq<Seq<PatCompV>>,
}

/// The ignore patterns configured for one cell.
#[derive(Debug)]
pub struct CellIgnoreEntry {
    pub cell: Vec<u8>,
    pub patterns: Vec<IgnorePattern>,
}

impl View for CellIgnoreEntry {
    type V = CellIgnoreEntryV;

    open spec fn view(&self) -> CellIgnoreEntryV {
        CellIgnoreEntryV { cell: self.cell@, patterns: self.patterns.deep_view() }
    }
}

impl DeepView for CellIgnoreEntry {
    type V = CellIgnoreEntryV;

    open spec fn deep_view(&self) -> CellIgnoreEntryV {
        self@
    }
}

/// The ignore patterns of every cell.
#[derive(Debug)]
pub struct CellIgnores {
    pub cells: Vec<CellIgnoreEntry>,
}

impl View for CellIgnores {
    type V = Seq<CellIgnoreEntryV>;

    open spec fn view(&self) -> Seq<CellIgnoreEntryV> {
        self.cells.deep_view()
    }
}

impl Clone for PatComp {
    fn clone(&self) -> (r: Self)
        ensures
            r@ == self@,
    {
        match self {
            PatComp::Lit { name } => PatComp::Lit { name: bytes_clone(name) },
            PatComp::Star => PatComp::Star,
            PatComp::DoubleStar => PatComp::DoubleStar,
        }
    }
}

impl Clone for IgnorePattern {
    fn clone(&self) -> (r: Self)
        ensures
            r@ == self@,
    {
        let n: usize = self.comps.len();
        let mut comps: Vec<PatComp> = Vec::new();
        let mut i: usize = 0;
        while i < n
            invariant
                n == self.comps@.len(),
                0 <= i <= n,
                comps@.len() == i,
                forall|j: int| 0 <= j < i ==> comps@[j]@ == self.comps@[j]@,
            decreases n - i,
        {
            comps.push(self.comps[i].clone());
            i = i + 1;
        }
        let r = IgnorePattern { comps };
        proof {
            lemma_pattern_deep_view(r.comps);
            lemma_pattern_deep_view(self.comps);
            assert(r@ =~= self@);
        }
        r
    }
}

impl Clone for CellIgnoreEntry {
    fn clone(&self) -> (r: Self)
        ensures
            r@ == self@,
    {
        let n: usize = self.patterns.len();
        let mut patterns: Vec<IgnorePattern> = Vec::new();
        let mut i: usize = 0;
        while i < n
            invariant
                n == self.patterns@.len(),
                0 <= i <= n,
                patterns@.len() == i,
                forall|j: int| 0 <= j < i ==> patterns@[j]@ == self.patterns@[j]@,
            decreases n - i,
        {
            patterns.push(self.patterns[i].clone());
            i = i + 1;
        }
        let r = CellIgnoreEntry { cell: bytes_clone(&self.cell), patterns };
        proof {
            assert forall|j: int| 0 <= j < n implies r.patterns.deep_view()[j]
                == self.patterns.deep_view()[j] by {
                assert(r.patterns.deep_view()[j] == r.patterns@[j]@);
                assert(self.patterns.deep_view()[j] == self.patterns@[j]@);
            }
            assert(r.patterns.deep_view() =~= self.patterns.deep_view());
            assert(r@ =~= self@);
        }
        r
    }
}

impl Clone for CellIgnores {
    fn clone(&self) -> (r: Self)
        ensures
            r@ == self@,
    {
        let n: usize = self.cells.len();
        let mut cells: Vec<CellIgnoreEntry> = Vec::new();
        let mut i: usize = 0;
        while i < n
            invariant
                n == self.cells@.len(),
                0 <= i <= n,
                cells@.len() == i,
                forall|j: int| 0 <= j < i ==> cells@[j]@ == self.cells@[j]@,
            decreases n - i,
        {
            cells.push(self.cells[i].clone());
            i = i + 1;
        }
        let r = CellIgnores { cells };
        proof {
            assert forall|j: int| 0 <= j < n implies r.cells.deep_view()[j]
                == self.cells.deep_view()[j] by {
                assert(r.cells.deep_view()[j] == r.cells@[j]@);
                assert(self.cells.deep_view()[j] == self.cells@[j]@);
            }
            assert(r@ =~= self@);
        }
        r
    }
}

impl Clone for SimpleDirEntry {
    fn clone(&self) -> (r: Self)
        ensures
            r@ == self@,
    {
        let r = SimpleDirEntry {
            file_name: bytes_clone(&self.file_name),
            file_type: self.file_type,
        };
        proof {
            assert(r@ =~= self@);
        }
        r
    }
}

impl Clone for ReadDirOutput {
    fn clone(&self) -> (r: Self)
        ensures
            r@ == self@,
    {
        let n: usize = self.included.len();
        let mut included: Vec<SimpleDirEntry> = Vec::new();
        let mut i: usize = 0;
        while i < n
            invariant
                n == self.included@.len(),
                0 <= i <= n,
                included@.len() == i,
                forall|j: int| 0 <= j < i ==> included@[j]@ == self.included@[j]@,
            decreases n - i,
        {
            included.push(self.included[i].clone());
            i = i + 1;
        }
        let r = ReadDirOutput { included };
        proof {
            lemma_simple_entries_deep_view(r.included);
            lemma_simple_entries_deep_view(self.included);
            assert(r@ =~= self@);
        }
        r
    }
}

impl Clone for RawPathMetadata {
    fn clone(&self) -> (r: Self)
        ensures
            r@ == self@,
    {
        match self {
            RawPathMetadata::File { digest, size } => RawPathMetadata::File {
                digest: *digest,
                size: *size,
            },
            RawPathMetadata::Dir => RawPathMetadata::Dir,
            RawPathMetadata::Symlink { at, to } => RawPathMetadata::Symlink {
                at: at.clone(),
                to: to.clone(),
            },
        }
    }
}

impl Clone for FileOpsError {
    fn clone(&self) -> (r: Self)
        ensures
            r@ == self@,
    {
        match self {
            FileOpsError::ReadIgnoredDir { path } => FileOpsError::ReadIgnoredDir {
                path: path.clone(),
            },
            FileOpsError::FileNotFound { path } => FileOpsError::FileNotFound {
                path: path.clone(),
            },
            FileOpsError::NotADirectory { path } => FileOpsError::NotADirectory {
                path: path.clone(),
            },
            FileOpsError::UnknownCell { path } => FileOpsError::UnknownCell { path: path.clone() },
            FileOpsError::ForeignPath { path } => FileOpsError::ForeignPath {
                path: path.clone(),
            },
        }
    }
}

/// The patterns configured for `cell`: the first entry with that name,
/// or none.
pub open spec fn spec_cell_patterns(ign: Seq<CellIgnoreEntryV>, cell: Seq<u8>) -> Seq<
    Seq<PatCompV>,
>
    decreases ign.len(),
{
    if ign.len() == 0 {
        Seq::empty()
    } else if ign[0].cell == cell {
        ign[0].patterns
    } else {
        spec_cell_patterns(ign.drop_first(), cell)
    }
}

/// Whether the cell-relative path `rel` is ignored in `cell`.
pub open spec fn spec_check_ignored(
    ign: Seq<CellIgnoreEntryV>,
    cell: Seq<u8>,
    rel: Seq<Seq<u8>>,
) -> bool {
    spec_is_ignored(spec_cell_patterns(ign, cell), rel)
}

impl CellIgnores {
    /// Whether the cell-relative path `rel` is ignored in `cell`.
    pub fn check_ignored(&self, cell: &Vec<u8>, rel: &Vec<Vec<u8>>) -> (r: bool)
        ensures
            r == spec_check_ignored(self@, cell@, rel.deep_view()),
    {
        let n: usize = self.cells.len();
        let mut i: usize = 0;
        proof {
            assert(self@.skip(0) =~= self@);
        }
        while i < n
            invariant
                n == self.cells@.len(),
                self@.len() == n,
                forall|j: int| 0 <= j < n ==> self@[j] == self.cells@[j]@,
                0 <= i <= n,
                spec_cell_patterns(self@, cell@) == spec_cell_patterns(
                    self@.skip(i as int),
                    cell@,
                ),
            decreases n - i,
        {
            proof {
                assert(self@.skip(i as int)[0] == self@[i as int]);
                assert(self@.skip(i as int).drop_first() =~= self@.skip(i + 1));
            }
            if bytes_eq(&self.cells[i].cell, cell) {
                return is_ignored_by(&self.cells[i].patterns, rel);
            }
            i = i + 1;
        }
        proof {
            assert(self@.skip(n as int).len() == 0);
            assert(spec_cell_patterns(self@, cell@).len() == 0);
        }
        false
    }
}

// ---------------------------------------------------------------------
// Errors
// ---------------------------------------------------------------------

/// Mathematical image of a file-ops error.
#[verifier::ext_equal]
pub enum FileOpsErrorV {
    ReadIgnoredDir { path: CellPathV },
    FileNotFound { path: CellPathV },
    NotADirectory { path: CellPathV },
    UnknownCell { path: CellPathV },
    ForeignPath { path: ProjectPathV },
}

/// What a cell-aware file operation can fail with.
#[derive(Debug)]
pub enum FileOpsError {
    /// The directory itself is ignored in its cell.
    ReadIgnoredDir { path: CellPath },
    /// A required file does not exist.
    FileNotFound { path: CellPath },
    /// A directory listing was asked of something that is not a
    /// directory.
    NotADirectory { path: CellPath },
    /// The path names a cell the resolver does not know.
    UnknownCell { path: CellPath },
    /// A project path (a symlink target) lies under no known cell.
    ForeignPath { path: ProjectPath },
}

impl View for FileOpsError {
    type V = FileOpsErrorV;

    open spec fn view(&self) -> FileOpsErrorV {
        match self {
            FileOpsError::ReadIgnoredDir { path } => FileOpsErrorV::ReadIgnoredDir { path: path@ },
            FileOpsError::FileNotFound { path } => FileOpsErrorV::FileNotFound { path: path@ },
            FileOpsError::NotADirectory { path } => FileOpsErrorV::NotADirectory { path: path@ },
            FileOpsError::UnknownCell { path } => FileOpsErrorV::UnknownCell { path: path@ },
            FileOpsError::ForeignPath { path } => FileOpsErrorV::ForeignPath { path: path@ },
        }
    }
}

// ---------------------------------------------------------------------
// File names
// ---------------------------------------------------------------------

/// A well-formed file name: non-empty, not `.` or `..`, and free of
/// separators and NUL.
pub open spec fn spec_valid_file_name(name: Seq<u8>) -> bool {
    &&& name.len() > 0
    &&& name != seq![46u8]
    &&& name != seq![46u8, 46u8]
    &&& forall|i: int| 0 <= i < name.len() ==> name[i] != 47u8 && name[i] != 0u8
}

/// Checks that a listing entry's name is well-formed.
pub fn valid_file_name(name: &Vec<u8>) -> (r: bool)
    ensures
        r == spec_valid_file_name(name@),
{
    let n: usize = name.len();
    if n == 0 {
        return false;
    }
    if n == 1 && name[0] == 46u8 {
        proof {
            assert(name@ =~= seq![46u8]);
        }
        return false;
    }
    if n == 2 && name[0] == 46u8 && name[1] == 46u8 {
        proof {
            assert(name@ =~= seq![46u8, 46u8]);
        }
        return false;
    }
    let mut i: usize = 0;
    while i < n
        invariant
            n == name@.len(),
            0 <= i <= n,
            forall|j: int| 0 <= j < i ==> name@[j] != 47u8 && name@[j] != 0u8,
        decreases n - i,
    {
        let b = name[i];
        if b == 47u8 || b == 0u8 {
            return false;
        }
        i = i + 1;
    }
    proof {
        if name@.len() == 1 && name@ == seq![46u8] {
            assert(name@[0] == 46u8);
        }
        if name@.len() == 2 && name@ == seq![46u8, 46u8] {
            assert(name@[0] == 46u8 && name@[1] == 46u8);
        }
    }
    true
}

// ---------------------------------------------------------------------
// Mapping project paths back into cells
// ---------------------------------------------------------------------

/// Whether `a` is a prefix of `b`, componentwise.
pub open spec fn is_comps_prefix(a: Seq<Seq<u8>>, b: Seq<Seq<u8>>) -> bool {
    a.len() <= b.len() && forall|j: int| 0 <= j < a.len() ==> b[j] == a[j]
}

/// Checks whether `a` is a componentwise prefix of `b`.
pub fn comps_is_prefix(a: &Vec<Vec<u8>>, b: &Vec<Vec<u8>>) -> (r: bool)
    ensures
        r == is_comps_prefix(a.deep_view(), b.deep_view()),
{
    proof {
        crate::bytes::lemma_comps_deep_view(*a);
        crate::bytes::lemma_comps_deep_view(*b);
    }
    if a.len() > b.len() {
        return false;
    }
    let n: usize = a.len();
    let mut i: usize = 0;
    while i < n
        invariant
            n == a@.len(),
            n <= b@.len(),
            a.deep_view().len() == n,
            b.deep_view().len() == b@.len(),
            forall|j: int| 0 <= j < n ==> a.deep_view()[j] == a@[j]@,
            forall|j: int| 0 <= j < b@.len() ==> b.deep_view()[j] == b@[j]@,
            0 <= i <= n,
            forall|j: int| 0 <= j < i ==> b@[j]@ == a@[j]@,
        decreases n - i,
    {
        if !bytes_eq(&a[i], &b[i]) {
            proof {
                assert(b.deep_view()[i as int] != a.deep_view()[i as int]);
            }
            return false;
        }
        i = i + 1;
    }
    true
}

/// A best-matching cell's root is indeed a prefix of the path.
pub proof fn lemma_best_cell_prefix(cells: Seq<CellEntryV>, comps: Seq<Seq<u8>>)
    ensures
        spec_best_cell(cells, comps) matches Option::Some(e) ==> is_comps_prefix(e.root, comps),
    decreases cells.len(),
{
    if cells.len() > 0 {
        lemma_best_cell_prefix(cells.drop_last(), comps);
    }
}

/// The cell whose root is the longest prefix of `comps`: scanning the
/// resolver in order, a strictly longer root supersedes the best so
/// far.
pub open spec fn spec_best_cell(cells: Seq<CellEntryV>, comps: Seq<Seq<u8>>) -> Option<CellEntryV>
    decreases cells.len(),
{
    if cells.len() == 0 {
        Option::None
    } else {
        let prev = spec_best_cell(cells.drop_last(), comps);
        let e = cells.last();
        if is_comps_prefix(e.root, comps) {
            match prev {
                Option::None => Option::Some(e),
                Option::Some(b) => if e.root.len() > b.root.len() {
                    Option::Some(e)
                } else {
                    Option::Some(b)
                },
            }
        } else {
            prev
        }
    }
}

/// The cell path of a project path: the best-matching cell's name,
/// plus the components below that cell's root.
pub open spec fn spec_get_cell_path(cells: Seq<CellEntryV>, comps: Seq<Seq<u8>>) -> Option<
    CellPathV,
> {
    match spec_best_cell(cells, comps) {
        Option::None => Option::None,
        Option::Some(e) => Option::Some(
            CellPathV { cell: e.name, comps: comps.skip(e.root.len() as int) },
        ),
    }
}

impl CellResolver {
    /// Maps a project path back to a cell path, through the cell with
    /// the longest matching root.
    pub fn get_cell_path(&self, p: &ProjectPath) -> (r: Option<CellPath>)
        ensures
            r matches Option::Some(q) ==> spec_get_cell_path(self@, p@.comps) == Option::Some(q@),
            r is None <==> spec_get_cell_path(self@, p@.comps) is None,
    {
        let n: usize = self.cells.len();
        let mut best: Option<usize> = Option::None;
        let mut i: usize = 0;
        proof {
            crate::paths::lemma_entries_deep_view(self.cells);
            assert(self@.take(0).len() == 0);
        }
        while i < n
            invariant
                n == self.cells@.len(),
                self@.len() == n,
                forall|j: int| 0 <= j < n ==> self@[j] == self.cells@[j]@,
                0 <= i <= n,
                match best {
                    Option::None => spec_best_cell(self@.take(i as int), p@.comps) is None,
                    Option::Some(bi) => bi < i && spec_best_cell(self@.take(i as int), p@.comps)
                        == Option::Some(self@[bi as int]),
                },
            decreases n - i,
        {
            proof {
                assert(self@.take(i + 1).drop_last() =~= self@.take(i as int));
                assert(self@.take(i + 1).last() == self@[i as int]);
            }
            if comps_is_prefix(&self.cells[i].root.comps, &p.comps) {
                proof {
                    assert(self.cells@[i as int].root@.comps == self.cells@[
                        i as int
                    ].root.comps.deep_view());
                    assert(is_comps_prefix(self@[i as int].root, p@.comps));
                }
                match best {
                    Option::None => {
                        best = Option::Some(i);
                    },
                    Option::Some(bi) => {
                        if self.cells[i].root.comps.len() > self.cells[bi].root.comps.len() {
                            best = Option::Some(i);
                        }
                    },
                }
            } else {
                proof {
                    assert(!is_comps_prefix(self@[i as int].root, p@.comps));
                }
            }
            i = i + 1;
        }
        proof {
            assert(self@.take(n as int) =~= self@);
        }
        match best {
            Option::None => Option::None,
            Option::Some(bi) => {
                let rl: usize = self.cells[bi].root.comps.len();
                let ghost e = self@[bi as int];
                proof {
                    assert(self.cells@[bi as int].root@.comps == self.cells@[
                        bi as int
                    ].root.comps.deep_view());
                    crate::bytes::lemma_comps_deep_view(self.cells@[bi as int].root.comps);
                    assert(rl == e.root.len());
                    lemma_best_cell_prefix(self@, p@.comps);
                    crate::bytes::lemma_comps_deep_view(p.comps);
                }
                let m: usize = p.comps.len();
                let mut comps: Vec<Vec<u8>> = Vec::new();
                let mut k: usize = rl;
                proof {
                    assert(rl <= m);
                }
                while k < m
                    invariant
                        rl <= k <= m,
                        m == p.comps@.len(),
                        p@.comps.len() == m,
                        forall|j: int| 0 <= j < m ==> p@.comps[j] == p.comps@[j]@,
                        comps@.len() == k - rl,
                        forall|j: int| 0 <= j < k - rl ==> comps@[j]@ == p@.comps[rl + j],
                    decreases m - k,
                {
                    comps.push(bytes_clone(&p.comps[k]));
                    k = k + 1;
                }
                let q = CellPath { cell: bytes_clone(&self.cells[bi].name), comps };
                proof {
                    crate::bytes::lemma_comps_deep_view(q.comps);
                    assert(q@.comps =~= p@.comps.skip(rl as int));
                    assert(q@ =~= CellPathV { cell: e.name, comps: p@.comps.skip(e.root.len() as int) });
                }
                Option::Some(q)
            },
        }
    }
}

// ---------------------------------------------------------------------
// Path metadata
// ---------------------------------------------------------------------

/// Mathematical image of path metadata.
#[verifier::ext_equal]
pub enum RawPathMetadataV {
    File { digest: u64, size: u64 },
    Dir,
    Symlink { at: CellPathV, to: CellPathV },
}

/// What a metadata read reports for a path: a file with its digest and
/// size, a directory, or a symlink with its own location and its
/// resolved target, both as cell paths.
#[derive(Debug)]
pub enum RawPathMetadata {
    File { digest: u64, size: u64 },
    Dir,
    Symlink { at: CellPath, to: CellPath },
}

impl View for RawPathMetadata {
    type V = RawPathMetadataV;

    open spec fn view(&self) -> RawPathMetadataV {
        match self {
            RawPathMetadata::File { digest, size } => RawPathMetadataV::File {
                digest: *digest,
                size: *size,
            },
            RawPathMetadata::Dir => RawPathMetadataV::Dir,
            RawPathMetadata::Symlink { at, to } => RawPathMetadataV::Symlink { at: at@, to: to@ },
        }
    }
}

impl RawPathMetadata {
    /// Whether two metadata values agree, structurally.
    pub fn meta_eq(&self, other: &RawPathMetadata) -> (r: bool)
        ensures
            r == (self@ == other@),
    {
        match (self, other) {
            (
                RawPathMetadata::File { digest: d1, size: s1 },
                RawPathMetadata::File { digest: d2, size: s2 },
            ) => *d1 == *d2 && *s1 == *s2,
            (RawPathMetadata::Dir, RawPathMetadata::Dir) => true,
            (
                RawPathMetadata::Symlink { at: a1, to: t1 },
                RawPathMetadata::Symlink { at: a2, to: t2 },
            ) => {
                let r = a1.path_eq(a2) && t1.path_eq(t2);
                proof {
                    if r {
                        assert(self@ =~= other@);
                    }
                }
                r
            },
            _ => false,
        }
    }
}

/// What a metadata read of `p` yields under resolver `cells` and
/// snapshot `fs`.
pub open spec fn spec_metadata_delegate(
    cells: Seq<CellEntryV>,
    fs: Seq<FsNodeV>,
    p: CellPathV,
) -> Result<Option<RawPathMetadataV>, FileOpsErrorV> {
    match crate::paths::spec_resolve(cells, p) {
        Option::None => Result::Err(FileOpsErrorV::UnknownCell { path: p }),
        Option::Some(proj) => match crate::fs::spec_fs_lookup(fs, proj) {
            Option::None => Result::Ok(Option::None),
            Option::Some(crate::fs::FsEntryV::File { content }) => Result::Ok(
                Option::Some(
                    RawPathMetadataV::File {
                        digest: crate::fs::spec_digest(content),
                        size: content.len() as u64,
                    },
                ),
            ),
            Option::Some(crate::fs::FsEntryV::Dir) => Result::Ok(
                Option::Some(RawPathMetadataV::Dir),
            ),
            Option::Some(crate::fs::FsEntryV::Symlink { target }) => match spec_get_cell_path(
                cells,
                target,
            ) {
                Option::None => Result::Err(
                    FileOpsErrorV::ForeignPath { path: ProjectPathV { comps: target } },
                ),
                Option::Some(to) => Result::Ok(
                    Option::Some(RawPathMetadataV::Symlink { at: p, to }),
                ),
            },
        },
    }
}

/// Reads path metadata through the cell-aware delegate: resolves the
/// cell path, consults the snapshot, and maps a symlink's paths back
/// into cells.
pub fn metadata_delegate(
    cells: &CellResolver,
    fs: &FsSnapshot,
    p: &CellPath,
) -> (r: Result<Option<RawPathMetadata>, FileOpsError>)
    ensures
        (match r {
            Result::Ok(Option::Some(m)) => spec_metadata_delegate(cells@, fs@, p@)
                == Result::<Option<RawPathMetadataV>, FileOpsErrorV>::Ok(Option::Some(m@)),
            Result::Ok(Option::None) => spec_metadata_delegate(cells@, fs@, p@)
                == Result::<Option<RawPathMetadataV>, FileOpsErrorV>::Ok(
                Option::<RawPathMetadataV>::None,
            ),
            Result::Err(e) => spec_metadata_delegate(cells@, fs@, p@) == Result::<
                Option<RawPathMetadataV>,
                FileOpsErrorV,
            >::Err(e@),
        }),
{
    let proj = match cells.resolve(p) {
        Option::None => {
            return Result::Err(FileOpsError::UnknownCell { path: p.clone() });
        },
        Option::Some(proj) => proj,
    };
    match fs.lookup(&proj) {
        Option::None => Result::Ok(Option::None),
        Option::Some(crate::fs::FsEntry::File { content }) => {
            let d = crate::fs::digest(content);
            let size = content.len() as u64;
            Result::Ok(Option::Some(RawPathMetadata::File { digest: d, size }))
        },
        Option::Some(crate::fs::FsEntry::Dir) => Result::Ok(Option::Some(RawPathMetadata::Dir)),
        Option::Some(crate::fs::FsEntry::Symlink { target }) => {
            match cells.get_cell_path(target) {
                Option::None => Result::Err(FileOpsError::ForeignPath { path: target.clone() }),
                Option::Some(to) => Result::Ok(
                    Option::Some(RawPathMetadata::Symlink { at: p.clone(), to }),
                ),
            }
        },
    }
}

// ---------------------------------------------------------------------
// Directory listings
// ---------------------------------------------------------------------

/// Whether `path` names a direct child of `dir`.
pub open spec fn spec_is_child(path: Seq<Seq<u8>>, dir: Seq<Seq<u8>>) -> bool {
    path.len() == dir.len() + 1 && path.take(dir.len() as int) == dir
}

/// The raw listing of `dir`: one entry per snapshot node directly
/// below it, in snapshot order, unfiltered and unsorted.
pub open spec fn spec_raw_listing(fs: Seq<FsNodeV>, dir: Seq<Seq<u8>>) -> Seq<DirEntryV>
    decreases fs.len(),
{
    if fs.len() == 0 {
        Seq::empty()
    } else {
        let rest = spec_raw_listing(fs.drop_last(), dir);
        let n = fs.last();
        if spec_is_child(n.path, dir) {
            rest.push(
                DirEntryV {
                    file_name: n.path.last(),
                    file_type: crate::fs::spec_entry_file_type(n.entry),
                },
            )
        } else {
            rest
        }
    }
}

/// Lists the direct children of `dir` in snapshot order.
pub fn raw_listing(fs: &FsSnapshot, dir: &ProjectPath) -> (r: Vec<RawDirEntry>)
    ensures
        r.deep_view() == spec_raw_listing(fs@, dir@.comps),
{
    let n: usize = fs.nodes.len();
    let dl: usize = dir.comps.len();
    let mut r: Vec<RawDirEntry> = Vec::new();
    let mut i: usize = 0;
    proof {
        crate::fs::lemma_nodes_deep_view(fs.nodes);
        crate::bytes::lemma_comps_deep_view(dir.comps);
        assert(fs@.take(0).len() == 0);
        lemma_raw_entries_deep_view(r);
        assert(r.deep_view() =~= spec_raw_listing(fs@.take(0), dir@.comps));
    }
    while i < n
        invariant
            n == fs.nodes@.len(),
            fs@.len() == n,
            forall|j: int| 0 <= j < n ==> fs@[j] == fs.nodes@[j]@,
            dl == dir.comps@.len(),
            dir@.comps.len() == dl,
            0 <= i <= n,
            r.deep_view() == spec_raw_listing(fs@.take(i as int), dir@.comps),
        decreases n - i,
    {
        proof {
            assert(fs@.take(i + 1).drop_last() =~= fs@.take(i as int));
            assert(fs@.take(i + 1).last() == fs@[i as int]);
            crate::bytes::lemma_comps_deep_view(fs.nodes@[i as int].path.comps);
        }
        let node = &fs.nodes[i];
        let plen: usize = node.path.comps.len();
        let is_child = plen > 0 && plen - 1 == dl && comps_is_prefix(&dir.comps, &node.path.comps);
        proof {
            if is_child {
                assert(fs@[i as int].path.take(dl as int) =~= dir@.comps);
                assert(spec_is_child(fs@[i as int].path, dir@.comps));
            } else {
                if fs@[i as int].path.len() == dl + 1 {
                    if fs@[i as int].path.take(dl as int) == dir@.comps {
                        assert(is_comps_prefix(
                            dir.comps.deep_view(),
                            node.path.comps.deep_view(),
                        ));
                    }
                }
                assert(!spec_is_child(fs@[i as int].path, dir@.comps));
            }
        }
        if is_child {
            let last_idx: usize = node.path.comps.len() - 1;
            let name = bytes_clone(&node.path.comps[last_idx]);
            let ft = match &node.entry {
                crate::fs::FsEntry::File { .. } => FileType::File,
                crate::fs::FsEntry::Dir => FileType::Dir,
                crate::fs::FsEntry::Symlink { .. } => FileType::Symlink,
            };
            let ghost before = r.deep_view();
            r.push(RawDirEntry { file_name: name, file_type: ft });
            proof {
                lemma_raw_entries_deep_view(r);
                assert(name@ == fs@[i as int].path.last());
                assert(ft == crate::fs::spec_entry_file_type(fs@[i as int].entry));
                assert(r.deep_view() =~= before.push(
                    DirEntryV {
                        file_name: fs@[i as int].path.last(),
                        file_type: crate::fs::spec_entry_file_type(fs@[i as int].entry),
                    },
                ));
            }
        }
        i = i + 1;
    }
    proof {
        assert(fs@.take(n as int) =~= fs@);
    }
    r
}

/// Whether a raw entry survives the delegate's filtering: its
/// cell-relative path is not ignored and its name is well-formed.
pub open spec fn spec_entry_kept(
    patterns: Seq<Seq<PatCompV>>,
    rel: Seq<Seq<u8>>,
    e: DirEntryV,
) -> bool {
    !spec_is_ignored(patterns, rel.push(e.file_name)) && spec_valid_file_name(e.file_name)
}

/// The entries that survive filtering, in their given order.
pub open spec fn spec_keep(
    patterns: Seq<Seq<PatCompV>>,
    rel: Seq<Seq<u8>>,
    entries: Seq<DirEntryV>,
) -> Seq<DirEntryV>
    decreases entries.len(),
{
    if entries.len() == 0 {
        Seq::empty()
    } else {
        let rest = spec_keep(patterns, rel, entries.drop_last());
        if spec_entry_kept(patterns, rel, entries.last()) {
            rest.push(entries.last())
        } else {
            rest
        }
    }
}

/// The names the filter rejects for being ill-formed: entries that
/// are not ignored but fail the file-name check, in listing order.
pub open spec fn spec_rejected_names(
    patterns: Seq<Seq<PatCompV>>,
    rel: Seq<Seq<u8>>,
    entries: Seq<DirEntryV>,
) -> Seq<Seq<u8>>
    decreases entries.len(),
{
    if entries.len() == 0 {
        Seq::empty()
    } else {
        let rest = spec_rejected_names(patterns, rel, entries.drop_last());
        let e = entries.last();
        if !spec_is_ignored(patterns, rel.push(e.file_name)) && !spec_valid_file_name(
            e.file_name,
        ) {
            rest.push(e.file_name)
        } else {
            rest
        }
    }
}

/// Filters a raw listing: drops entries whose cell-relative path is
/// ignored, and drops entries with ill-formed names while collecting
/// those names so the caller can report them.
fn filter_entries(patterns: &Vec<IgnorePattern>, rel: &Vec<Vec<u8>>, raw: &Vec<RawDirEntry>) -> (r:
    (Vec<SimpleDirEntry>, Vec<Vec<u8>>))
    ensures
        r.0.deep_view() == spec_keep(patterns.deep_view(), rel.deep_view(), raw.deep_view()),
        r.1.deep_view() == spec_rejected_names(
            patterns.deep_view(),
            rel.deep_view(),
            raw.deep_view(),
        ),
{
    let n: usize = raw.len();
    let mut r: Vec<SimpleDirEntry> = Vec::new();
    let mut rejected: Vec<Vec<u8>> = Vec::new();
    let mut i: usize = 0;
    proof {
        lemma_raw_entries_deep_view(*raw);
        lemma_simple_entries_deep_view(r);
        crate::bytes::lemma_comps_deep_view(rejected);
        crate::bytes::lemma_comps_deep_view(*rel);
        assert(raw.deep_view().take(0).len() == 0);
        assert(r.deep_view() =~= spec_keep(
            patterns.deep_view(),
            rel.deep_view(),
            raw.deep_view().take(0),
        ));
        assert(rejected.deep_view() =~~= spec_rejected_names(
            patterns.deep_view(),
            rel.deep_view(),
            raw.deep_view().take(0),
        ));
    }
    while i < n
        invariant
            n == raw@.len(),
            raw.deep_view().len() == n,
            forall|j: int| 0 <= j < n ==> raw.deep_view()[j] == raw@[j]@,
            rel.deep_view().len() == rel@.len(),
            forall|j: int| 0 <= j < rel@.len() ==> rel.deep_view()[j] == rel@[j]@,
            0 <= i <= n,
            r.deep_view() == spec_keep(
                patterns.deep_view(),
                rel.deep_view(),
                raw.deep_view().take(i as int),
            ),
            rejected.deep_view() == spec_rejected_names(
                patterns.deep_view(),
                rel.deep_view(),
                raw.deep_view().take(i as int),
            ),
        decreases n - i,
    {
        proof {
            assert(raw.deep_view().take(i + 1).drop_last() =~= raw.deep_view().take(i as int));
            assert(raw.deep_view().take(i + 1).last() == raw.deep_view()[i as int]);
        }
        let entry = &raw[i];
        let mut child: Vec<Vec<u8>> = comps_clone(rel);
        child.push(bytes_clone(&entry.file_name));
        proof {
            crate::bytes::lemma_comps_deep_view(child);
            assert(child.deep_view() =~= rel.deep_view().push(raw.deep_view()[i as int].file_name));
        }
        let ignored = is_ignored_by(patterns, &child);
        let valid = valid_file_name(&entry.file_name);
        if !ignored && valid {
            let ghost before = r.deep_view();
            r.push(
                SimpleDirEntry {
                    file_name: bytes_clone(&entry.file_name),
                    file_type: entry.file_type,
                },
            );
            proof {
                lemma_simple_entries_deep_view(r);
                assert(r.deep_view() =~= before.push(raw.deep_view()[i as int]));
            }
        } else if !ignored {
            let ghost before = rejected.deep_view();
            rejected.push(bytes_clone(&entry.file_name));
            proof {
                crate::bytes::lemma_comps_deep_view(rejected);
                assert(rejected.deep_view() =~~= before.push(
                    raw.deep_view()[i as int].file_name,
                ));
            }
        }
        i = i + 1;
    }
    proof {
        assert(raw.deep_view().take(n as int) =~= raw.deep_view());
    }
    (r, rejected)
}

/// Compares two entries in listing order.
fn entry_le_exec(a: &SimpleDirEntry, b: &SimpleDirEntry) -> (r: bool)
    ensures
        r == entry_le(a@, b@),
{
    if bytes_eq(&a.file_name, &b.file_name) {
        let ra: u8 = match a.file_type {
            FileType::File => 0,
            FileType::Dir => 1,
            FileType::Symlink => 2,
        };
        let rb: u8 = match b.file_type {
            FileType::File => 0,
            FileType::Dir => 1,
            FileType::Symlink => 2,
        };
        ra <= rb
    } else {
        crate::bytes::bytes_le(&a.file_name, &b.file_name)
    }
}

/// Sorts a listing into the canonical order.
pub fn sort_entries(v: Vec<SimpleDirEntry>) -> (r: Vec<SimpleDirEntry>)
    ensures
        r.deep_view() == v.deep_view().sort_by(|a: DirEntryV, b: DirEntryV| entry_le(a, b)),
{
    broadcast use vstd::seq_lib::group_to_multiset_ensures;

    let ghost leq = |a: DirEntryV, b: DirEntryV| entry_le(a, b);
    let ghost orig = v.deep_view();
    let mut v = v;
    let mut r: Vec<SimpleDirEntry> = Vec::new();
    proof {
        lemma_entry_le_total_ordering();
        lemma_simple_entries_deep_view(r);
        assert(r.deep_view().to_multiset().add(v.deep_view().to_multiset()) =~= orig.to_multiset());
    }
    loop
        invariant
            vstd::relations::total_ordering(leq),
            leq == (|a: DirEntryV, b: DirEntryV| entry_le(a, b)),
            vstd::relations::sorted_by(r.deep_view(), leq),
            r.deep_view().to_multiset().add(v.deep_view().to_multiset()) == orig.to_multiset(),
        ensures
            v@.len() == 0,
        decreases v@.len(),
    {
        let ghost v_deep_before = v.deep_view();
        let x = match v.pop() {
            Option::Some(x) => x,
            Option::None => {
                break;
            },
        };
        proof {
            lemma_simple_entries_deep_view(v);
            assert(v.deep_view() =~= v_deep_before.drop_last());
            assert(v_deep_before =~= v.deep_view().push(x@));
            vstd::seq_lib::to_multiset_build(v.deep_view(), x@);
            assert(v_deep_before.to_multiset() == v.deep_view().to_multiset().insert(x@));
        }
        // Find the first position whose entry does not precede `x`.
        let rl: usize = r.len();
        let mut j: usize = 0;
        while j < rl
            invariant
                rl == r@.len(),
                r.deep_view().len() == rl,
                forall|t: int| 0 <= t < rl ==> r.deep_view()[t] == r@[t]@,
                0 <= j <= rl,
                forall|t: int| 0 <= t < j ==> leq(r.deep_view()[t], x@),
                leq == (|a: DirEntryV, b: DirEntryV| entry_le(a, b)),
            ensures
                0 <= j <= rl,
                forall|t: int| 0 <= t < j ==> leq(r.deep_view()[t], x@),
                j == rl || !leq(r.deep_view()[j as int], x@),
            decreases rl - j,
        {
            if !entry_le_exec(&r[j], &x) {
                break;
            }
            j = j + 1;
        }
        let ghost r_deep_before = r.deep_view();
        let ghost jj = j as int;
        proof {
            assert(jj == r_deep_before.len() || !leq(r_deep_before[jj], x@));
        }
        r.insert(j, x);
        proof {
            lemma_simple_entries_deep_view(r);
            r_deep_before.insert_ensures(jj, x@);
            assert(r.deep_view() =~= r_deep_before.insert(jj, x@));
            vstd::seq_lib::to_multiset_insert(r_deep_before, jj, x@);
            assert(r.deep_view().to_multiset() == r_deep_before.to_multiset().insert(x@));
            let rd = r.deep_view();
            assert forall|i1: int, i2: int| 0 <= i1 < i2 < rd.len() implies #[trigger] leq(
                rd[i1],
                rd[i2],
            ) by {
                if i1 < jj && i2 < jj {
                    assert(rd[i1] == r_deep_before[i1]);
                    assert(rd[i2] == r_deep_before[i2]);
                } else if i1 < jj && i2 == jj {
                    assert(rd[i1] == r_deep_before[i1]);
                    assert(leq(r_deep_before[i1], x@));
                } else if i1 < jj && i2 > jj {
                    assert(rd[i1] == r_deep_before[i1]);
                    assert(rd[i2] == r_deep_before[i2 - 1]);
                    assert(jj < r_deep_before.len() + 1);
                    assert(!leq(r_deep_before[jj], x@));
                    assert(leq(x@, r_deep_before[jj]));
                    if jj < i2 - 1 {
                        assert(leq(r_deep_before[jj], r_deep_before[i2 - 1]));
                    }
                    assert(leq(x@, r_deep_before[i2 - 1]));
                    assert(leq(r_deep_before[i1], r_deep_before[jj]) || i1 == jj);
                    assert(leq(rd[i1], rd[i2]));
                } else if i1 == jj {
                    assert(rd[i1] == x@);
                    assert(rd[i2] == r_deep_before[i2 - 1]);
                    assert(!leq(r_deep_before[jj], x@));
                    assert(leq(x@, r_deep_before[jj]));
                    if jj < i2 - 1 {
                        assert(leq(r_deep_before[jj], r_deep_before[i2 - 1]));
                    }
                    assert(leq(rd[i1], rd[i2]));
                } else {
                    assert(rd[i1] == r_deep_before[i1 - 1]);
                    assert(rd[i2] == r_deep_before[i2 - 1]);
                }
            }
            assert(r.deep_view().to_multiset().add(v.deep_view().to_multiset())
                =~= orig.to_multiset());
        }
    }
    proof {
        assert(v.deep_view().len() == 0);
        assert(v.deep_view() =~= Seq::empty());
        assert(v.deep_view().to_multiset() =~= Multiset::empty());
        assert(r.deep_view().to_multiset() =~= orig.to_multiset());
        orig.lemma_sort_by_ensures(leq);
        vstd::seq_lib::lemma_sorted_unique(r.deep_view(), orig.sort_by(leq), leq);
        assert(r.deep_view() =~= orig.sort_by(leq));
    }
    r
}

impl CellIgnores {
    /// The patterns configured for `cell`, if any entry names it.
    pub fn patterns_of(&self, cell: &Vec<u8>) -> (r: Option<&Vec<IgnorePattern>>)
        ensures
            r matches Option::Some(v) ==> v.deep_view() == spec_cell_patterns(self@, cell@),
            r is None ==> spec_cell_patterns(self@, cell@).len() == 0,
    {
        let n: usize = self.cells.len();
        let mut i: usize = 0;
        proof {
            assert(self@.skip(0) =~= self@);
        }
        while i < n
            invariant
                n == self.cells@.len(),
                self@.len() == n,
                forall|j: int| 0 <= j < n ==> self@[j] == self.cells@[j]@,
                0 <= i <= n,
                spec_cell_patterns(self@, cell@) == spec_cell_patterns(
                    self@.skip(i as int),
                    cell@,
                ),
            decreases n - i,
        {
            proof {
                assert(self@.skip(i as int)[0] == self@[i as int]);
                assert(self@.skip(i as int).drop_first() =~= self@.skip(i + 1));
            }
            if bytes_eq(&self.cells[i].cell, cell) {
                return Option::Some(&self.cells[i].patterns);
            }
            i = i + 1;
        }
        proof {
            assert(self@.skip(n as int).len() == 0);
        }
        Option::None
    }
}

/// What listing the directory at cell path `p` yields: the filtered
/// listing in canonical order, or the error the delegate reports.
pub open spec fn spec_read_dir_delegate(
    cells: Seq<CellEntryV>,
    ign: Seq<CellIgnoreEntryV>,
    fs: Seq<FsNodeV>,
    p: CellPathV,
) -> Result<Seq<DirEntryV>, FileOpsErrorV> {
    let pats = spec_cell_patterns(ign, p.cell);
    if spec_is_ignored(pats, p.comps) {
        Result::Err(FileOpsErrorV::ReadIgnoredDir { path: p })
    } else {
        match crate::paths::spec_resolve(cells, p) {
            Option::None => Result::Err(FileOpsErrorV::UnknownCell { path: p }),
            Option::Some(proj) => if !crate::fs::spec_fs_is_dir(fs, proj) {
                Result::Err(FileOpsErrorV::NotADirectory { path: p })
            } else {
                Result::Ok(
                    spec_keep(pats, p.comps, spec_raw_listing(fs, proj)).sort_by(
                        |a: DirEntryV, b: DirEntryV| entry_le(a, b),
                    ),
                )
            },
        }
    }
}

/// A successful listing together with the names the filter rejected
/// for being ill-formed, so the caller can report each of them to the
/// user. The rejected names are a by-product of running the delegate;
/// they are not part of the cached listing value.
pub struct ReadDirListing {
    pub output: ReadDirOutput,
    pub rejected_file_names: Vec<Vec<u8>>,
}

/// The ill-formed names a successful listing of `p` rejects, in raw
/// listing order; an unsuccessful listing rejects none.
pub open spec fn spec_read_dir_rejections(
    cells: Seq<CellEntryV>,
    ign: Seq<CellIgnoreEntryV>,
    fs: Seq<FsNodeV>,
    p: CellPathV,
) -> Seq<Seq<u8>> {
    let pats = spec_cell_patterns(ign, p.cell);
    if spec_is_ignored(pats, p.comps) {
        Seq::empty()
    } else {
        match crate::paths::spec_resolve(cells, p) {
            Option::None => Seq::empty(),
            Option::Some(proj) => if !crate::fs::spec_fs_is_dir(fs, proj) {
                Seq::empty()
            } else {
                spec_rejected_names(pats, p.comps, spec_raw_listing(fs, proj))
            },
        }
    }
}

/// Lists a directory through the cell-aware delegate: refuses ignored
/// directories, sorts the raw entries, filters out ignored and
/// ill-named children, and surfaces the rejected ill-formed names.
pub fn read_dir_delegate(
    cells: &CellResolver,
    ign: &CellIgnores,
    fs: &FsSnapshot,
    p: &CellPath,
) -> (r: Result<ReadDirListing, FileOpsError>)
    ensures
        (match r {
            Result::Ok(listing) => spec_read_dir_delegate(cells@, ign@, fs@, p@) == Result::<
                Seq<DirEntryV>,
                FileOpsErrorV,
            >::Ok(listing.output@) && listing.rejected_file_names.deep_view()
                == spec_read_dir_rejections(cells@, ign@, fs@, p@),
            Result::Err(e) => spec_read_dir_delegate(cells@, ign@, fs@, p@) == Result::<
                Seq<DirEntryV>,
                FileOpsErrorV,
            >::Err(e@),
        }),
{
    let empty_patterns: Vec<IgnorePattern> = Vec::new();
    let pats: &Vec<IgnorePattern> = match ign.patterns_of(&p.cell) {
        Option::Some(v) => v,
        Option::None => &empty_patterns,
    };
    proof {
        if pats.deep_view().len() == 0 {
            assert(pats.deep_view() =~= spec_cell_patterns(ign@, p@.cell));
        }
        crate::bytes::lemma_comps_deep_view(p.comps);
    }
    if is_ignored_by(pats, &p.comps) {
        return Result::Err(FileOpsError::ReadIgnoredDir { path: p.clone() });
    }
    let proj = match cells.resolve(p) {
        Option::None => {
            return Result::Err(FileOpsError::UnknownCell { path: p.clone() });
        },
        Option::Some(proj) => proj,
    };
    let is_dir = if proj.comps.len() == 0 {
        true
    } else {
        match fs.lookup(&proj) {
            Option::Some(crate::fs::FsEntry::Dir) => true,
            _ => false,
        }
    };
    if !is_dir {
        return Result::Err(FileOpsError::NotADirectory { path: p.clone() });
    }
    let raw = raw_listing(fs, &proj);
    let (kept, rejected) = filter_entries(pats, &p.comps, &raw);
    let sorted = sort_entries(kept);
    Result::Ok(ReadDirListing { output: ReadDirOutput { included: sorted }, rejected_file_names: rejected })
}

impl ReadDirOutput {
    /// Whether two listings agree, elementwise.
    pub fn output_eq(&self, other: &ReadDirOutput) -> (r: bool)
        ensures
            r == (self@ == other@),
    {
        proof {
            lemma_simple_entries_deep_view(self.included);
            lemma_simple_entries_deep_view(other.included);
        }
        if self.included.len() != other.included.len() {
            return false;
        }
        let n: usize = self.included.len();
        let mut i: usize = 0;
        while i < n
            invariant
                n == self.included@.len() == other.included@.len(),
                self@.len() == n,
                other@.len() == n,
                forall|j: int| 0 <= j < n ==> self@[j] == self.included@[j]@,
                forall|j: int| 0 <= j < n ==> other@[j] == other.included@[j]@,
                0 <= i <= n,
                forall|j: int| 0 <= j < i ==> self@[j] == other@[j],
        decreases n - i,
        {
            let a = &self.included[i];
            let b = &other.included[i];
            if !bytes_eq(&a.file_name, &b.file_name) {
                proof {
                    assert(self@[i as int] != other@[i as int]);
                }
                return false;
            }
            if a.file_type != b.file_type {
                proof {
                    assert(self@[i as int] != other@[i as int]);
                }
                return false;
            }
            proof {
                assert(self@[i as int] =~= other@[i as int]);
            }
            i = i + 1;
        }
        proof {
            assert(self@ =~= other@);
        }
        true
    }
}

/// The filtered entries are the given entries restricted to the kept
/// ones, as multisets.
pub proof fn lemma_keep_multiset(
    patterns: Seq<Seq<PatCompV>>,
    rel: Seq<Seq<u8>>,
    entries: Seq<DirEntryV>,
)
    ensures
        spec_keep(patterns, rel, entries).to_multiset() == entries.to_multiset().filter(
            |e: DirEntryV| spec_entry_kept(patterns, rel, e),
        ),
    decreases entries.len(),
{
    broadcast use vstd::seq_lib::group_to_multiset_ensures;
    broadcast use vstd::multiset::group_multiset_axioms;

    let pred = |e: DirEntryV| spec_entry_kept(patterns, rel, e);
    if entries.len() == 0 {
        assert(spec_keep(patterns, rel, entries).to_multiset() =~= entries.to_multiset().filter(
            pred,
        ));
    } else {
        let rest = entries.drop_last();
        let e = entries.last();
        lemma_keep_multiset(patterns, rel, rest);
        assert(entries =~= rest.push(e));
        vstd::seq_lib::to_multiset_build(rest, e);
        if pred(e) {
            vstd::seq_lib::to_multiset_build(spec_keep(patterns, rel, rest), e);
        }
        assert(spec_keep(patterns, rel, entries).to_multiset() =~= entries.to_multiset().filter(
            pred,
        ));
    }
}

/// Listing a directory is deterministic in its contents: whenever two
/// snapshots offer the same raw entries for the resolved directory, in
/// any order, the delegate returns the identical ordered output.
pub proof fn lemma_read_dir_deterministic(
    cells: Seq<CellEntryV>,
    ign: Seq<CellIgnoreEntryV>,
    fs1: Seq<FsNodeV>,
    fs2: Seq<FsNodeV>,
    p: CellPathV,
)
    requires
        crate::paths::spec_resolve(cells, p) matches Option::Some(proj) ==> spec_raw_listing(
            fs1,
            proj,
        ).to_multiset() == spec_raw_listing(fs2, proj).to_multiset() && (crate::fs::spec_fs_is_dir(
            fs1,
            proj,
        ) == crate::fs::spec_fs_is_dir(fs2, proj)),
    ensures
        spec_read_dir_delegate(cells, ign, fs1, p) == spec_read_dir_delegate(cells, ign, fs2, p),
{
    let pats = spec_cell_patterns(ign, p.cell);
    let leq = |a: DirEntryV, b: DirEntryV| entry_le(a, b);
    if !spec_is_ignored(pats, p.comps) {
        match crate::paths::spec_resolve(cells, p) {
            Option::None => {},
            Option::Some(proj) => {
                if crate::fs::spec_fs_is_dir(fs1, proj) {
                    let l1 = spec_raw_listing(fs1, proj);
                    let l2 = spec_raw_listing(fs2, proj);
                    let k1 = spec_keep(pats, p.comps, l1);
                    let k2 = spec_keep(pats, p.comps, l2);
                    lemma_keep_multiset(pats, p.comps, l1);
                    lemma_keep_multiset(pats, p.comps, l2);
                    assert(k1.to_multiset() == k2.to_multiset());
                    lemma_entry_le_total_ordering();
                    k1.lemma_sort_by_ensures(leq);
                    k2.lemma_sort_by_ensures(leq);
                    vstd::seq_lib::lemma_sorted_unique(k1.sort_by(leq), k2.sort_by(leq), leq);
                    assert(k1.sort_by(leq) =~= k2.sort_by(leq));
                }
            },
        }
    }
}

/// What reading the file at cell path `p` yields under resolver
/// `cells` and snapshot `fs`.
pub open spec fn spec_read_file_delegate(
    cells: Seq<CellEntryV>,
    fs: Seq<FsNodeV>,
    p: CellPathV,
) -> Result<Option<Seq<u8>>, FileOpsErrorV> {
    match crate::paths::spec_resolve(cells, p) {
        Option::None => Result::Err(FileOpsErrorV::UnknownCell { path: p }),
        Option::Some(proj) => Result::Ok(crate::fs::spec_fs_read_file(fs, proj)),
    }
}

/// Reads a file through the cell-aware delegate.
pub fn read_file_delegate(cells: &CellResolver, fs: &FsSnapshot, p: &CellPath) -> (r: Result<
    Option<Vec<u8>>,
    FileOpsError,
>)
    ensures
        (match r {
            Result::Ok(Option::Some(c)) => spec_read_file_delegate(cells@, fs@, p@) == Result::<
                Option<Seq<u8>>,
                FileOpsErrorV,
            >::Ok(Option::Some(c@)),
            Result::Ok(Option::None) => spec_read_file_delegate(cells@, fs@, p@) == Result::<
                Option<Seq<u8>>,
                FileOpsErrorV,
            >::Ok(Option::<Seq<u8>>::None),
            Result::Err(e) => spec_read_file_delegate(cells@, fs@, p@) == Result::<
                Option<Seq<u8>>,
                FileOpsErrorV,
            >::Err(e@),
        }),
{
    match cells.resolve(p) {
        Option::None => Result::Err(FileOpsError::UnknownCell { path: p.clone() }),
        Option::Some(proj) => match fs.read_file_if_exists(&proj) {
            Option::Some(c) => Result::Ok(Option::Some(c)),
            Option::None => Result::Ok(Option::None),
        },
    }
}

} // verus!
