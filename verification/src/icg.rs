//! The incremental computation graph.
//!
//! A keyed, memoizing, versioned graph. Every key's value is a pure
//! function of the environment pinned at the current version — the
//! filesystem snapshot, the cell resolver, the ignore sets and the
//! constructor source — so repeated computation within a version is
//! deterministic. Nodes cache their value, the dependencies they
//! recorded and the version they were verified at; an update
//! transaction stages dirty keys and commits them together with the
//! next version's environment. A re-validated node whose recorded
//! dependencies still compare equal under each dependency's own
//! equality predicate is promoted without re-running its compute
//! function ("early cutoff"); failure values are never cached.

use vstd::prelude::*;

use crate::config::CfgInvocationData;
use crate::config::CfgInvocationDataV;
use crate::config::CfgSource;
use crate::config::CfgSourceV;
use crate::config::ConfigurationData;
use crate::config::ConfigurationDataV;
use crate::fileops::CellIgnores;
use crate::fileops::CellIgnoreEntryV;
use crate::fileops::DirEntryV;
use crate::fileops::FileOpsError;
use crate::fileops::FileOpsErrorV;
use crate::fileops::RawPathMetadata;
use crate::fileops::RawPathMetadataV;
use crate::fileops::ReadDirOutput;
use crate::fs::FsNodeV;
use crate::fs::FsSnapshot;
use crate::paths::CellEntryV;
use crate::paths::CellPath;
use crate::paths::CellPathV;
use crate::paths::CellResolver;

verus! {

// ---------------------------------------------------------------------
// Keys
// ---------------------------------------------------------------------

/// The key that resolves a file read to a transient token.
#[derive(Debug)]
pub struct ReadFileKey(pub CellPath);

/// The key that resolves a directory listing.
#[derive(Debug)]
pub struct ReadDirKey(pub CellPath);

/// The key that resolves path metadata.
#[derive(Debug)]
pub struct PathMetadataKey(pub CellPath);

/// The unit key under which the cell-aware delegate itself is cached.
#[derive(Debug)]
pub struct FileOpsKey();

/// Mathematical image of a graph key.
#[verifier::ext_equal]
pub enum KeyV {
    ReadFile { path: CellPathV },
    ReadDir { path: CellPathV },
    PathMetadata { path: CellPathV },
    FileOps,
    GetCfgConstructor,
    CfgInvocation { data: CfgInvocationDataV },
}

/// A node identity of the graph.
#[derive(Debug)]
pub enum Key {
    ReadFile(ReadFileKey),
    ReadDir(ReadDirKey),
    PathMetadata(PathMetadataKey),
    FileOps(FileOpsKey),
    GetCfgConstructor,
    CfgInvocation(CfgInvocationData),
}

impl View for Key {
    type V = KeyV;

    open spec fn view(&self) -> KeyV {
        match self {
            Key::ReadFile(k) => KeyV::ReadFile { path: k.0@ },
            Key::ReadDir(k) => KeyV::ReadDir { path: k.0@ },
            Key::PathMetadata(k) => KeyV::PathMetadata { path: k.0@ },
            Key::FileOps(_) => KeyV::FileOps,
            Key::GetCfgConstructor => KeyV::GetCfgConstructor,
            Key::CfgInvocation(d) => KeyV::CfgInvocation { data: d@ },
        }
    }
}

impl Clone for Key {
    fn clone(&self) -> (r: Self)
        ensures
            r@ == self@,
    {
        match self {
            Key::ReadFile(k) => Key::ReadFile(ReadFileKey(k.0.clone())),
            Key::ReadDir(k) => Key::ReadDir(ReadDirKey(k.0.clone())),
            Key::PathMetadata(k) => Key::PathMetadata(PathMetadataKey(k.0.clone())),
            Key::FileOps(_) => Key::FileOps(FileOpsKey()),
            Key::GetCfgConstructor => Key::GetCfgConstructor,
            Key::CfgInvocation(d) => Key::CfgInvocation(d.clone()),
        }
    }
}

impl Key {
    /// Whether two keys name the same node.
    pub fn key_eq(&self, other: &Key) -> (r: bool)
        ensures
            r == (self@ == other@),
    {
        match (self, other) {
            (Key::ReadFile(a), Key::ReadFile(b)) => a.0.path_eq(&b.0),
            (Key::ReadDir(a), Key::ReadDir(b)) => a.0.path_eq(&b.0),
            (Key::PathMetadata(a), Key::PathMetadata(b)) => a.0.path_eq(&b.0),
            (Key::FileOps(_), Key::FileOps(_)) => true,
            (Key::GetCfgConstructor, Key::GetCfgConstructor) => true,
            (Key::CfgInvocation(a), Key::CfgInvocation(b)) => a.data_eq(b),
            _ => false,
        }
    }
}

/// Whether a key has no dependencies of its own.
pub open spec fn spec_is_leaf(k: KeyV) -> bool {
    match k {
        KeyV::ReadFile { .. } => true,
        KeyV::FileOps => true,
        KeyV::GetCfgConstructor => true,
        KeyV::ReadDir { .. } => false,
        KeyV::PathMetadata { .. } => false,
        KeyV::CfgInvocation { .. } => false,
    }
}

// ---------------------------------------------------------------------
// Values
// ---------------------------------------------------------------------

/// The result of a file-read key: a handle carrying the path, so that
/// file bytes are never stored in the graph's cache. Consumers re-read
/// the contents through the delegate when they need them.
#[derive(Debug)]
pub struct FileToken {
    pub path: CellPath,
}

impl View for FileToken {
    type V = CellPathV;

    open spec fn view(&self) -> CellPathV {
        self.path@
    }
}

impl FileToken {
    /// Re-reads the file the token stands for, through the delegate.
    pub fn read_if_exists(&self, fo: &FileOpsValue, fs: &FsSnapshot) -> (r: Result<
        Option<Vec<u8>>,
        FileOpsError,
    >)
        ensures
            (match r {
                Result::Ok(Option::Some(c)) => crate::fileops::spec_read_file_delegate(
                    fo@.cells,
                    fs@,
                    self@,
                ) == Result::<Option<Seq<u8>>, FileOpsErrorV>::Ok(Option::Some(c@)),
                Result::Ok(Option::None) => crate::fileops::spec_read_file_delegate(
                    fo@.cells,
                    fs@,
                    self@,
                ) == Result::<Option<Seq<u8>>, FileOpsErrorV>::Ok(Option::<Seq<u8>>::None),
                Result::Err(e) => crate::fileops::spec_read_file_delegate(fo@.cells, fs@, self@)
                    == Result::<Option<Seq<u8>>, FileOpsErrorV>::Err(e@),
            }),
    {
        crate::fileops::read_file_delegate(&fo.cells, fs, &self.path)
    }
}

/// Mathematical image of the cached delegate.
#[verifier::ext_equal]
pub struct FileOpsValueV {
    pub cells: Seq<CellEntryV>,
    pub ignores: Seq<CellIgnoreEntryV>,
}

/// The cell-aware delegate, cached as a single graph node: the cell
/// resolver and the per-cell ignores. Its equality predicate compares
/// both; the raw io layer is identity-only and does not change during
/// a session.
#[derive(Debug)]
pub struct FileOpsValue {
    pub cells: CellResolver,
    pub ignores: CellIgnores,
}

impl View for FileOpsValue {
    type V = FileOpsValueV;

    open spec fn view(&self) -> FileOpsValueV {
        FileOpsValueV { cells: self.cells@, ignores: self.ignores@ }
    }
}

impl Clone for FileOpsValue {
    fn clone(&self) -> (r: Self)
        ensures
            r@ == self@,
    {
        let r = FileOpsValue { cells: self.cells.clone(), ignores: self.ignores.clone() };
        proof {
            assert(r@ =~= self@);
        }
        r
    }
}

/// Mathematical image of a compute failure.
#[verifier::ext_equal]
pub enum ComputeFailureV {
    FileOps { err: FileOpsErrorV },
    CfgConstructorMissing,
    CfgEvalFailed,
}

/// A failed computation, propagated as a value. Failures have
/// validity `false`: they are never cached and never gate early
/// cutoff in dependents.
#[derive(Debug)]
pub enum ComputeFailure {
    /// A file operation failed.
    FileOps { err: FileOpsError },
    /// The globally installed constructor disappeared between
    /// resolution and invocation.
    CfgConstructorMissing,
    /// The constructor had no answer for the invocation inputs.
    CfgEvalFailed,
}

impl View for ComputeFailure {
    type V = ComputeFailureV;

    open spec fn view(&self) -> ComputeFailureV {
        match self {
            ComputeFailure::FileOps { err } => ComputeFailureV::FileOps { err: err@ },
            ComputeFailure::CfgConstructorMissing => ComputeFailureV::CfgConstructorMissing,
            ComputeFailure::CfgEvalFailed => ComputeFailureV::CfgEvalFailed,
        }
    }
}

impl Clone for ComputeFailure {
    fn clone(&self) -> (r: Self)
        ensures
            r@ == self@,
    {
        match self {
            ComputeFailure::FileOps { err } => ComputeFailure::FileOps { err: err.clone() },
            ComputeFailure::CfgConstructorMissing => ComputeFailure::CfgConstructorMissing,
            ComputeFailure::CfgEvalFailed => ComputeFailure::CfgEvalFailed,
        }
    }
}

/// Mathematical image of a node's value.
#[verifier::ext_equal]
pub enum ValueV {
    Token { path: CellPathV },
    DirListing { entries: Seq<DirEntryV> },
    Metadata { meta: Option<RawPathMetadataV> },
    FileOps { value: FileOpsValueV },
    CfgConstructor { installed: bool },
    Configuration { cfg: ConfigurationDataV },
    Failure { failure: ComputeFailureV },
}

/// What a node of the graph holds.
#[derive(Debug)]
pub enum Value {
    Token(FileToken),
    DirListing(ReadDirOutput),
    Metadata(Option<RawPathMetadata>),
    FileOps(FileOpsValue),
    CfgConstructor(bool),
    Configuration(ConfigurationData),
    Failure(ComputeFailure),
}

impl View for Value {
    type V = ValueV;

    open spec fn view(&self) -> ValueV {
        match self {
            Value::Token(t) => ValueV::Token { path: t@ },
            Value::DirListing(o) => ValueV::DirListing { entries: o@ },
            Value::Metadata(m) => ValueV::Metadata {
                meta: match m {
                    Option::Some(mm) => Option::Some(mm@),
                    Option::None => Option::None,
                },
            },
            Value::FileOps(f) => ValueV::FileOps { value: f@ },
            Value::CfgConstructor(b) => ValueV::CfgConstructor { installed: *b },
            Value::Configuration(c) => ValueV::Configuration { cfg: c@ },
            Value::Failure(f) => ValueV::Failure { failure: f@ },
        }
    }
}

impl Clone for Value {
    fn clone(&self) -> (r: Self)
        ensures
            r@ == self@,
    {
        let r = match self {
            Value::Token(t) => Value::Token(FileToken { path: t.path.clone() }),
            Value::DirListing(o) => Value::DirListing(o.clone()),
            Value::Metadata(m) => Value::Metadata(
                match m {
                    Option::Some(mm) => Option::Some(mm.clone()),
                    Option::None => Option::None,
                },
            ),
            Value::FileOps(f) => Value::FileOps(f.clone()),
            Value::CfgConstructor(b) => Value::CfgConstructor(*b),
            Value::Configuration(c) => Value::Configuration(c.clone()),
            Value::Failure(f) => Value::Failure(f.clone()),
        };
        proof {
            assert(r@ =~= self@);
        }
        r
    }
}

/// Whether a value may be cached and may gate early cutoff: failures
/// may not.
pub open spec fn spec_validity(v: ValueV) -> bool {
    !(v is Failure)
}

/// The per-key equality predicate that gates early cutoff. File
/// tokens and the constructor resolution never compare equal; the
/// delegate compares its resolver and ignores; everything else is
/// structural on success, and failures never compare equal.
pub open spec fn spec_key_eq(k: KeyV, a: ValueV, b: ValueV) -> bool {
    match k {
        KeyV::ReadFile { .. } => false,
        KeyV::GetCfgConstructor => false,
        KeyV::ReadDir { .. } => match (a, b) {
            (ValueV::DirListing { entries: x }, ValueV::DirListing { entries: y }) => x == y,
            _ => false,
        },
        KeyV::PathMetadata { .. } => match (a, b) {
            (ValueV::Metadata { meta: x }, ValueV::Metadata { meta: y }) => x == y,
            _ => false,
        },
        KeyV::FileOps => match (a, b) {
            (ValueV::FileOps { value: x }, ValueV::FileOps { value: y }) => x == y,
            _ => false,
        },
        KeyV::CfgInvocation { .. } => match (a, b) {
            (ValueV::Configuration { cfg: x }, ValueV::Configuration { cfg: y }) => x == y,
            _ => false,
        },
    }
}

/// Compares two values under the equality predicate of `k`.
pub fn value_eq_for_key(k: &Key, a: &Value, b: &Value) -> (r: bool)
    ensures
        r == spec_key_eq(k@, a@, b@),
{
    match k {
        Key::ReadFile(_) => false,
        Key::GetCfgConstructor => false,
        Key::ReadDir(_) => match (a, b) {
            (Value::DirListing(x), Value::DirListing(y)) => x.output_eq(y),
            _ => false,
        },
        Key::PathMetadata(_) => match (a, b) {
            (Value::Metadata(x), Value::Metadata(y)) => match (x, y) {
                (Option::Some(mx), Option::Some(my)) => mx.meta_eq(my),
                (Option::None, Option::None) => true,
                _ => false,
            },
            _ => false,
        },
        Key::FileOps(_) => match (a, b) {
            (Value::FileOps(x), Value::FileOps(y)) => {
                let ce = cells_eq(&x.cells, &y.cells);
                let ie = ignores_eq(&x.ignores, &y.ignores);
                proof {
                    if ce && ie {
                        assert(x@ =~= y@);
                    }
                }
                ce && ie
            },
            _ => false,
        },
        Key::CfgInvocation(_) => match (a, b) {
            (Value::Configuration(x), Value::Configuration(y)) => x.cfg_eq(y),
            _ => false,
        },
    }
}

/// Whether two resolvers agree, entrywise.
fn cells_eq(a: &CellResolver, b: &CellResolver) -> (r: bool)
    ensures
        r == (a@ == b@),
{
    proof {
        crate::paths::lemma_entries_deep_view(a.cells);
        crate::paths::lemma_entries_deep_view(b.cells);
    }
    if a.cells.len() != b.cells.len() {
        return false;
    }
    let n: usize = a.cells.len();
    let mut i: usize = 0;
    while i < n
        invariant
            n == a.cells@.len() == b.cells@.len(),
            a@.len() == n,
            b@.len() == n,
            forall|j: int| 0 <= j < n ==> a@[j] == a.cells@[j]@,
            forall|j: int| 0 <= j < n ==> b@[j] == b.cells@[j]@,
            0 <= i <= n,
            forall|j: int| 0 <= j < i ==> a@[j] == b@[j],
        decreases n - i,
    {
        let ea = &a.cells[i];
        let eb = &b.cells[i];
        if !crate::bytes::bytes_eq(&ea.name, &eb.name) {
            proof {
                assert(a@[i as int] != b@[i as int]);
            }
            return false;
        }
        if !crate::paths::comps_eq(&ea.root.comps, &eb.root.comps) {
            proof {
                assert(a@[i as int] != b@[i as int]);
            }
            return false;
        }
        proof {
            assert(a@[i as int] =~= b@[i as int]);
        }
        i = i + 1;
    }
    proof {
        assert(a@ =~= b@);
    }
    true
}

/// Whether one pattern equals another, componentwise.
fn pattern_eq(a: &crate::fileops::IgnorePattern, b: &crate::fileops::IgnorePattern) -> (r: bool)
    ensures
        r == (a@ == b@),
{
    proof {
        crate::fileops::lemma_pattern_deep_view(a.comps);
        crate::fileops::lemma_pattern_deep_view(b.comps);
    }
    if a.comps.len() != b.comps.len() {
        return false;
    }
    let n: usize = a.comps.len();
    let mut i: usize = 0;
    while i < n
        invariant
            n == a.comps@.len() == b.comps@.len(),
            a@.len() == n,
            b@.len() == n,
            forall|j: int| 0 <= j < n ==> a@[j] == a.comps@[j]@,
            forall|j: int| 0 <= j < n ==> b@[j] == b.comps@[j]@,
            0 <= i <= n,
            forall|j: int| 0 <= j < i ==> a@[j] == b@[j],
        decreases n - i,
    {
        let ca = &a.comps[i];
        let cb = &b.comps[i];
        let same = match (ca, cb) {
            (
                crate::fileops::PatComp::Lit { name: x },
                crate::fileops::PatComp::Lit { name: y },
            ) => crate::bytes::bytes_eq(x, y),
            (crate::fileops::PatComp::Star, crate::fileops::PatComp::Star) => true,
            (crate::fileops::PatComp::DoubleStar, crate::fileops::PatComp::DoubleStar) => true,
            _ => false,
        };
        if !same {
            proof {
                assert(a@[i as int] != b@[i as int]);
            }
            return false;
        }
        proof {
            assert(a@[i as int] == b@[i as int]);
        }
        i = i + 1;
    }
    proof {
        assert(a@ =~= b@);
    }
    true
}

/// Whether two ignore sets agree, entrywise.
fn ignores_eq(a: &CellIgnores, b: &CellIgnores) -> (r: bool)
    ensures
        r == (a@ == b@),
{
    if a.cells.len() != b.cells.len() {
        return false;
    }
    let n: usize = a.cells.len();
    let mut i: usize = 0;
    while i < n
        invariant
            n == a.cells@.len() == b.cells@.len(),
            a@.len() == n,
            b@.len() == n,
            forall|j: int| 0 <= j < n ==> a@[j] == a.cells@[j]@,
            forall|j: int| 0 <= j < n ==> b@[j] == b.cells@[j]@,
            0 <= i <= n,
            forall|j: int| 0 <= j < i ==> a@[j] == b@[j],
        decreases n - i,
    {
        let ea = &a.cells[i];
        let eb = &b.cells[i];
        if !crate::bytes::bytes_eq(&ea.cell, &eb.cell) {
            proof {
                assert(a@[i as int] != b@[i as int]);
            }
            return false;
        }
        if ea.patterns.len() != eb.patterns.len() {
            proof {
                assert(a@[i as int].patterns.len() != b@[i as int].patterns.len());
            }
            return false;
        }
        let m: usize = ea.patterns.len();
        let mut j: usize = 0;
        while j < m
            invariant
                m == ea.patterns@.len() == eb.patterns@.len(),
                i < n == a.cells@.len() == b.cells@.len(),
                a@.len() == n,
                b@.len() == n,
                a@[i as int].patterns == ea.patterns.deep_view(),
                b@[i as int].patterns == eb.patterns.deep_view(),
                ea.patterns.deep_view().len() == m,
                eb.patterns.deep_view().len() == m,
                forall|t: int| 0 <= t < m ==> ea.patterns.deep_view()[t] == ea.patterns@[t]@,
                forall|t: int| 0 <= t < m ==> eb.patterns.deep_view()[t] == eb.patterns@[t]@,
                0 <= j <= m,
                forall|t: int| 0 <= t < j ==> ea.patterns.deep_view()[t]
                    == eb.patterns.deep_view()[t],
            decreases m - j,
        {
            if !pattern_eq(&ea.patterns[j], &eb.patterns[j]) {
                proof {
                    assert(ea.patterns.deep_view()[j as int] != eb.patterns.deep_view()[j as int]);
                    assert(a@[i as int].patterns != b@[i as int].patterns);
                }
                return false;
            }
            j = j + 1;
        }
        proof {
            assert(ea.patterns.deep_view() =~= eb.patterns.deep_view());
            assert(a@[i as int] =~= b@[i as int]);
        }
        i = i + 1;
    }
    proof {
        assert(a@ =~= b@);
    }
    true
}

// ---------------------------------------------------------------------
// The environment pinned at a version
// ---------------------------------------------------------------------

/// Mathematical image of the environment.
#[verifier::ext_equal]
pub struct EngineEnvV {
    pub fs: Seq<FsNodeV>,
    pub cells: Seq<CellEntryV>,
    pub ignores: Seq<CellIgnoreEntryV>,
    pub cfg: CfgSourceV,
}

/// Everything a version's computations may observe: the filesystem
/// snapshot, the cell resolver, the ignore sets and the constructor
/// source.
#[derive(Debug)]
pub struct EngineEnv {
    pub fs: FsSnapshot,
    pub cells: CellResolver,
    pub ignores: CellIgnores,
    pub cfg: CfgSource,
}

impl View for EngineEnv {
    type V = EngineEnvV;

    open spec fn view(&self) -> EngineEnvV {
        EngineEnvV { fs: self.fs@, cells: self.cells@, ignores: self.ignores@, cfg: self.cfg@ }
    }
}

/// The value of key `k` under environment `env`: every key is a pure
/// function of the pinned environment.
pub open spec fn spec_eval(env: EngineEnvV, k: KeyV) -> ValueV {
    match k {
        KeyV::ReadFile { path } => ValueV::Token { path },
        KeyV::ReadDir { path } => match crate::fileops::spec_read_dir_delegate(
            env.cells,
            env.ignores,
            env.fs,
            path,
        ) {
            Result::Ok(entries) => ValueV::DirListing { entries },
            Result::Err(e) => ValueV::Failure { failure: ComputeFailureV::FileOps { err: e } },
        },
        KeyV::PathMetadata { path } => match crate::fileops::spec_metadata_delegate(
            env.cells,
            env.fs,
            path,
        ) {
            Result::Ok(meta) => ValueV::Metadata { meta },
            Result::Err(e) => ValueV::Failure { failure: ComputeFailureV::FileOps { err: e } },
        },
        KeyV::FileOps => ValueV::FileOps {
            value: FileOpsValueV { cells: env.cells, ignores: env.ignores },
        },
        KeyV::GetCfgConstructor => ValueV::CfgConstructor {
            installed: env.cfg.constructor is Some,
        },
        KeyV::CfgInvocation { data } => match env.cfg.constructor {
            Option::None => ValueV::Failure {
                failure: ComputeFailureV::CfgConstructorMissing,
            },
            Option::Some(rules) => match crate::config::spec_cfg_lookup(rules, data) {
                Option::Some(out) => ValueV::Configuration { cfg: out },
                Option::None => ValueV::Failure { failure: ComputeFailureV::CfgEvalFailed },
            },
        },
    }
}

/// Mathematical image of one recorded dependency edge.
#[verifier::ext_equal]
pub struct DepV {
    pub key: KeyV,
    pub value: ValueV,
}

/// The dependencies that computing `k` records, with the values they
/// had: the listing and metadata keys read through the cached
/// delegate; metadata of a symlink additionally requests the file key
/// of the symlink's own path; an invocation resolves the constructor.
pub open spec fn spec_deps(env: EngineEnvV, k: KeyV) -> Seq<DepV> {
    match k {
        KeyV::ReadFile { .. } => Seq::empty(),
        KeyV::FileOps => Seq::empty(),
        KeyV::GetCfgConstructor => Seq::empty(),
        KeyV::ReadDir { .. } => seq![
            DepV { key: KeyV::FileOps, value: spec_eval(env, KeyV::FileOps) },
        ],
        KeyV::PathMetadata { .. } => {
            let base = seq![DepV { key: KeyV::FileOps, value: spec_eval(env, KeyV::FileOps) }];
            match spec_eval(env, k) {
                ValueV::Metadata { meta: Option::Some(RawPathMetadataV::Symlink { at, .. }) } =>
                    base.push(
                    DepV {
                        key: KeyV::ReadFile { path: at },
                        value: spec_eval(env, KeyV::ReadFile { path: at }),
                    },
                ),
                _ => base,
            }
        },
        KeyV::CfgInvocation { .. } => seq![
            DepV {
                key: KeyV::GetCfgConstructor,
                value: spec_eval(env, KeyV::GetCfgConstructor),
            },
        ],
    }
}

// ---------------------------------------------------------------------
// Nodes and the graph
// ---------------------------------------------------------------------

/// One recorded dependency edge: the key that was requested and the
/// value it had.
#[derive(Debug)]
pub struct Dep {
    pub key: Key,
    pub value: Value,
}

impl View for Dep {
    type V = DepV;

    open spec fn view(&self) -> DepV {
        DepV { key: self.key@, value: self.value@ }
    }
}

impl DeepView for Dep {
    type V = DepV;

    open spec fn deep_view(&self) -> DepV {
        self@
    }
}

impl Clone for Dep {
    fn clone(&self) -> (r: Self)
        ensures
            r@ == self@,
    {
        let r = Dep { key: self.key.clone(), value: self.value.clone() };
        proof {
            assert(r@ =~= self@);
        }
        r
    }
}

/// The deep view of a vector of dependency edges, elementwise.
pub proof fn lemma_deps_deep_view(v: Vec<Dep>)
    ensures
        v.deep_view().len() == v@.len(),
        forall|i: int| 0 <= i < v@.len() ==> v.deep_view()[i] == v@[i]@,
{
}

/// A copy of a dependency list, with the edges known to be preserved.
fn clone_deps(v: &Vec<Dep>) -> (r: Vec<Dep>)
    ensures
        r.deep_view() == v.deep_view(),
{
    let n: usize = v.len();
    let mut r: Vec<Dep> = Vec::new();
    let mut i: usize = 0;
    while i < n
        invariant
            n == v@.len(),
            0 <= i <= n,
            r@.len() == i,
            forall|j: int| 0 <= j < i ==> r@[j]@ == v@[j]@,
        decreases n - i,
    {
        r.push(v[i].clone());
        i = i + 1;
    }
    proof {
        lemma_deps_deep_view(r);
        lemma_deps_deep_view(*v);
        assert(r.deep_view() =~= v.deep_view());
    }
    r
}

/// Mathematical image of a node's record.
#[verifier::ext_equal]
pub struct NodeRecordV {
    pub value: ValueV,
    pub deps: Seq<DepV>,
    pub verified_at: u64,
}

/// What a node remembers from its last successful evaluation: the
/// value, the dependencies it requested with the values they had, and
/// the version the node was last verified at.
#[derive(Debug)]
pub struct NodeRecord {
    pub value: Value,
    pub deps: Vec<Dep>,
    pub verified_at: u64,
}

impl View for NodeRecord {
    type V = NodeRecordV;

    open spec fn view(&self) -> NodeRecordV {
        NodeRecordV {
            value: self.value@,
            deps: self.deps.deep_view(),
            verified_at: self.verified_at,
        }
    }
}

/// Mathematical image of a node.
#[verifier::ext_equal]
pub struct NodeV {
    pub key: KeyV,
    pub record: Option<NodeRecordV>,
    pub dirtied: bool,
    pub runs: u64,
}

/// One node of the graph.
#[derive(Debug)]
pub struct Node {
    pub key: Key,
    pub record: Option<NodeRecord>,
    pub dirtied: bool,
    pub runs: u64,
}

impl View for Node {
    type V = NodeV;

    open spec fn view(&self) -> NodeV {
        NodeV {
            key: self.key@,
            record: match &self.record {
                Option::Some(rec) => Option::Some(rec@),
                Option::None => Option::None,
            },
            dirtied: self.dirtied,
            runs: self.runs,
        }
    }
}

impl DeepView for Node {
    type V = NodeV;

    open spec fn deep_view(&self) -> NodeV {
        self@
    }
}

/// The deep view of a vector of nodes, elementwise.
pub proof fn lemma_graph_nodes_deep_view(v: Vec<Node>)
    ensures
        v.deep_view().len() == v@.len(),
        forall|i: int| 0 <= i < v@.len() ==> v.deep_view()[i] == v@[i]@,
{
}

/// Mathematical image of the whole graph.
#[verifier::ext_equal]
pub struct GraphV {
    pub version: u64,
    pub env: EngineEnvV,
    pub nodes: Seq<NodeV>,
    pub staged: Seq<KeyV>,
}

/// The versioned graph: the current version, the environment pinned
/// at it, the node table, and the keys staged for invalidation by the
/// pending update transaction.
#[derive(Debug)]
pub struct VersionedGraph {
    pub version: u64,
    pub env: EngineEnv,
    pub nodes: Vec<Node>,
    pub staged: Vec<Key>,
}

impl DeepView for Key {
    type V = KeyV;

    open spec fn deep_view(&self) -> KeyV {
        self@
    }
}

/// The deep view of a vector of keys, elementwise.
pub proof fn lemma_keys_deep_view(v: Vec<Key>)
    ensures
        v.deep_view().len() == v@.len(),
        forall|i: int| 0 <= i < v@.len() ==> v.deep_view()[i] == v@[i]@,
{
}

impl View for VersionedGraph {
    type V = GraphV;

    open spec fn view(&self) -> GraphV {
        GraphV {
            version: self.version,
            env: self.env@,
            nodes: self.nodes.deep_view(),
            staged: self.staged.deep_view(),
        }
    }
}

/// The node stored for `k`: the first node with that key.
pub open spec fn spec_find_node(nodes: Seq<NodeV>, k: KeyV) -> Option<NodeV>
    decreases nodes.len(),
{
    if nodes.len() == 0 {
        Option::None
    } else if nodes[0].key == k {
        Option::Some(nodes[0])
    } else {
        spec_find_node(nodes.drop_first(), k)
    }
}

/// How many times the compute function for `k` has run.
pub open spec fn spec_runs(g: GraphV, k: KeyV) -> u64 {
    match spec_find_node(g.nodes, k) {
        Option::None => 0,
        Option::Some(n) => n.runs,
    }
}

/// Whether the node for `k` is valid at the graph's current version.
pub open spec fn spec_node_valid_now(g: GraphV, k: KeyV) -> bool {
    match spec_find_node(g.nodes, k) {
        Option::None => false,
        Option::Some(n) => match n.record {
            Option::None => false,
            Option::Some(rec) => rec.verified_at == g.version,
        },
    }
}

/// Whether the node for `k` can be promoted without re-running: it
/// has a record, was not explicitly dirtied, and all of its recorded
/// dependencies still compare equal — under each dependency's own
/// equality predicate — to their value in the current environment.
pub open spec fn spec_promotable(g: GraphV, k: KeyV) -> bool {
    match spec_find_node(g.nodes, k) {
        Option::None => false,
        Option::Some(n) => match n.record {
            Option::None => false,
            Option::Some(rec) => !n.dirtied && forall|i: int|
                0 <= i < rec.deps.len() ==> spec_key_eq(
                    #[trigger] rec.deps[i].key,
                    rec.deps[i].value,
                    spec_eval(g.env, rec.deps[i].key),
                ),
        },
    }
}

/// Well-formedness of the graph: keys are unique; records hold only
/// valid values verified no later than the current version; an
/// undirtied record agrees with the current environment; a record
/// verified at the current version is not dirtied; recorded
/// dependencies are leaf keys.
pub open spec fn wf(g: GraphV) -> bool {
    &&& forall|i: int, j: int|
        0 <= i < j < g.nodes.len() ==> (#[trigger] g.nodes[i]).key != (#[trigger] g.nodes[j]).key
    &&& forall|i: int|
        0 <= i < g.nodes.len() ==> ((#[trigger] g.nodes[i]).record matches Option::Some(rec)
            ==> spec_validity(rec.value) && rec.verified_at <= g.version)
    &&& forall|i: int|
        0 <= i < g.nodes.len() ==> ((#[trigger] g.nodes[i]).record matches Option::Some(rec)
            ==> (!g.nodes[i].dirtied ==> rec.value == spec_eval(g.env, g.nodes[i].key)))
    &&& forall|i: int|
        0 <= i < g.nodes.len() ==> ((#[trigger] g.nodes[i]).record matches Option::Some(rec)
            ==> (rec.verified_at == g.version ==> !g.nodes[i].dirtied))
    &&& forall|i: int|
        0 <= i < g.nodes.len() ==> ((#[trigger] g.nodes[i]).record matches Option::Some(rec)
            ==> forall|d: int| 0 <= d < rec.deps.len() ==> spec_is_leaf(#[trigger] rec.deps[d].key))
}

/// A first hit characterizes the found node.
proof fn lemma_find_first(nodes: Seq<NodeV>, k: KeyV, i: int)
    requires
        0 <= i < nodes.len(),
        nodes[i].key == k,
        forall|j: int| 0 <= j < i ==> nodes[j].key != k,
    ensures
        spec_find_node(nodes, k) == Option::Some(nodes[i]),
    decreases i,
{
    if i > 0 {
        assert(nodes.drop_first()[i - 1] == nodes[i]);
        assert forall|j: int| 0 <= j < i - 1 implies nodes.drop_first()[j].key != k by {
            assert(nodes.drop_first()[j] == nodes[j + 1]);
        }
        lemma_find_first(nodes.drop_first(), k, i - 1);
    }
}

/// If no node carries the key, nothing is found.
proof fn lemma_find_absent(nodes: Seq<NodeV>, k: KeyV)
    requires
        forall|j: int| 0 <= j < nodes.len() ==> nodes[j].key != k,
    ensures
        spec_find_node(nodes, k) is None,
    decreases nodes.len(),
{
    if nodes.len() > 0 {
        assert forall|j: int| 0 <= j < nodes.len() - 1 implies nodes.drop_first()[j].key != k by {
            assert(nodes.drop_first()[j] == nodes[j + 1]);
        }
        lemma_find_absent(nodes.drop_first(), k);
    }
}

/// Replacing a node in place, under the same key, does not change what
/// other keys resolve to.
proof fn lemma_find_update_other(nodes: Seq<NodeV>, i: int, n: NodeV, k: KeyV)
    requires
        0 <= i < nodes.len(),
        nodes[i].key == n.key,
        n.key != k,
    ensures
        spec_find_node(nodes.update(i, n), k) == spec_find_node(nodes, k),
    decreases nodes.len(),
{
    let upd = nodes.update(i, n);
    if i == 0 {
        assert(upd[0] == n);
        assert(upd.drop_first() =~= nodes.drop_first());
    } else {
        assert(upd[0] == nodes[0]);
        assert(upd.drop_first() =~= nodes.drop_first().update(i - 1, n));
        lemma_find_update_other(nodes.drop_first(), i - 1, n, k);
    }
}

/// Appending a node does not change what other keys resolve to, and
/// resolves its own key if it was absent.
#[verifier::rlimit(40)]
proof fn lemma_find_push(nodes: Seq<NodeV>, n: NodeV, k: KeyV)
    ensures
        spec_find_node(nodes, k) matches Option::Some(m) ==> spec_find_node(nodes.push(n), k)
            == Option::Some(m),
        spec_find_node(nodes, k) is None && n.key == k ==> spec_find_node(nodes.push(n), k)
            == Option::Some(n),
        spec_find_node(nodes, k) is None && n.key != k ==> spec_find_node(nodes.push(n), k)
            is None,
    decreases nodes.len(),
{
    if nodes.len() == 0 {
        assert(nodes.push(n).len() == 1);
        assert(nodes.push(n)[0] == n);
        assert(nodes.push(n).drop_first() =~= Seq::<NodeV>::empty());
        assert(spec_find_node(nodes.push(n).drop_first(), k) is None);
        if n.key != k {
            assert(spec_find_node(nodes.push(n), k) is None);
        }
    } else {
        assert(nodes.push(n)[0] == nodes[0]);
        assert(nodes.push(n).drop_first() =~= nodes.drop_first().push(n));
        lemma_find_push(nodes.drop_first(), n, k);
    }
}

/// What a node must satisfy so the graph stays well-formed.
pub open spec fn node_ok(g_version: u64, g_env: EngineEnvV, nv: NodeV) -> bool {
    nv.record matches Option::Some(rec) ==> {
        &&& spec_validity(rec.value)
        &&& rec.verified_at <= g_version
        &&& !nv.dirtied ==> rec.value == spec_eval(g_env, nv.key)
        &&& rec.verified_at == g_version ==> !nv.dirtied
        &&& forall|d: int| 0 <= d < rec.deps.len() ==> spec_is_leaf(#[trigger] rec.deps[d].key)
    }
}

/// Replacing one node in place, under its key, keeps the graph
/// well-formed when the new node is acceptable.
proof fn lemma_wf_after_update(old_g: GraphV, new_g: GraphV, i: int, nv: NodeV)
    requires
        wf(old_g),
        0 <= i < old_g.nodes.len(),
        new_g.version == old_g.version,
        new_g.env == old_g.env,
        new_g.nodes == old_g.nodes.update(i, nv),
        nv.key == old_g.nodes[i].key,
        node_ok(new_g.version, new_g.env, nv),
    ensures
        wf(new_g),
{
    assert forall|a: int, b: int| 0 <= a < b < new_g.nodes.len() implies (
    #[trigger] new_g.nodes[a]).key != (#[trigger] new_g.nodes[b]).key by {
        assert(old_g.nodes[a].key != old_g.nodes[b].key);
    }
    assert forall|j: int| 0 <= j < new_g.nodes.len() implies node_ok(
        new_g.version,
        new_g.env,
        #[trigger] new_g.nodes[j],
    ) by {
        if j != i {
            assert(new_g.nodes[j] == old_g.nodes[j]);
        }
    }
}

/// Appending a node with a fresh key keeps the graph well-formed when
/// the new node is acceptable.
proof fn lemma_wf_after_push(old_g: GraphV, new_g: GraphV, nv: NodeV)
    requires
        wf(old_g),
        new_g.version == old_g.version,
        new_g.env == old_g.env,
        new_g.nodes == old_g.nodes.push(nv),
        forall|j: int| 0 <= j < old_g.nodes.len() ==> (#[trigger] old_g.nodes[j]).key != nv.key,
        node_ok(new_g.version, new_g.env, nv),
    ensures
        wf(new_g),
{
    assert forall|a: int, b: int| 0 <= a < b < new_g.nodes.len() implies (
    #[trigger] new_g.nodes[a]).key != (#[trigger] new_g.nodes[b]).key by {
        if b < old_g.nodes.len() {
            assert(old_g.nodes[a].key != old_g.nodes[b].key);
        } else {
            assert(new_g.nodes[b] == nv);
            assert(old_g.nodes[a].key != nv.key);
        }
    }
    assert forall|j: int| 0 <= j < new_g.nodes.len() implies node_ok(
        new_g.version,
        new_g.env,
        #[trigger] new_g.nodes[j],
    ) by {
        if j < old_g.nodes.len() {
            assert(new_g.nodes[j] == old_g.nodes[j]);
        } else {
            assert(new_g.nodes[j] == nv);
        }
    }
}

/// `node_ok` everywhere, plus unique keys, gives well-formedness.
proof fn lemma_wf_fold(g: GraphV)
    requires
        forall|i: int, j: int|
            0 <= i < j < g.nodes.len() ==> (#[trigger] g.nodes[i]).key != (
            #[trigger] g.nodes[j]).key,
        forall|j: int| 0 <= j < g.nodes.len() ==> node_ok(g.version, g.env, #[trigger] g.nodes[j]),
    ensures
        wf(g),
{
}

/// Looks up the index of the node for `k`, scanning in order.
fn find_idx(nodes: &Vec<Node>, k: &Key) -> (r: Option<usize>)
    ensures
        r matches Option::Some(i) ==> i < nodes@.len() && nodes@[i as int]@.key == k@ && (forall|
            j: int,
        |
            0 <= j < i ==> nodes@[j]@.key != k@) && spec_find_node(nodes.deep_view(), k@)
            == Option::Some(nodes@[i as int]@),
        r is None ==> (forall|j: int| 0 <= j < nodes@.len() ==> nodes@[j]@.key != k@)
            && spec_find_node(nodes.deep_view(), k@) is None,
{
    let n: usize = nodes.len();
    let mut i: usize = 0;
    proof {
        lemma_graph_nodes_deep_view(*nodes);
    }
    while i < n
        invariant
            n == nodes@.len(),
            nodes.deep_view().len() == n,
            forall|j: int| 0 <= j < n ==> nodes.deep_view()[j] == nodes@[j]@,
            0 <= i <= n,
            forall|j: int| 0 <= j < i ==> nodes@[j]@.key != k@,
        decreases n - i,
    {
        if nodes[i].key.key_eq(k) {
            proof {
                lemma_find_first(nodes.deep_view(), k@, i as int);
            }
            return Option::Some(i);
        }
        i = i + 1;
    }
    proof {
        lemma_find_absent(nodes.deep_view(), k@);
    }
    Option::None
}

/// Saturating run count: one more run, capped.
pub open spec fn sat_inc(r: u64) -> u64 {
    if r == 0xffff_ffff_ffff_ffffu64 {
        r
    } else {
        (r + 1) as u64
    }
}

/// Evaluates a leaf key directly from the environment.
fn eval_leaf(env: &EngineEnv, k: &Key) -> (r: Value)
    requires
        spec_is_leaf(k@),
    ensures
        r@ == spec_eval(env@, k@),
        spec_validity(r@),
{
    match k {
        Key::ReadFile(rk) => Value::Token(FileToken { path: rk.0.clone() }),
        Key::FileOps(_) => Value::FileOps(
            FileOpsValue { cells: env.cells.clone(), ignores: env.ignores.clone() },
        ),
        Key::GetCfgConstructor => Value::CfgConstructor(env.cfg.constructor.is_some()),
        _ => vstd::pervasive::unreached(),
    }
}

impl VersionedGraph {
    /// A fresh graph over the given environment, at version zero, with
    /// no nodes and no staged invalidations.
    pub fn new(env: EngineEnv) -> (r: VersionedGraph)
        ensures
            wf(r@),
            r@.version == 0,
            r@.env == env@,
            r@.nodes.len() == 0,
            r@.staged.len() == 0,
    {
        let r = VersionedGraph { version: 0, env, nodes: Vec::new(), staged: Vec::new() };
        proof {
            lemma_graph_nodes_deep_view(r.nodes);
            lemma_keys_deep_view(r.staged);
        }
        r
    }

    /// Computes a leaf key: returns the cached value when the node is
    /// valid at the current version, promotes an undirtied record
    /// without re-running, and otherwise evaluates from the
    /// environment.
    fn compute_leaf(&mut self, k: &Key) -> (r: Value)
        requires
            spec_is_leaf(k@),
            wf(old(self)@),
        ensures
            wf(final(self)@),
            final(self)@.version == old(self)@.version,
            final(self)@.env == old(self)@.env,
            final(self)@.staged == old(self)@.staged,
            r@ == spec_eval(final(self)@.env, k@),
            spec_validity(r@),
            spec_find_node(final(self)@.nodes, k@) matches Option::Some(n) && n.record matches
                Option::Some(rec) && rec.verified_at == final(self)@.version && rec.value == r@
                && !n.dirtied,
            forall|k2: KeyV| k2 != k@ ==> spec_find_node(final(self)@.nodes, k2) == spec_find_node(
                old(self)@.nodes,
                k2,
            ),
            (match spec_find_node(old(self)@.nodes, k@) {
                Option::Some(n) => if n.record is Some && !n.dirtied {
                    spec_runs(final(self)@, k@) == n.runs
                } else {
                    spec_runs(final(self)@, k@) == sat_inc(n.runs)
                },
                Option::None => spec_runs(final(self)@, k@) == sat_inc(0),
            }),
    {
        let ghost old_nodes = self@.nodes;
        let ver: u64 = self.version;
        match find_idx(&self.nodes, k) {
            Option::Some(i) => {
                proof {
                    lemma_graph_nodes_deep_view(self.nodes);
                }
                let hit = self.nodes[i].record.is_some() && !self.nodes[i].dirtied;
                if hit {
                    // Promote: the record agrees with the current
                    // environment, so it becomes valid at this
                    // version without re-running.
                    let key2 = self.nodes[i].key.clone();
                    let runs: u64 = self.nodes[i].runs;
                    let (val, deps) = match &self.nodes[i].record {
                        Option::Some(rec) => (rec.value.clone(), clone_deps(&rec.deps)),
                        Option::None => vstd::pervasive::unreached(),
                    };
                    let out = val.clone();
                    let node = Node {
                        key: key2,
                        record: Option::Some(
                            NodeRecord { value: val, deps, verified_at: ver },
                        ),
                        dirtied: false,
                        runs,
                    };
                    let ghost nv = node@;
                    let ghost old_g = self@;
                    proof {
                        let oldnode = old_nodes[i as int];
                        assert(oldnode == old(self)@.nodes[i as int]);
                        assert(oldnode.record is Some);
                        assert(!oldnode.dirtied);
                        assert(nv.key == oldnode.key);
                        assert(nv.record matches Option::Some(r2) ==> r2.value
                            == oldnode.record.unwrap().value);
                        assert(spec_validity(nv.record.unwrap().value));
                        assert(nv.record.unwrap().value == spec_eval(self@.env, nv.key));
                        assert(nv.record.unwrap().deps == oldnode.record.unwrap().deps);
                    }
                    self.nodes[i] = node;
                    proof {
                        lemma_graph_nodes_deep_view(self.nodes);
                        assert(self@.nodes =~= old_nodes.update(i as int, nv));
                        assert(self@.nodes == old_nodes.update(i as int, nv));
                        lemma_find_first(self@.nodes, k@, i as int);
                        assert forall|k2: KeyV| k2 != k@ implies spec_find_node(self@.nodes, k2)
                            == spec_find_node(old_nodes, k2) by {
                            lemma_find_update_other(old_nodes, i as int, nv, k2);
                        }
                        assert(node_ok(self@.version, self@.env, nv));
                        lemma_wf_after_update(old_g, self@, i as int, nv);
                    }
                    out
                } else {
                    // Explicitly dirtied, or no record: re-run from
                    // the environment.
                    let key2 = self.nodes[i].key.clone();
                    let runs: u64 = self.nodes[i].runs;
                    let new_runs: u64 = if runs == 0xffff_ffff_ffff_ffffu64 {
                        runs
                    } else {
                        runs + 1
                    };
                    let val = eval_leaf(&self.env, k);
                    let out = val.clone();
                    let node = Node {
                        key: key2,
                        record: Option::Some(
                            NodeRecord { value: val, deps: Vec::new(), verified_at: ver },
                        ),
                        dirtied: false,
                        runs: new_runs,
                    };
                    let ghost nv = node@;
                    let ghost old_g = self@;
                    self.nodes[i] = node;
                    proof {
                        lemma_graph_nodes_deep_view(self.nodes);
                        assert(nv.record matches Option::Some(rec) ==> rec.deps.len() == 0);
                        assert(self@.nodes =~= old_nodes.update(i as int, nv));
                        assert(self@.nodes == old_nodes.update(i as int, nv));
                        lemma_find_first(self@.nodes, k@, i as int);
                        assert forall|k2: KeyV| k2 != k@ implies spec_find_node(self@.nodes, k2)
                            == spec_find_node(old_nodes, k2) by {
                            lemma_find_update_other(old_nodes, i as int, nv, k2);
                        }
                        assert(node_ok(self@.version, self@.env, nv));
                        lemma_wf_after_update(old_g, self@, i as int, nv);
                    }
                    out
                }
            },
            Option::None => {
                let val = eval_leaf(&self.env, k);
                let out = val.clone();
                let node = Node {
                    key: k.clone(),
                    record: Option::Some(
                        NodeRecord { value: val, deps: Vec::new(), verified_at: ver },
                    ),
                    dirtied: false,
                    runs: 1,
                };
                let ghost nv = node@;
                let ghost old_g = self@;
                self.nodes.push(node);
                proof {
                    lemma_graph_nodes_deep_view(self.nodes);
                    assert(self@.nodes =~= old_nodes.push(nv));
                    assert(self@.nodes == old_nodes.push(nv));
                    lemma_find_absent(old_nodes, k@);
                    lemma_find_push(old_nodes, nv, k@);
                    assert forall|k2: KeyV| k2 != k@ implies spec_find_node(self@.nodes, k2)
                        == spec_find_node(old_nodes, k2) by {
                        lemma_find_push(old_nodes, nv, k2);
                    }
                    assert(node_ok(self@.version, self@.env, nv));
                    lemma_wf_after_push(old_g, self@, nv);
                }
                out
            },
        }
    }

    /// Runs the compute body of a non-leaf key against the current
    /// environment, computing its dependencies through the graph and
    /// recording them.
    fn rerun_body(&mut self, k: &Key) -> (r: (Value, Vec<Dep>))
        requires
            !spec_is_leaf(k@),
            wf(old(self)@),
        ensures
            wf(final(self)@),
            final(self)@.version == old(self)@.version,
            final(self)@.env == old(self)@.env,
            final(self)@.staged == old(self)@.staged,
            r.0@ == spec_eval(final(self)@.env, k@),
            r.1.deep_view() == spec_deps(final(self)@.env, k@),
            forall|k2: KeyV| !spec_is_leaf(k2) ==> spec_find_node(final(self)@.nodes, k2)
                == spec_find_node(old(self)@.nodes, k2),
    {
        match k {
            Key::ReadDir(rk) => {
                let fov = self.compute_leaf(&Key::FileOps(FileOpsKey()));
                let mut deps: Vec<Dep> = Vec::new();
                deps.push(Dep { key: Key::FileOps(FileOpsKey()), value: fov.clone() });
                proof {
                    lemma_deps_deep_view(deps);
                    assert(deps.deep_view() =~= spec_deps(self@.env, k@));
                }
                let fo = match fov {
                    Value::FileOps(fo) => fo,
                    _ => vstd::pervasive::unreached(),
                };
                // The names the filter rejects are a by-product of
                // the delegate run; the cached value is the listing
                // alone, so callers that report rejections run the
                // delegate directly.
                let value = match crate::fileops::read_dir_delegate(
                    &fo.cells,
                    &fo.ignores,
                    &self.env.fs,
                    &rk.0,
                ) {
                    Result::Ok(listing) => Value::DirListing(listing.output),
                    Result::Err(e) => Value::Failure(ComputeFailure::FileOps { err: e }),
                };
                (value, deps)
            },
            Key::PathMetadata(pk) => {
                let fov = self.compute_leaf(&Key::FileOps(FileOpsKey()));
                let mut deps: Vec<Dep> = Vec::new();
                deps.push(Dep { key: Key::FileOps(FileOpsKey()), value: fov.clone() });
                let fo = match fov {
                    Value::FileOps(fo) => fo,
                    _ => vstd::pervasive::unreached(),
                };
                match crate::fileops::metadata_delegate(&fo.cells, &self.env.fs, &pk.0) {
                    Result::Ok(m) => {
                        // Metadata of a symlink additionally depends
                        // on the file key of the symlink's own path,
                        // whose equality predicate never holds: any
                        // invalidation there forces a re-read.
                        let is_symlink_at: Option<CellPath> = match &m {
                            Option::Some(RawPathMetadata::Symlink { at, .. }) => Option::Some(
                                at.clone(),
                            ),
                            _ => Option::None,
                        };
                        let value = Value::Metadata(m);
                        match is_symlink_at {
                            Option::Some(at) => {
                                let tk = Key::ReadFile(ReadFileKey(at));
                                let tv = self.compute_leaf(&tk);
                                deps.push(Dep { key: tk, value: tv });
                                proof {
                                    lemma_deps_deep_view(deps);
                                    assert(deps.deep_view() =~= spec_deps(self@.env, k@));
                                }
                                (value, deps)
                            },
                            Option::None => {
                                proof {
                                    lemma_deps_deep_view(deps);
                                    assert(deps.deep_view() =~= spec_deps(self@.env, k@));
                                }
                                (value, deps)
                            },
                        }
                    },
                    Result::Err(e) => {
                        let value = Value::Failure(ComputeFailure::FileOps { err: e });
                        proof {
                            lemma_deps_deep_view(deps);
                            assert(deps.deep_view() =~= spec_deps(self@.env, k@));
                        }
                        (value, deps)
                    },
                }
            },
            Key::CfgInvocation(data) => {
                let cv = self.compute_leaf(&Key::GetCfgConstructor);
                let mut deps: Vec<Dep> = Vec::new();
                deps.push(Dep { key: Key::GetCfgConstructor, value: cv.clone() });
                proof {
                    lemma_deps_deep_view(deps);
                    assert(deps.deep_view() =~= spec_deps(self@.env, k@));
                }
                let installed = match cv {
                    Value::CfgConstructor(b) => b,
                    _ => vstd::pervasive::unreached(),
                };
                let value = if !installed {
                    Value::Failure(ComputeFailure::CfgConstructorMissing)
                } else {
                    match self.env.cfg.lookup(data) {
                        Option::Some(out) => Value::Configuration(out),
                        Option::None => Value::Failure(ComputeFailure::CfgEvalFailed),
                    }
                };
                (value, deps)
            },
            _ => vstd::pervasive::unreached(),
        }
    }

    /// Stores the outcome of a re-run: a valid value becomes the
    /// node's record at the current version; a failure leaves no
    /// record behind. The run counter advances either way.
    fn store_run(&mut self, k: &Key, value: Value, deps: Vec<Dep>) -> (r: Value)
        requires
            wf(old(self)@),
            value@ == spec_eval(old(self)@.env, k@),
            deps.deep_view() == spec_deps(old(self)@.env, k@),
            forall|d: int|
                0 <= d < deps.deep_view().len() ==> spec_is_leaf(#[trigger] deps.deep_view()[d].key),
        ensures
            wf(final(self)@),
            final(self)@.version == old(self)@.version,
            final(self)@.env == old(self)@.env,
            final(self)@.staged == old(self)@.staged,
            r@ == spec_eval(final(self)@.env, k@),
            spec_runs(final(self)@, k@) == sat_inc(spec_runs(old(self)@, k@)),
            spec_validity(r@) ==> spec_node_valid_now(final(self)@, k@),
            forall|k2: KeyV| k2 != k@ ==> spec_find_node(final(self)@.nodes, k2) == spec_find_node(
                old(self)@.nodes,
                k2,
            ),
    {
        let ghost old_nodes = self@.nodes;
        let ver: u64 = self.version;
        let valid = match &value {
            Value::Failure(_) => false,
            _ => true,
        };
        let out = value.clone();
        let record = if valid {
            Option::Some(NodeRecord { value, deps, verified_at: ver })
        } else {
            Option::None
        };
        match find_idx(&self.nodes, k) {
            Option::Some(i) => {
                proof {
                    lemma_graph_nodes_deep_view(self.nodes);
                }
                let key2 = self.nodes[i].key.clone();
                let runs: u64 = self.nodes[i].runs;
                let new_runs: u64 = if runs == 0xffff_ffff_ffff_ffffu64 {
                    runs
                } else {
                    runs + 1
                };
                let node = Node { key: key2, record, dirtied: false, runs: new_runs };
                let ghost nv = node@;
                let ghost old_g = self@;
                self.nodes[i] = node;
                proof {
                    lemma_graph_nodes_deep_view(self.nodes);
                    assert(self@.nodes =~= old_nodes.update(i as int, nv));
                    assert(self@.nodes == old_nodes.update(i as int, nv));
                    lemma_find_first(self@.nodes, k@, i as int);
                    assert forall|k2: KeyV| k2 != k@ implies spec_find_node(self@.nodes, k2)
                        == spec_find_node(old_nodes, k2) by {
                        lemma_find_update_other(old_nodes, i as int, nv, k2);
                    }
                    assert(node_ok(self@.version, self@.env, nv));
                    lemma_wf_after_update(old_g, self@, i as int, nv);
                }
                out
            },
            Option::None => {
                let node = Node { key: k.clone(), record, dirtied: false, runs: 1 };
                let ghost nv = node@;
                let ghost old_g = self@;
                self.nodes.push(node);
                proof {
                    lemma_graph_nodes_deep_view(self.nodes);
                    assert(self@.nodes =~= old_nodes.push(nv));
                    assert(self@.nodes == old_nodes.push(nv));
                    lemma_find_absent(old_nodes, k@);
                    lemma_find_push(old_nodes, nv, k@);
                    assert forall|k2: KeyV| k2 != k@ implies spec_find_node(self@.nodes, k2)
                        == spec_find_node(old_nodes, k2) by {
                        lemma_find_push(old_nodes, nv, k2);
                    }
                    assert(node_ok(self@.version, self@.env, nv));
                    lemma_wf_after_push(old_g, self@, nv);
                }
                out
            },
        }
    }

    /// Computes the value of `k` at the current version.
    ///
    /// Within one version the result is determined by the pinned
    /// environment, so repeated computation returns equal values; a
    /// node valid at the current version is served from the cache
    /// without re-running its compute function; an undirtied node
    /// whose recorded dependencies all still compare equal — under
    /// each dependency's own equality predicate — is promoted without
    /// re-running ("early cutoff"); and failure values are returned
    /// but never cached.
    pub fn compute(&mut self, k: &Key) -> (r: Value)
        requires
            wf(old(self)@),
        ensures
            wf(final(self)@),
            final(self)@.version == old(self)@.version,
            final(self)@.env == old(self)@.env,
            final(self)@.staged == old(self)@.staged,
            r@ == spec_eval(final(self)@.env, k@),
            spec_node_valid_now(old(self)@, k@) ==> spec_runs(final(self)@, k@) == spec_runs(
                old(self)@,
                k@,
            ),
            spec_promotable(old(self)@, k@) ==> spec_runs(final(self)@, k@) == spec_runs(
                old(self)@,
                k@,
            ),
            spec_validity(r@) ==> spec_node_valid_now(final(self)@, k@),
            forall|k2: KeyV| k2 != k@ && !spec_is_leaf(k2) ==> spec_find_node(
                final(self)@.nodes,
                k2,
            ) == spec_find_node(old(self)@.nodes, k2),
    {
        let ghost old_g = self@;
        let is_leaf = match k {
            Key::ReadFile(_) => true,
            Key::FileOps(_) => true,
            Key::GetCfgConstructor => true,
            _ => false,
        };
        proof {
            assert(is_leaf == spec_is_leaf(k@));
        }
        if is_leaf {
            let r = self.compute_leaf(k);
            proof {
                if spec_node_valid_now(old_g, k@) || spec_promotable(old_g, k@) {
                    let n = spec_find_node(old_g.nodes, k@).unwrap();
                    assert(n.record is Some);
                    if spec_node_valid_now(old_g, k@) {
                        // A record valid at the current version is
                        // never dirtied.
                        assert(exists|i: int|
                            0 <= i < old_g.nodes.len() && old_g.nodes[i] == n) by {
                            lemma_find_mem(old_g.nodes, k@);
                        }
                        let i = choose|i: int|
                            0 <= i < old_g.nodes.len() && old_g.nodes[i] == n;
                        assert(old_g.nodes[i].record matches Option::Some(rec)
                            ==> (rec.verified_at == old_g.version ==> !old_g.nodes[i].dirtied));
                        assert(!n.dirtied);
                    }
                    assert(!n.dirtied);
                }
            }
            return r;
        }
        match find_idx(&self.nodes, k) {
            Option::Some(i) => {
                proof {
                    lemma_graph_nodes_deep_view(self.nodes);
                    assert(spec_find_node(old_g.nodes, k@) == Option::Some(
                        old_g.nodes[i as int],
                    ));
                }
                let ghost oldnode = old_g.nodes[i as int];
                let valid_now = match &self.nodes[i].record {
                    Option::Some(rec) => rec.verified_at == self.version,
                    Option::None => false,
                };
                if valid_now {
                    // Served from the cache: the record is valid at
                    // the current version.
                    let val = match &self.nodes[i].record {
                        Option::Some(rec) => rec.value.clone(),
                        Option::None => vstd::pervasive::unreached(),
                    };
                    proof {
                        let oldnode = old_g.nodes[i as int];
                        assert(oldnode == old(self)@.nodes[i as int]);
                        assert(!oldnode.dirtied);
                        assert(val@ == spec_eval(self@.env, k@));
                    }
                    return val;
                }
                let can_check = self.nodes[i].record.is_some() && !self.nodes[i].dirtied;
                if can_check {
                    let deps = match &self.nodes[i].record {
                        Option::Some(rec) => clone_deps(&rec.deps),
                        Option::None => vstd::pervasive::unreached(),
                    };
                    let ghost depsv = deps.deep_view();
                    proof {
                        lemma_deps_deep_view(deps);
                        let oldnode = old_g.nodes[i as int];
                        assert(oldnode == old(self)@.nodes[i as int]);
                        assert(oldnode.record matches Option::Some(rec) ==> forall|d: int|
                            0 <= d < rec.deps.len() ==> spec_is_leaf(#[trigger] rec.deps[d].key));
                        assert(depsv == oldnode.record.unwrap().deps);
                    }
                    let nd: usize = deps.len();
                    let mut j: usize = 0;
                    let mut all_eq = true;
                    proof {
                        assert(!spec_is_leaf(k@));
                        assert(spec_find_node(old_g.nodes, k@) == Option::Some(oldnode));
                        assert(oldnode.record is Some);
                        assert(!oldnode.dirtied);
                    }
                    while j < nd
                        invariant
                            nd == deps@.len(),
                            depsv == deps.deep_view(),
                            depsv.len() == nd,
                            forall|t: int| 0 <= t < nd ==> depsv[t] == deps@[t]@,
                            forall|t: int| 0 <= t < nd ==> spec_is_leaf(#[trigger] depsv[t].key),
                            0 <= j <= nd,
                            wf(self@),
                            !spec_is_leaf(k@),
                            self@.version == old_g.version,
                            self@.env == old_g.env,
                            self@.staged == old_g.staged,
                            spec_find_node(old_g.nodes, k@) == Option::Some(oldnode),
                            oldnode.record is Some,
                            !oldnode.dirtied,
                            depsv == oldnode.record.unwrap().deps,
                            all_eq ==> forall|t: int|
                                0 <= t < j ==> spec_key_eq(
                                    #[trigger] depsv[t].key,
                                    depsv[t].value,
                                    spec_eval(old_g.env, depsv[t].key),
                                ),
                            spec_promotable(old_g, k@) ==> all_eq,
                            !all_eq ==> !spec_promotable(old_g, k@),
                            forall|k2: KeyV| !spec_is_leaf(k2) ==> spec_find_node(
                                self@.nodes,
                                k2,
                            ) == spec_find_node(old_g.nodes, k2),
                        decreases nd - j,
                    {
                        if all_eq {
                            proof {
                                assert(deps@[j as int]@ == depsv[j as int]);
                                assert(spec_is_leaf(depsv[j as int].key));
                            }
                            let dv = self.compute_leaf(&deps[j].key);
                            let e = value_eq_for_key(&deps[j].key, &deps[j].value, &dv);
                            if !e {
                                proof {
                                    assert(!spec_key_eq(
                                        depsv[j as int].key,
                                        depsv[j as int].value,
                                        spec_eval(old_g.env, depsv[j as int].key),
                                    ));
                                    assert(!spec_promotable(old_g, k@));
                                }
                                all_eq = false;
                            }
                        }
                        j = j + 1;
                    }
                    if all_eq {
                        // Early cutoff: every recorded dependency
                        // still compares equal, so the node is
                        // promoted to the current version without
                        // re-running its compute function.
                        match find_idx(&self.nodes, k) {
                            Option::Some(i2) => {
                                proof {
                                    lemma_graph_nodes_deep_view(self.nodes);
                                }
                                let ghost mid_nodes = self@.nodes;
                                let ver: u64 = self.version;
                                let key2 = self.nodes[i2].key.clone();
                                let runs: u64 = self.nodes[i2].runs;
                                let (val, deps2) = match &self.nodes[i2].record {
                                    Option::Some(rec) => (rec.value.clone(), clone_deps(&rec.deps)),
                                    Option::None => vstd::pervasive::unreached(),
                                };
                                let out = val.clone();
                                let node = Node {
                                    key: key2,
                                    record: Option::Some(
                                        NodeRecord { value: val, deps: deps2, verified_at: ver },
                                    ),
                                    dirtied: false,
                                    runs,
                                };
                                let ghost nv = node@;
                                let ghost mid_g = self@;
                                proof {
                                    let midnode = mid_g.nodes[i2 as int];
                                    assert(!spec_is_leaf(k@));
                                    assert(spec_find_node(mid_g.nodes, k@) == spec_find_node(
                                        old_g.nodes,
                                        k@,
                                    ));
                                    lemma_find_first(mid_g.nodes, k@, i2 as int);
                                    assert(midnode == oldnode);
                                    assert(midnode.record is Some);
                                    assert(!midnode.dirtied);
                                    assert(nv.record.unwrap().value == spec_eval(mid_g.env, nv.key));
                                }
                                self.nodes[i2] = node;
                                proof {
                                    lemma_graph_nodes_deep_view(self.nodes);
                                    assert(self@.nodes =~= mid_nodes.update(i2 as int, nv));
                                    assert(self@.nodes == mid_nodes.update(i2 as int, nv));
                                    lemma_find_first(self@.nodes, k@, i2 as int);
                                    assert forall|k2: KeyV| k2 != k@ implies spec_find_node(
                                        self@.nodes,
                                        k2,
                                    ) == spec_find_node(mid_nodes, k2) by {
                                        lemma_find_update_other(mid_nodes, i2 as int, nv, k2);
                                    }
                                    assert(node_ok(self@.version, self@.env, nv));
                                    lemma_wf_after_update(mid_g, self@, i2 as int, nv);
                                    assert(spec_runs(self@, k@) == old_g.nodes[i as int].runs);
                                }
                                out
                            },
                            Option::None => {
                                proof {
                                    assert(!spec_is_leaf(k@));
                                    assert(spec_find_node(self@.nodes, k@) == spec_find_node(
                                        old_g.nodes,
                                        k@,
                                    ));
                                }
                                vstd::pervasive::unreached()
                            },
                        }
                    } else {
                        // A dependency changed: re-run the compute
                        // function against the current environment.
                        proof {
                            assert(!spec_promotable(old_g, k@));
                        }
                        let (value, deps3) = self.rerun_body(k);
                        proof {
                            lemma_deps_deep_view(deps3);
                            lemma_spec_deps_leaf(self@.env, k@);
                        }
                        self.store_run(k, value, deps3)
                    }
                } else {
                    // Explicitly dirtied: the node's own observation
                    // of the environment changed, so it must re-run.
                    proof {
                        let oldnode = old_g.nodes[i as int];
                        assert(oldnode == old(self)@.nodes[i as int]);
                        assert(!spec_promotable(old_g, k@));
                        assert(!spec_node_valid_now(old_g, k@));
                    }
                    let (value, deps3) = self.rerun_body(k);
                    proof {
                        lemma_spec_deps_leaf(self@.env, k@);
                    }
                    self.store_run(k, value, deps3)
                }
            },
            Option::None => {
                let (value, deps3) = self.rerun_body(k);
                proof {
                    lemma_spec_deps_leaf(self@.env, k@);
                }
                self.store_run(k, value, deps3)
            },
        }
    }
}

/// Whether a staged list holds a key.
fn staged_contains(staged: &Vec<Key>, k: &Key) -> (r: bool)
    ensures
        r == staged.deep_view().contains(k@),
{
    let n: usize = staged.len();
    let mut i: usize = 0;
    proof {
        lemma_keys_deep_view(*staged);
    }
    while i < n
        invariant
            n == staged@.len(),
            staged.deep_view().len() == n,
            forall|j: int| 0 <= j < n ==> staged.deep_view()[j] == staged@[j]@,
            0 <= i <= n,
            forall|j: int| 0 <= j < i ==> staged.deep_view()[j] != k@,
        decreases n - i,
    {
        if staged[i].key_eq(k) {
            proof {
                assert(staged.deep_view()[i as int] == k@);
            }
            return true;
        }
        i = i + 1;
    }
    proof {
        if staged.deep_view().contains(k@) {
            let w = choose|w: int|
                0 <= w < staged.deep_view().len() && staged.deep_view()[w] == k@;
            assert(false);
        }
    }
    false
}

impl VersionedGraph {
    /// Computes several keys. Each result equals its key's value
    /// under the pinned environment, so the order in which the keys
    /// are evaluated cannot be observed in the results; the graph
    /// runs each key's compute function at most once per version
    /// however many keys request it.
    pub fn compute_many(&mut self, keys: &Vec<Key>) -> (rs: Vec<Value>)
        requires
            wf(old(self)@),
        ensures
            wf(final(self)@),
            final(self)@.version == old(self)@.version,
            final(self)@.env == old(self)@.env,
            final(self)@.staged == old(self)@.staged,
            rs@.len() == keys@.len(),
            forall|i: int|
                0 <= i < keys@.len() ==> (#[trigger] rs@[i])@ == spec_eval(
                    final(self)@.env,
                    keys@[i]@,
                ),
    {
        let n: usize = keys.len();
        let mut rs: Vec<Value> = Vec::new();
        let mut i: usize = 0;
        while i < n
            invariant
                n == keys@.len(),
                0 <= i <= n,
                wf(self@),
                self@.version == old(self)@.version,
                self@.env == old(self)@.env,
                self@.staged == old(self)@.staged,
                rs@.len() == i,
                forall|j: int|
                    0 <= j < i ==> (#[trigger] rs@[j])@ == spec_eval(self@.env, keys@[j]@),
            decreases n - i,
        {
            let v = self.compute(&keys[i]);
            rs.push(v);
            i = i + 1;
        }
        rs
    }

    /// How many times the compute function for `k` has run.
    pub fn run_count(&self, k: &Key) -> (r: u64)
        ensures
            r == spec_runs(self@, k@),
    {
        match find_idx(&self.nodes, k) {
            Option::Some(i) => self.nodes[i].runs,
            Option::None => 0,
        }
    }

    /// How many nodes the graph holds.
    pub fn node_count(&self) -> (r: usize)
        ensures
            r == self@.nodes.len(),
    {
        proof {
            lemma_graph_nodes_deep_view(self.nodes);
        }
        self.nodes.len()
    }

    /// Stages keys for invalidation: they take effect, together and
    /// atomically, at the next commit.
    pub fn changed(&mut self, keys: Vec<Key>)
        ensures
            final(self)@.staged == old(self)@.staged + keys.deep_view(),
            final(self)@.nodes == old(self)@.nodes,
            final(self)@.env == old(self)@.env,
            final(self)@.version == old(self)@.version,
            wf(old(self)@) ==> wf(final(self)@),
    {
        let ghost old_staged = self@.staged;
        let ghost keysv = keys.deep_view();
        let mut keys = keys;
        proof {
            lemma_keys_deep_view(keys);
            lemma_keys_deep_view(self.staged);
        }
        self.staged.append(&mut keys);
        proof {
            lemma_keys_deep_view(self.staged);
            assert(self@.staged =~= old_staged + keysv);
            assert(self@.nodes =~= old(self)@.nodes);
        }
    }

    /// Commits the pending update transaction: the graph moves to the
    /// next version, pinned to the new environment, and every staged
    /// key's node becomes dirty. The caller warrants that the new
    /// environment changes the direct value of staged keys only — the
    /// invalidation discipline that the file-change tracker
    /// discharges for filesystem events.
    pub fn commit(&mut self, new_env: EngineEnv)
        requires
            wf(old(self)@),
            old(self)@.version < 0xffff_ffff_ffff_ffffu64,
            forall|k2: KeyV|
                !old(self)@.staged.contains(k2) ==> spec_eval(new_env@, k2) == spec_eval(
                    old(self)@.env,
                    k2,
                ),
        ensures
            wf(final(self)@),
            final(self)@.version == old(self)@.version + 1,
            final(self)@.env == new_env@,
            final(self)@.staged.len() == 0,
            final(self)@.nodes.len() == old(self)@.nodes.len(),
            forall|i: int|
                0 <= i < old(self)@.nodes.len() ==> {
                    let o = #[trigger] old(self)@.nodes[i];
                    let f = final(self)@.nodes[i];
                    f.key == o.key && f.record == o.record && f.runs == o.runs && f.dirtied == (
                    o.dirtied || old(self)@.staged.contains(o.key))
                },
    {
        let ghost old_g = self@;
        let n: usize = self.nodes.len();
        let mut i: usize = 0;
        proof {
            lemma_graph_nodes_deep_view(self.nodes);
        }
        while i < n
            invariant
                n == self.nodes@.len(),
                self@.nodes.len() == n,
                old_g.nodes.len() == n,
                0 <= i <= n,
                self@.version == old_g.version,
                self@.env == old_g.env,
                self@.staged == old_g.staged,
                forall|t: int|
                    0 <= t < i ==> {
                        let o = #[trigger] old_g.nodes[t];
                        let f = self@.nodes[t];
                        f.key == o.key && f.record == o.record && f.runs == o.runs && f.dirtied
                            == (o.dirtied || old_g.staged.contains(o.key))
                    },
                forall|t: int| i <= t < n ==> #[trigger] self@.nodes[t] == old_g.nodes[t],
            decreases n - i,
        {
            let ghost before = self@.nodes;
            let d = staged_contains(&self.staged, &self.nodes[i].key);
            proof {
                lemma_graph_nodes_deep_view(self.nodes);
                assert(self.nodes@[i as int]@ == old_g.nodes[i as int]);
            }
            if d {
                self.nodes[i].dirtied = true;
                proof {
                    lemma_graph_nodes_deep_view(self.nodes);
                    assert forall|t: int| 0 <= t < n && t != i implies self@.nodes[t] == before[t]
                        by {
                        assert(self.nodes@[t]@ == before[t]);
                    }
                }
            }
            i = i + 1;
        }
        let ghost mid_nodes = self@.nodes;
        self.version = self.version + 1;
        self.env = new_env;
        self.staged = Vec::new();
        proof {
            lemma_keys_deep_view(self.staged);
            assert(self@.nodes == mid_nodes);
            assert forall|j: int| 0 <= j < n implies node_ok(
                self@.version,
                self@.env,
                #[trigger] self@.nodes[j],
            ) by {
                let o = old_g.nodes[j];
                let f = self@.nodes[j];
                assert(o.record matches Option::Some(rec) ==> rec.verified_at <= old_g.version);
                if f.record is Some && !f.dirtied {
                    assert(!o.dirtied);
                    assert(!old_g.staged.contains(o.key));
                    assert(o.record.unwrap().value == spec_eval(old_g.env, o.key));
                    assert(spec_eval(self@.env, o.key) == spec_eval(old_g.env, o.key));
                }
            }
            assert forall|a: int, b: int| 0 <= a < b < self@.nodes.len() implies (
            #[trigger] self@.nodes[a]).key != (#[trigger] self@.nodes[b]).key by {
                assert(old_g.nodes[a].key != old_g.nodes[b].key);
                assert(self@.nodes[a].key == old_g.nodes[a].key);
                assert(self@.nodes[b].key == old_g.nodes[b].key);
            }
            lemma_wf_fold(self@);
        }
    }
}

/// Repeated computation of a key within one transaction is
/// deterministic: any two results both equal the key's value under
/// the pinned environment, and so equal each other.
pub proof fn lemma_compute_deterministic(env: EngineEnvV, k: KeyV, v1: ValueV, v2: ValueV)
    requires
        v1 == spec_eval(env, k),
        v2 == spec_eval(env, k),
    ensures
        v1 == v2,
{
}

/// Metadata that reports a symlink records a file-key dependency on
/// the symlink's own path.
pub proof fn lemma_symlink_records_file_dep(env: EngineEnvV, p: CellPathV)
    requires
        spec_eval(env, KeyV::PathMetadata { path: p }) matches ValueV::Metadata { meta } && meta
            matches Option::Some(RawPathMetadataV::Symlink { at, to }),
    ensures
        spec_deps(env, KeyV::PathMetadata { path: p }).len() == 2,
        spec_deps(env, KeyV::PathMetadata { path: p })[1].key matches KeyV::ReadFile { path },
{
}

/// A node that recorded a file-key dependency can never be promoted
/// by early cutoff: the file key's equality predicate never holds, so
/// any invalidation of the file forces the dependent to re-run. This
/// is how changing the content under a symlink's path invalidates the
/// symlink's metadata.
pub proof fn lemma_file_dep_forces_rerun(g: GraphV, k: KeyV, d: int)
    requires
        spec_find_node(g.nodes, k) matches Option::Some(n) && n.record matches Option::Some(rec)
            && 0 <= d < rec.deps.len() && rec.deps[d].key matches KeyV::ReadFile { path },
    ensures
        !spec_promotable(g, k),
{
    let n = spec_find_node(g.nodes, k).unwrap();
    let rec = n.record.unwrap();
    assert(!spec_key_eq(rec.deps[d].key, rec.deps[d].value, spec_eval(g.env, rec.deps[d].key)));
}

/// A found node is one of the graph's nodes.
proof fn lemma_find_mem(nodes: Seq<NodeV>, k: KeyV)
    ensures
        spec_find_node(nodes, k) matches Option::Some(n) ==> exists|i: int|
            0 <= i < nodes.len() && nodes[i] == n && nodes[i].key == k,
    decreases nodes.len(),
{
    if nodes.len() > 0 {
        if nodes[0].key == k {
        } else {
            lemma_find_mem(nodes.drop_first(), k);
            if spec_find_node(nodes, k) is Some {
                let n = spec_find_node(nodes, k).unwrap();
                let i = choose|i: int|
                    0 <= i < nodes.drop_first().len() && nodes.drop_first()[i] == n
                        && nodes.drop_first()[i].key == k;
                assert(nodes[i + 1] == n);
            }
        }
    }
}

/// The memoized cell-aware delegate, resolved through its graph node.
pub fn get_default_file_ops(g: &mut VersionedGraph) -> (r: FileOpsValue)
    requires
        wf(old(g)@),
    ensures
        wf(final(g)@),
        final(g)@.version == old(g)@.version,
        final(g)@.env == old(g)@.env,
        final(g)@.staged == old(g)@.staged,
        r@.cells == final(g)@.env.cells,
        r@.ignores == final(g)@.env.ignores,
        forall|k2: KeyV| !spec_is_leaf(k2) ==> spec_find_node(final(g)@.nodes, k2)
            == spec_find_node(old(g)@.nodes, k2),
{
    let v = g.compute(&Key::FileOps(FileOpsKey()));
    match v {
        Value::FileOps(fo) => fo,
        _ => vstd::pervasive::unreached(),
    }
}

/// Functions for accessing files through keys on the graph.
pub struct DiceFileComputations;

impl DiceFileComputations {
    /// The directory listing at `path`, memoized under its graph key:
    /// the canonical filtered, sorted output, or the delegate's error.
    pub fn read_dir(g: &mut VersionedGraph, path: &CellPath) -> (r: Result<
        ReadDirOutput,
        FileOpsError,
    >)
        requires
            wf(old(g)@),
        ensures
            wf(final(g)@),
            final(g)@.version == old(g)@.version,
            final(g)@.env == old(g)@.env,
            final(g)@.staged == old(g)@.staged,
            (match r {
                Result::Ok(out) => crate::fileops::spec_read_dir_delegate(
                    final(g)@.env.cells,
                    final(g)@.env.ignores,
                    final(g)@.env.fs,
                    path@,
                ) == Result::<Seq<DirEntryV>, FileOpsErrorV>::Ok(out@),
                Result::Err(e) => crate::fileops::spec_read_dir_delegate(
                    final(g)@.env.cells,
                    final(g)@.env.ignores,
                    final(g)@.env.fs,
                    path@,
                ) == Result::<Seq<DirEntryV>, FileOpsErrorV>::Err(e@),
            }),
    {
        let v = g.compute(&Key::ReadDir(ReadDirKey(path.clone())));
        match v {
            Value::DirListing(out) => Result::Ok(out),
            Value::Failure(ComputeFailure::FileOps { err }) => Result::Err(err),
            _ => vstd::pervasive::unreached(),
        }
    }

    /// The file contents at `path`, if the file exists: the graph
    /// memoizes only the transient token, and the bytes are re-read
    /// through the delegate.
    pub fn read_file_if_exists(g: &mut VersionedGraph, path: &CellPath) -> (r: Result<
        Option<Vec<u8>>,
        FileOpsError,
    >)
        requires
            wf(old(g)@),
        ensures
            wf(final(g)@),
            final(g)@.version == old(g)@.version,
            final(g)@.env == old(g)@.env,
            final(g)@.staged == old(g)@.staged,
            (match r {
                Result::Ok(Option::Some(c)) => crate::fileops::spec_read_file_delegate(
                    final(g)@.env.cells,
                    final(g)@.env.fs,
                    path@,
                ) == Result::<Option<Seq<u8>>, FileOpsErrorV>::Ok(Option::Some(c@)),
                Result::Ok(Option::None) => crate::fileops::spec_read_file_delegate(
                    final(g)@.env.cells,
                    final(g)@.env.fs,
                    path@,
                ) == Result::<Option<Seq<u8>>, FileOpsErrorV>::Ok(Option::<Seq<u8>>::None),
                Result::Err(e) => crate::fileops::spec_read_file_delegate(
                    final(g)@.env.cells,
                    final(g)@.env.fs,
                    path@,
                ) == Result::<Option<Seq<u8>>, FileOpsErrorV>::Err(e@),
            }),
    {
        let fo = get_default_file_ops(g);
        let v = g.compute(&Key::ReadFile(ReadFileKey(path.clone())));
        let token = match v {
            Value::Token(t) => t,
            _ => vstd::pervasive::unreached(),
        };
        token.read_if_exists(&fo, &g.env.fs)
    }

    /// The file contents at `path`; a missing file is an error.
    pub fn read_file(g: &mut VersionedGraph, path: &CellPath) -> (r: Result<Vec<u8>, FileOpsError>)
        requires
            wf(old(g)@),
        ensures
            wf(final(g)@),
            final(g)@.version == old(g)@.version,
            final(g)@.env == old(g)@.env,
            final(g)@.staged == old(g)@.staged,
            (match r {
                Result::Ok(c) => crate::fileops::spec_read_file_delegate(
                    final(g)@.env.cells,
                    final(g)@.env.fs,
                    path@,
                ) == Result::<Option<Seq<u8>>, FileOpsErrorV>::Ok(Option::Some(c@)),
                Result::Err(e) => (crate::fileops::spec_read_file_delegate(
                    final(g)@.env.cells,
                    final(g)@.env.fs,
                    path@,
                ) == Result::<Option<Seq<u8>>, FileOpsErrorV>::Err(e@)) || (e@ matches
                    crate::fileops::FileOpsErrorV::FileNotFound { path: q } && q == path@
                    && crate::fileops::spec_read_file_delegate(
                    final(g)@.env.cells,
                    final(g)@.env.fs,
                    path@,
                ) == Result::<Option<Seq<u8>>, FileOpsErrorV>::Ok(Option::<Seq<u8>>::None)),
            }),
    {
        match Self::read_file_if_exists(g, path) {
            Result::Ok(Option::Some(c)) => Result::Ok(c),
            Result::Ok(Option::None) => Result::Err(
                FileOpsError::FileNotFound { path: path.clone() },
            ),
            Result::Err(e) => Result::Err(e),
        }
    }

    /// The metadata at `path`, memoized under its graph key.
    pub fn read_path_metadata_if_exists(g: &mut VersionedGraph, path: &CellPath) -> (r: Result<
        Option<RawPathMetadata>,
        FileOpsError,
    >)
        requires
            wf(old(g)@),
        ensures
            wf(final(g)@),
            final(g)@.version == old(g)@.version,
            final(g)@.env == old(g)@.env,
            final(g)@.staged == old(g)@.staged,
            (match r {
                Result::Ok(Option::Some(m)) => crate::fileops::spec_metadata_delegate(
                    final(g)@.env.cells,
                    final(g)@.env.fs,
                    path@,
                ) == Result::<Option<RawPathMetadataV>, FileOpsErrorV>::Ok(Option::Some(m@)),
                Result::Ok(Option::None) => crate::fileops::spec_metadata_delegate(
                    final(g)@.env.cells,
                    final(g)@.env.fs,
                    path@,
                ) == Result::<Option<RawPathMetadataV>, FileOpsErrorV>::Ok(
                    Option::<RawPathMetadataV>::None,
                ),
                Result::Err(e) => crate::fileops::spec_metadata_delegate(
                    final(g)@.env.cells,
                    final(g)@.env.fs,
                    path@,
                ) == Result::<Option<RawPathMetadataV>, FileOpsErrorV>::Err(e@),
            }),
    {
        let v = g.compute(&Key::PathMetadata(PathMetadataKey(path.clone())));
        match v {
            Value::Metadata(m) => Result::Ok(m),
            Value::Failure(ComputeFailure::FileOps { err }) => Result::Err(err),
            _ => vstd::pervasive::unreached(),
        }
    }

    /// The metadata at `path`; an absent path is an error.
    pub fn read_path_metadata(g: &mut VersionedGraph, path: &CellPath) -> (r: Result<
        RawPathMetadata,
        FileOpsError,
    >)
        requires
            wf(old(g)@),
        ensures
            wf(final(g)@),
            final(g)@.version == old(g)@.version,
            final(g)@.env == old(g)@.env,
            final(g)@.staged == old(g)@.staged,
            (match r {
                Result::Ok(m) => crate::fileops::spec_metadata_delegate(
                    final(g)@.env.cells,
                    final(g)@.env.fs,
                    path@,
                ) == Result::<Option<RawPathMetadataV>, FileOpsErrorV>::Ok(Option::Some(m@)),
                Result::Err(e) => (crate::fileops::spec_metadata_delegate(
                    final(g)@.env.cells,
                    final(g)@.env.fs,
                    path@,
                ) == Result::<Option<RawPathMetadataV>, FileOpsErrorV>::Err(e@)) || (e@ matches
                    crate::fileops::FileOpsErrorV::FileNotFound { path: q } && q == path@
                    && crate::fileops::spec_metadata_delegate(
                    final(g)@.env.cells,
                    final(g)@.env.fs,
                    path@,
                ) == Result::<Option<RawPathMetadataV>, FileOpsErrorV>::Ok(
                    Option::<RawPathMetadataV>::None,
                )),
            }),
    {
        match Self::read_path_metadata_if_exists(g, path) {
            Result::Ok(Option::Some(m)) => Result::Ok(m),
            Result::Ok(Option::None) => Result::Err(
                FileOpsError::FileNotFound { path: path.clone() },
            ),
            Result::Err(e) => Result::Err(e),
        }
    }
}

/// A borrow of the graph for places that want plain file operations;
/// in general, using `DiceFileComputations` directly is better.
pub struct DiceFileOps<'a>(pub &'a mut VersionedGraph);

impl DiceFileOps<'_> {
    /// The file contents at `path`, if the file exists.
    pub fn read_file_if_exists(&mut self, path: &CellPath) -> (r: Result<
        Option<Vec<u8>>,
        FileOpsError,
    >)
        requires
            wf(old(self).0@),
        ensures
            wf(final(self).0@),
            final(self).0@.env == old(self).0@.env,
            (match r {
                Result::Ok(Option::Some(c)) => crate::fileops::spec_read_file_delegate(
                    final(self).0@.env.cells,
                    final(self).0@.env.fs,
                    path@,
                ) == Result::<Option<Seq<u8>>, FileOpsErrorV>::Ok(Option::Some(c@)),
                Result::Ok(Option::None) => crate::fileops::spec_read_file_delegate(
                    final(self).0@.env.cells,
                    final(self).0@.env.fs,
                    path@,
                ) == Result::<Option<Seq<u8>>, FileOpsErrorV>::Ok(Option::<Seq<u8>>::None),
                Result::Err(e) => crate::fileops::spec_read_file_delegate(
                    final(self).0@.env.cells,
                    final(self).0@.env.fs,
                    path@,
                ) == Result::<Option<Seq<u8>>, FileOpsErrorV>::Err(e@),
            }),
    {
        DiceFileComputations::read_file_if_exists(self.0, path)
    }

    /// The directory listing at `path`.
    pub fn read_dir(&mut self, path: &CellPath) -> (r: Result<ReadDirOutput, FileOpsError>)
        requires
            wf(old(self).0@),
        ensures
            wf(final(self).0@),
            final(self).0@.env == old(self).0@.env,
            (match r {
                Result::Ok(out) => crate::fileops::spec_read_dir_delegate(
                    final(self).0@.env.cells,
                    final(self).0@.env.ignores,
                    final(self).0@.env.fs,
                    path@,
                ) == Result::<Seq<DirEntryV>, FileOpsErrorV>::Ok(out@),
                Result::Err(e) => crate::fileops::spec_read_dir_delegate(
                    final(self).0@.env.cells,
                    final(self).0@.env.ignores,
                    final(self).0@.env.fs,
                    path@,
                ) == Result::<Seq<DirEntryV>, FileOpsErrorV>::Err(e@),
            }),
    {
        DiceFileComputations::read_dir(self.0, path)
    }

    /// The metadata at `path`, if the path exists.
    pub fn read_path_metadata_if_exists(&mut self, path: &CellPath) -> (r: Result<
        Option<RawPathMetadata>,
        FileOpsError,
    >)
        requires
            wf(old(self).0@),
        ensures
            wf(final(self).0@),
            final(self).0@.env == old(self).0@.env,
            (match r {
                Result::Ok(Option::Some(m)) => crate::fileops::spec_metadata_delegate(
                    final(self).0@.env.cells,
                    final(self).0@.env.fs,
                    path@,
                ) == Result::<Option<RawPathMetadataV>, FileOpsErrorV>::Ok(Option::Some(m@)),
                Result::Ok(Option::None) => crate::fileops::spec_metadata_delegate(
                    final(self).0@.env.cells,
                    final(self).0@.env.fs,
                    path@,
                ) == Result::<Option<RawPathMetadataV>, FileOpsErrorV>::Ok(
                    Option::<RawPathMetadataV>::None,
                ),
                Result::Err(e) => crate::fileops::spec_metadata_delegate(
                    final(self).0@.env.cells,
                    final(self).0@.env.fs,
                    path@,
                ) == Result::<Option<RawPathMetadataV>, FileOpsErrorV>::Err(e@),
            }),
    {
        DiceFileComputations::read_path_metadata_if_exists(self.0, path)
    }

    /// Whether the path is ignored in its cell.
    pub fn is_ignored(&mut self, path: &CellPath) -> (r: bool)
        requires
            wf(old(self).0@),
        ensures
            wf(final(self).0@),
            final(self).0@.env == old(self).0@.env,
            r == crate::fileops::spec_check_ignored(
                final(self).0@.env.ignores,
                path@.cell,
                path@.comps,
            ),
    {
        let fo = get_default_file_ops(self.0);
        proof {
            crate::bytes::lemma_comps_deep_view(path.comps);
        }
        fo.ignores.check_ignored(&path.cell, &path.comps)
    }
}

/// The dependencies any key records are leaf keys.
proof fn lemma_spec_deps_leaf(env: EngineEnvV, k: KeyV)
    ensures
        forall|d: int|
            0 <= d < spec_deps(env, k).len() ==> spec_is_leaf(#[trigger] spec_deps(env, k)[d].key),
{
}

} // verus!
