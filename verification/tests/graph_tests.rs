use buckgraph::config::CfgSource;
use buckgraph::fileops::CellIgnoreEntry;
use buckgraph::fileops::CellIgnores;
use buckgraph::fileops::IgnorePattern;
use buckgraph::fileops::PatComp;
use buckgraph::fs::FileType;
use buckgraph::fs::FsEntry;
use buckgraph::fs::FsNode;
use buckgraph::fs::FsSnapshot;
use buckgraph::icg::DiceFileComputations;
use buckgraph::icg::EngineEnv;
use buckgraph::icg::Key;
use buckgraph::icg::PathMetadataKey;
use buckgraph::icg::ReadDirKey;
use buckgraph::icg::ReadFileKey;
use buckgraph::icg::VersionedGraph;
use buckgraph::paths::CellEntry;
use buckgraph::paths::CellPath;
use buckgraph::paths::CellResolver;
use buckgraph::paths::ProjectPath;
use buckgraph::tracker::FileChangeTracker;

fn cp(cell: &str, comps: &[&str]) -> CellPath {
    CellPath {
        cell: cell.as_bytes().to_vec(),
        comps: comps.iter().map(|c| c.as_bytes().to_vec()).collect(),
    }
}

fn pp(comps: &[&str]) -> ProjectPath {
    ProjectPath {
        comps: comps.iter().map(|c| c.as_bytes().to_vec()).collect(),
    }
}

fn resolver() -> CellResolver {
    CellResolver {
        cells: vec![CellEntry {
            name: b"c".to_vec(),
            root: pp(&["c"]),
        }],
    }
}

fn ignores() -> CellIgnores {
    CellIgnores {
        cells: vec![CellIgnoreEntry {
            cell: b"c".to_vec(),
            patterns: vec![IgnorePattern {
                comps: vec![
                    PatComp::DoubleStar,
                    PatComp::Lit {
                        name: b"target".to_vec(),
                    },
                ],
            }],
        }],
    }
}

fn file(path: &[&str], content: &str) -> FsNode {
    FsNode {
        path: pp(path),
        entry: FsEntry::File {
            content: content.as_bytes().to_vec(),
        },
    }
}

fn dir(path: &[&str]) -> FsNode {
    FsNode {
        path: pp(path),
        entry: FsEntry::Dir,
    }
}

fn base_fs() -> FsSnapshot {
    FsSnapshot {
        nodes: vec![
            dir(&["c"]),
            dir(&["c", "foo"]),
            file(&["c", "foo", "a.txt"], "A"),
            dir(&["c", "foo", "target"]),
            file(&["c", "foo", "b.txt"], "B"),
        ],
    }
}

fn env_with(fs: FsSnapshot) -> EngineEnv {
    EngineEnv {
        fs,
        cells: resolver(),
        ignores: ignores(),
        cfg: CfgSource { constructor: None },
    }
}

fn names_of(out: &buckgraph::fileops::ReadDirOutput) -> Vec<String> {
    out.included
        .iter()
        .map(|e| String::from_utf8(e.file_name.clone()).unwrap())
        .collect()
}

#[test]
fn read_dir_filters_ignored_and_sorts() {
    let mut g = VersionedGraph::new(env_with(base_fs()));
    let out = DiceFileComputations::read_dir(&mut g, &cp("c", &["foo"])).unwrap();
    assert_eq!(names_of(&out), vec!["a.txt".to_string(), "b.txt".to_string()]);
    assert_eq!(out.included[0].file_type, FileType::File);
}

#[test]
fn read_dir_of_ignored_dir_fails() {
    let mut g = VersionedGraph::new(env_with(base_fs()));
    let r = DiceFileComputations::read_dir(&mut g, &cp("c", &["foo", "target"]));
    assert!(matches!(
        r,
        Err(buckgraph::fileops::FileOpsError::ReadIgnoredDir { .. })
    ));
}

#[test]
fn read_dir_output_is_deterministic_in_contents() {
    // Same directory contents, listed from two snapshots whose nodes
    // stand in different orders: byte-identical output.
    let mut g1 = VersionedGraph::new(env_with(base_fs()));
    let shuffled = FsSnapshot {
        nodes: vec![
            file(&["c", "foo", "b.txt"], "B"),
            dir(&["c", "foo", "target"]),
            dir(&["c"]),
            file(&["c", "foo", "a.txt"], "A"),
            dir(&["c", "foo"]),
        ],
    };
    let mut g2 = VersionedGraph::new(env_with(shuffled));
    let o1 = DiceFileComputations::read_dir(&mut g1, &cp("c", &["foo"])).unwrap();
    let o2 = DiceFileComputations::read_dir(&mut g2, &cp("c", &["foo"])).unwrap();
    assert!(o1.output_eq(&o2));
}

#[test]
fn repeated_compute_returns_equal_values() {
    let mut g = VersionedGraph::new(env_with(base_fs()));
    let o1 = DiceFileComputations::read_dir(&mut g, &cp("c", &["foo"])).unwrap();
    let o2 = DiceFileComputations::read_dir(&mut g, &cp("c", &["foo"])).unwrap();
    assert!(o1.output_eq(&o2));
    let m1 = DiceFileComputations::read_path_metadata(&mut g, &cp("c", &["foo", "a.txt"])).unwrap();
    let m2 = DiceFileComputations::read_path_metadata(&mut g, &cp("c", &["foo", "a.txt"])).unwrap();
    assert!(m1.meta_eq(&m2));
}

#[test]
fn compute_runs_at_most_once_per_version() {
    let mut g = VersionedGraph::new(env_with(base_fs()));
    let key = Key::ReadDir(ReadDirKey(cp("c", &["foo"])));
    assert_eq!(g.run_count(&key), 0);
    DiceFileComputations::read_dir(&mut g, &cp("c", &["foo"])).unwrap();
    assert_eq!(g.run_count(&key), 1);
    DiceFileComputations::read_dir(&mut g, &cp("c", &["foo"])).unwrap();
    DiceFileComputations::read_dir(&mut g, &cp("c", &["foo"])).unwrap();
    assert_eq!(g.run_count(&key), 1);
}

#[test]
fn early_cutoff_after_content_restored() {
    // A listing that depends only on the delegate: its dependency
    // re-evaluates to an equal value after the update, so the listing
    // is not re-executed.
    let mut g = VersionedGraph::new(env_with(base_fs()));
    let dir_key = Key::ReadDir(ReadDirKey(cp("c", &["foo"])));
    let file_key = Key::ReadFile(ReadFileKey(cp("c", &["foo", "a.txt"])));
    let meta_key = Key::PathMetadata(PathMetadataKey(cp("c", &["foo", "a.txt"])));

    DiceFileComputations::read_dir(&mut g, &cp("c", &["foo"])).unwrap();
    let m1 =
        DiceFileComputations::read_path_metadata(&mut g, &cp("c", &["foo", "a.txt"])).unwrap();
    DiceFileComputations::read_file(&mut g, &cp("c", &["foo", "a.txt"])).unwrap();
    assert_eq!(g.run_count(&dir_key), 1);
    assert_eq!(g.run_count(&meta_key), 1);
    assert_eq!(g.run_count(&file_key), 1);

    // The file was modified but its bytes were restored: the tracker
    // reports the change; the new snapshot holds the same contents.
    let mut tracker = FileChangeTracker::new();
    tracker.file_changed(cp("c", &["foo", "a.txt"]));
    tracker.write_to_dice(&mut g);
    g.commit(env_with(base_fs()));

    // The explicitly dirtied metadata key re-runs, to an equal value.
    let m2 =
        DiceFileComputations::read_path_metadata(&mut g, &cp("c", &["foo", "a.txt"])).unwrap();
    assert_eq!(g.run_count(&meta_key), 2);
    assert!(m1.meta_eq(&m2));
    // The file key was dirtied too and re-runs on demand.
    DiceFileComputations::read_file(&mut g, &cp("c", &["foo", "a.txt"])).unwrap();
    assert_eq!(g.run_count(&file_key), 2);
    // The listing was not dirtied and its recorded dependency still
    // compares equal: it is promoted without re-running.
    DiceFileComputations::read_dir(&mut g, &cp("c", &["foo"])).unwrap();
    assert_eq!(g.run_count(&dir_key), 1);
}

#[test]
fn listing_reruns_when_entry_added() {
    let mut g = VersionedGraph::new(env_with(base_fs()));
    DiceFileComputations::read_dir(&mut g, &cp("c", &["foo"])).unwrap();
    let dir_key = Key::ReadDir(ReadDirKey(cp("c", &["foo"])));
    assert_eq!(g.run_count(&dir_key), 1);

    let mut fs2 = base_fs();
    fs2.nodes.push(file(&["c", "foo", "c.txt"], "C"));
    let mut tracker = FileChangeTracker::new();
    tracker.file_added(cp("c", &["foo", "c.txt"]));
    tracker.write_to_dice(&mut g);
    g.commit(env_with(fs2));

    let out = DiceFileComputations::read_dir(&mut g, &cp("c", &["foo"])).unwrap();
    assert_eq!(g.run_count(&dir_key), 2);
    assert_eq!(
        names_of(&out),
        vec!["a.txt".to_string(), "b.txt".to_string(), "c.txt".to_string()]
    );
}

#[test]
fn symlink_metadata_invalidated_by_file_key() {
    // Metadata of a symlink records a dependency on the file key of
    // the symlink's own path; the file key never compares equal, so
    // dirtying it alone forces the metadata to re-run.
    let fs = FsSnapshot {
        nodes: vec![
            dir(&["c"]),
            file(&["c", "real"], "R"),
            FsNode {
                path: pp(&["c", "link"]),
                entry: FsEntry::Symlink {
                    target: pp(&["c", "real"]),
                },
            },
        ],
    };
    let mut g = VersionedGraph::new(EngineEnv {
        fs,
        cells: resolver(),
        ignores: CellIgnores { cells: vec![] },
        cfg: CfgSource { constructor: None },
    });
    let meta_key = Key::PathMetadata(PathMetadataKey(cp("c", &["link"])));
    let m = DiceFileComputations::read_path_metadata(&mut g, &cp("c", &["link"])).unwrap();
    match &m {
        buckgraph::fileops::RawPathMetadata::Symlink { at, to } => {
            assert!(at.path_eq(&cp("c", &["link"])));
            assert!(to.path_eq(&cp("c", &["real"])));
        }
        other => panic!("expected symlink metadata, got {:?}", other),
    }
    assert_eq!(g.run_count(&meta_key), 1);

    // Dirty only the file key of the symlink's path.
    g.changed(vec![Key::ReadFile(ReadFileKey(cp("c", &["link"])))]);
    let fs2 = FsSnapshot {
        nodes: vec![
            dir(&["c"]),
            file(&["c", "real"], "R"),
            FsNode {
                path: pp(&["c", "link"]),
                entry: FsEntry::Symlink {
                    target: pp(&["c", "real"]),
                },
            },
        ],
    };
    g.commit(EngineEnv {
        fs: fs2,
        cells: resolver(),
        ignores: CellIgnores { cells: vec![] },
        cfg: CfgSource { constructor: None },
    });
    DiceFileComputations::read_path_metadata(&mut g, &cp("c", &["link"])).unwrap();
    assert_eq!(g.run_count(&meta_key), 2);
}

#[test]
fn file_token_rereads_through_delegate() {
    let mut g = VersionedGraph::new(env_with(base_fs()));
    let c = DiceFileComputations::read_file(&mut g, &cp("c", &["foo", "a.txt"])).unwrap();
    assert_eq!(c, b"A".to_vec());
    let missing = DiceFileComputations::read_file(&mut g, &cp("c", &["foo", "missing"]));
    assert!(matches!(
        missing,
        Err(buckgraph::fileops::FileOpsError::FileNotFound { .. })
    ));
    let none =
        DiceFileComputations::read_file_if_exists(&mut g, &cp("c", &["foo", "missing"])).unwrap();
    assert!(none.is_none());
}

#[test]
fn unknown_cell_is_an_error() {
    let mut g = VersionedGraph::new(env_with(base_fs()));
    let r = DiceFileComputations::read_dir(&mut g, &cp("z", &["foo"]));
    assert!(matches!(
        r,
        Err(buckgraph::fileops::FileOpsError::UnknownCell { .. })
    ));
}

#[test]
fn compute_many_is_order_insensitive() {
    let k1 = Key::ReadDir(ReadDirKey(cp("c", &["foo"])));
    let k2 = Key::PathMetadata(PathMetadataKey(cp("c", &["foo", "a.txt"])));
    let mut g1 = VersionedGraph::new(env_with(base_fs()));
    let r_fwd = g1.compute_many(&vec![k1.clone(), k2.clone()]);
    let mut g2 = VersionedGraph::new(env_with(base_fs()));
    let r_rev = g2.compute_many(&vec![k2.clone(), k1.clone()]);
    match (&r_fwd[0], &r_rev[1]) {
        (buckgraph::icg::Value::DirListing(a), buckgraph::icg::Value::DirListing(b)) => {
            assert!(a.output_eq(b));
        }
        other => panic!("expected listings, got {:?}", other),
    }
    match (&r_fwd[1], &r_rev[0]) {
        (
            buckgraph::icg::Value::Metadata(Some(a)),
            buckgraph::icg::Value::Metadata(Some(b)),
        ) => {
            assert!(a.meta_eq(b));
        }
        other => panic!("expected metadata, got {:?}", other),
    }
    // Both requests for the same key in one version share a single
    // computation.
    let mut g3 = VersionedGraph::new(env_with(base_fs()));
    g3.compute_many(&vec![k1.clone(), k1.clone(), k1.clone()]);
    assert_eq!(g3.run_count(&k1), 1);
}

#[test]
fn symlink_target_outside_every_cell_is_an_error() {
    // The resolver knows only the cell rooted at `c`; a symlink
    // pointing outside it cannot be mapped back to a cell path.
    let fs = FsSnapshot {
        nodes: vec![
            dir(&["c"]),
            FsNode {
                path: pp(&["c", "stray"]),
                entry: FsEntry::Symlink {
                    target: pp(&["elsewhere", "file"]),
                },
            },
        ],
    };
    let mut g = VersionedGraph::new(EngineEnv {
        fs,
        cells: resolver(),
        ignores: CellIgnores { cells: vec![] },
        cfg: CfgSource { constructor: None },
    });
    let r = DiceFileComputations::read_path_metadata(&mut g, &cp("c", &["stray"]));
    assert!(matches!(
        r,
        Err(buckgraph::fileops::FileOpsError::ForeignPath { .. })
    ));
}

#[test]
fn dice_file_ops_reads_through_the_graph() {
    let mut g = VersionedGraph::new(env_with(base_fs()));
    let mut ops = buckgraph::icg::DiceFileOps(&mut g);
    let c = ops
        .read_file_if_exists(&cp("c", &["foo", "a.txt"]))
        .unwrap()
        .unwrap();
    assert_eq!(c, b"A".to_vec());
    let out = ops.read_dir(&cp("c", &["foo"])).unwrap();
    assert_eq!(names_of(&out), vec!["a.txt".to_string(), "b.txt".to_string()]);
    assert!(ops.is_ignored(&cp("c", &["foo", "target"])));
    assert!(!ops.is_ignored(&cp("c", &["foo", "a.txt"])));
    let m = ops
        .read_path_metadata_if_exists(&cp("c", &["foo", "a.txt"]))
        .unwrap();
    assert!(m.is_some());
}

#[test]
fn tracker_stages_exact_sets() {
    let mut g = VersionedGraph::new(env_with(base_fs()));
    let dir_key = Key::ReadDir(ReadDirKey(cp("c", &["foo"])));
    let meta_key = Key::PathMetadata(PathMetadataKey(cp("c", &["foo"])));
    DiceFileComputations::read_dir(&mut g, &cp("c", &["foo"])).unwrap();
    DiceFileComputations::read_path_metadata(&mut g, &cp("c", &["foo"])).unwrap();
    assert_eq!(g.run_count(&dir_key), 1);
    assert_eq!(g.run_count(&meta_key), 1);

    // A directory change dirties both its metadata key and its
    // listing key: both re-run on demand.
    let mut tracker = FileChangeTracker::new();
    tracker.dir_changed(cp("c", &["foo"]));
    tracker.write_to_dice(&mut g);
    g.commit(env_with(base_fs()));
    DiceFileComputations::read_dir(&mut g, &cp("c", &["foo"])).unwrap();
    DiceFileComputations::read_path_metadata(&mut g, &cp("c", &["foo"])).unwrap();
    assert_eq!(g.run_count(&dir_key), 2);
    assert_eq!(g.run_count(&meta_key), 2);

    // A content change elsewhere stages neither of them: both stay
    // valid through the next commit.
    let mut tracker2 = FileChangeTracker::new();
    tracker2.file_changed(cp("c", &["foo", "a.txt"]));
    tracker2.write_to_dice(&mut g);
    g.commit(env_with(base_fs()));
    DiceFileComputations::read_dir(&mut g, &cp("c", &["foo"])).unwrap();
    DiceFileComputations::read_path_metadata(&mut g, &cp("c", &["foo"])).unwrap();
    assert_eq!(g.run_count(&dir_key), 2);
    // The directory's own metadata does not depend on the file's
    // content, so it is promoted without re-running.
    assert_eq!(g.run_count(&meta_key), 2);

    // Cell-root events have no parent listing to stage; they are
    // accepted and dirty the root's own keys only.
    let mut tracker3 = FileChangeTracker::new();
    tracker3.file_added_or_removed(cp("c", &[]));
    tracker3.write_to_dice(&mut g);
    g.commit(env_with(base_fs()));
    DiceFileComputations::read_dir(&mut g, &cp("c", &["foo"])).unwrap();
    assert_eq!(g.run_count(&dir_key), 2);
}

#[test]
fn cell_root_dir_event_dirties_its_own_listing() {
    // A directory event at a cell root has no parent, but the root's
    // own listing key is still dirtied and re-runs on demand.
    let mut g = VersionedGraph::new(env_with(base_fs()));
    let root_dir_key = Key::ReadDir(ReadDirKey(cp("c", &[])));
    DiceFileComputations::read_dir(&mut g, &cp("c", &[])).unwrap();
    assert_eq!(g.run_count(&root_dir_key), 1);

    let mut tracker = FileChangeTracker::new();
    tracker.dir_added(cp("c", &[]));
    tracker.write_to_dice(&mut g);
    g.commit(env_with(base_fs()));
    DiceFileComputations::read_dir(&mut g, &cp("c", &[])).unwrap();
    assert_eq!(g.run_count(&root_dir_key), 2);

    // A nested directory event dirties its own listing and the
    // parent's.
    let nested_key = Key::ReadDir(ReadDirKey(cp("c", &["foo"])));
    DiceFileComputations::read_dir(&mut g, &cp("c", &["foo"])).unwrap();
    assert_eq!(g.run_count(&nested_key), 1);
    let mut tracker2 = FileChangeTracker::new();
    tracker2.dir_removed(cp("c", &["foo"]));
    tracker2.write_to_dice(&mut g);
    g.commit(env_with(base_fs()));
    DiceFileComputations::read_dir(&mut g, &cp("c", &["foo"])).unwrap();
    DiceFileComputations::read_dir(&mut g, &cp("c", &[])).unwrap();
    assert_eq!(g.run_count(&nested_key), 2);
    assert_eq!(g.run_count(&root_dir_key), 3);
}
