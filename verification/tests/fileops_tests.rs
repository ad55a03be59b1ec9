use buckgraph::fileops::metadata_delegate;
use buckgraph::fileops::read_dir_delegate;
use buckgraph::fileops::read_file_delegate;
use buckgraph::fileops::CellIgnoreEntry;
use buckgraph::fileops::CellIgnores;
use buckgraph::fileops::FileOpsError;
use buckgraph::fileops::IgnorePattern;
use buckgraph::fileops::PatComp;
use buckgraph::fileops::RawPathMetadata;
use buckgraph::fs::digest;
use buckgraph::fs::render_path;
use buckgraph::fs::FileType;
use buckgraph::fs::FsEntry;
use buckgraph::fs::FsNode;
use buckgraph::fs::FsSnapshot;
use buckgraph::paths::CellEntry;
use buckgraph::paths::CellPath;
use buckgraph::paths::CellResolver;
use buckgraph::paths::ProjectPath;

fn cp(cell: &str, comps: &[&str]) -> CellPath {
    CellPath {
        cell: cell.as_bytes().to_vec(),
        comps: comps.iter().map(|c| c.as_bytes().to_vec()).collect(),
    }
}

fn pp(comps: &[&str]) -> ProjectPath {
    ProjectPath {
        comps: comps.iter().map(|c| c.as_bytes().to_vec()).collect(),
    }
}

fn resolver() -> CellResolver {
    CellResolver {
        cells: vec![
            CellEntry {
                name: b"root".to_vec(),
                root: pp(&[]),
            },
            CellEntry {
                name: b"c".to_vec(),
                root: pp(&["c"]),
            },
        ],
    }
}

fn no_ignores() -> CellIgnores {
    CellIgnores { cells: vec![] }
}

fn fs() -> FsSnapshot {
    FsSnapshot {
        nodes: vec![
            FsNode {
                path: pp(&["c"]),
                entry: FsEntry::Dir,
            },
            FsNode {
                path: pp(&["c", "data.txt"]),
                entry: FsEntry::File {
                    content: b"hello".to_vec(),
                },
            },
            FsNode {
                path: pp(&["c", "link"]),
                entry: FsEntry::Symlink {
                    target: pp(&["c", "data.txt"]),
                },
            },
        ],
    }
}

#[test]
fn resolve_prefixes_the_cell_root() {
    let r = resolver();
    let proj = r.resolve(&cp("c", &["x", "y"])).unwrap();
    assert_eq!(proj.comps, vec![b"c".to_vec(), b"x".to_vec(), b"y".to_vec()]);
    assert!(r.resolve(&cp("nope", &[])).is_none());
}

#[test]
fn get_cell_path_picks_the_longest_root() {
    let r = resolver();
    // Both the project-root cell and `c` match; the longer root wins.
    let q = r.get_cell_path(&pp(&["c", "x"])).unwrap();
    assert!(q.path_eq(&cp("c", &["x"])));
    let q2 = r.get_cell_path(&pp(&["other", "x"])).unwrap();
    assert!(q2.path_eq(&cp("root", &["other", "x"])));
}

#[test]
fn file_reads_go_through_the_resolver() {
    let c = read_file_delegate(&resolver(), &fs(), &cp("c", &["data.txt"]))
        .unwrap()
        .unwrap();
    assert_eq!(c, b"hello".to_vec());
    // Reading a symlink yields its rendered target.
    let l = read_file_delegate(&resolver(), &fs(), &cp("c", &["link"]))
        .unwrap()
        .unwrap();
    assert_eq!(l, b"c/data.txt".to_vec());
}

#[test]
fn metadata_reports_digest_size_and_symlinks() {
    let m = metadata_delegate(&resolver(), &fs(), &cp("c", &["data.txt"]))
        .unwrap()
        .unwrap();
    match m {
        RawPathMetadata::File { digest: d, size } => {
            assert_eq!(size, 5);
            assert_eq!(d, digest(&b"hello".to_vec()));
        }
        other => panic!("expected file metadata, got {:?}", other),
    }
    let link = metadata_delegate(&resolver(), &fs(), &cp("c", &["link"]))
        .unwrap()
        .unwrap();
    match link {
        RawPathMetadata::Symlink { at, to } => {
            assert!(at.path_eq(&cp("c", &["link"])));
            assert!(to.path_eq(&cp("c", &["data.txt"])));
        }
        other => panic!("expected symlink metadata, got {:?}", other),
    }
    let absent = metadata_delegate(&resolver(), &fs(), &cp("c", &["missing"])).unwrap();
    assert!(absent.is_none());
}

#[test]
fn digest_tracks_content() {
    assert_eq!(digest(&b"hello".to_vec()), digest(&b"hello".to_vec()));
    assert_ne!(digest(&b"hello".to_vec()), digest(&b"hellp".to_vec()));
    assert_ne!(digest(&b"".to_vec()), digest(&b"\0".to_vec()));
}

#[test]
fn render_path_joins_with_slashes() {
    assert_eq!(render_path(&pp(&["a", "b", "c"])), b"a/b/c".to_vec());
    assert_eq!(render_path(&pp(&["solo"])), b"solo".to_vec());
    assert_eq!(render_path(&pp(&[])), Vec::<u8>::new());
}

#[test]
fn invalid_names_are_skipped() {
    let weird = FsSnapshot {
        nodes: vec![
            FsNode {
                path: pp(&["c"]),
                entry: FsEntry::Dir,
            },
            FsNode {
                path: pp(&["c", "good"]),
                entry: FsEntry::Dir,
            },
            FsNode {
                path: ProjectPath {
                    comps: vec![b"c".to_vec(), b"..".to_vec()],
                },
                entry: FsEntry::Dir,
            },
        ],
    };
    let listing = read_dir_delegate(&resolver(), &no_ignores(), &weird, &cp("c", &[])).unwrap();
    let names: Vec<Vec<u8>> = listing
        .output
        .included
        .iter()
        .map(|e| e.file_name.clone())
        .collect();
    assert_eq!(names, vec![b"good".to_vec()]);
    // The rejected name is surfaced so the caller can report it.
    assert_eq!(listing.rejected_file_names, vec![b"..".to_vec()]);
}

#[test]
fn listing_a_file_is_an_error() {
    let r = read_dir_delegate(&resolver(), &no_ignores(), &fs(), &cp("c", &["data.txt"]));
    assert!(matches!(r, Err(FileOpsError::NotADirectory { .. })));
}

#[test]
fn doublestar_patterns_shadow_subtrees() {
    let ignores = CellIgnores {
        cells: vec![CellIgnoreEntry {
            cell: b"c".to_vec(),
            patterns: vec![IgnorePattern {
                comps: vec![
                    PatComp::DoubleStar,
                    PatComp::Lit {
                        name: b"target".to_vec(),
                    },
                ],
            }],
        }],
    };
    assert!(ignores.check_ignored(
        &b"c".to_vec(),
        &vec![b"deep".to_vec(), b"target".to_vec(), b"below".to_vec()],
    ));
    assert!(ignores.check_ignored(&b"c".to_vec(), &vec![b"target".to_vec()]));
    assert!(!ignores.check_ignored(&b"c".to_vec(), &vec![b"src".to_vec()]));
    assert!(!ignores.check_ignored(&b"other".to_vec(), &vec![b"target".to_vec()]));
}

#[test]
fn listing_sorts_names_with_kind_tiebreak() {
    let mixed = FsSnapshot {
        nodes: vec![
            FsNode {
                path: pp(&["c"]),
                entry: FsEntry::Dir,
            },
            FsNode {
                path: pp(&["c", "zeta"]),
                entry: FsEntry::File {
                    content: vec![],
                },
            },
            FsNode {
                path: pp(&["c", "alpha"]),
                entry: FsEntry::Dir,
            },
        ],
    };
    let listing = read_dir_delegate(&resolver(), &no_ignores(), &mixed, &cp("c", &[])).unwrap();
    let out = listing.output;
    assert!(listing.rejected_file_names.is_empty());
    assert_eq!(out.included[0].file_name, b"alpha".to_vec());
    assert_eq!(out.included[0].file_type, FileType::Dir);
    assert_eq!(out.included[1].file_name, b"zeta".to_vec());
    assert_eq!(out.included[1].file_type, FileType::File);
}
