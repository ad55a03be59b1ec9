use buckgraph::clean::dirs_removal_order;
use buckgraph::clean::files_to_remove;
use buckgraph::clean::plan_clean;
use buckgraph::clean::WalkEntry;
use buckgraph::daemon::DaemonDir;
use buckgraph::paths::ProjectPath;

fn pp(comps: &[&str]) -> ProjectPath {
    ProjectPath {
        comps: comps.iter().map(|c| c.as_bytes().to_vec()).collect(),
    }
}

#[test]
fn dry_run_reports_everything_and_mutates_nothing() {
    let plan = plan_clean(
        None,
        Some(vec![b"buck-out/cells".to_vec(), b"buck-out/gen".to_vec()]),
        true,
        b"/home/u/.buck/buckd/repo".to_vec(),
        true,
    );
    assert_eq!(
        plan.paths_to_clean,
        vec![
            b"buck-out/cells".to_vec(),
            b"buck-out/gen".to_vec(),
            b"/home/u/.buck/buckd/repo".to_vec(),
        ]
    );
    assert!(!plan.delete_buck_out);
    assert!(!plan.clean_daemon_dir);
}

#[test]
fn real_run_mutates_what_exists() {
    let plan = plan_clean(
        None,
        Some(vec![b"buck-out/gen".to_vec()]),
        true,
        b"daemon".to_vec(),
        false,
    );
    assert!(plan.delete_buck_out);
    assert!(plan.clean_daemon_dir);

    let no_buck_out = plan_clean(None, None, false, b"daemon".to_vec(), false);
    assert!(!no_buck_out.delete_buck_out);
    assert!(!no_buck_out.clean_daemon_dir);
    assert!(no_buck_out.paths_to_clean.is_empty());
}

#[test]
fn self_cleaning_mount_suppresses_deletion() {
    let plan = plan_clean(
        Some(vec![b"buck-out".to_vec()]),
        Some(vec![b"buck-out/gen".to_vec()]),
        false,
        b"daemon".to_vec(),
        false,
    );
    assert_eq!(plan.paths_to_clean, vec![b"buck-out".to_vec()]);
    assert!(!plan.delete_buck_out);
}

#[test]
fn removal_order_is_deepest_first_keeping_the_root() {
    let walk = vec![
        WalkEntry {
            path: b"buck-out".to_vec(),
            is_dir: true,
        },
        WalkEntry {
            path: b"buck-out/gen".to_vec(),
            is_dir: true,
        },
        WalkEntry {
            path: b"buck-out/gen/lib.o".to_vec(),
            is_dir: false,
        },
        WalkEntry {
            path: b"buck-out/gen/sub".to_vec(),
            is_dir: true,
        },
        WalkEntry {
            path: b"buck-out/log".to_vec(),
            is_dir: false,
        },
    ];
    assert_eq!(
        files_to_remove(&walk),
        vec![b"buck-out/gen/lib.o".to_vec(), b"buck-out/log".to_vec()]
    );
    assert_eq!(
        dirs_removal_order(&walk),
        vec![b"buck-out/gen/sub".to_vec(), b"buck-out/gen".to_vec()]
    );
}

#[test]
fn daemon_dir_file_names_are_fixed() {
    let d = DaemonDir {
        path: pp(&["home", "buckd", "repo"]),
    };
    assert_eq!(
        d.buckd_info().comps,
        vec![b"home".to_vec(), b"buckd".to_vec(), b"repo".to_vec(), b"buckd.info".to_vec()]
    );
    assert_eq!(d.buckd_stdout().comps.last().unwrap(), b"buckd.stdout");
    assert_eq!(d.buckd_stderr().comps.last().unwrap(), b"buckd.stderr");
    assert_eq!(d.buckd_pid().comps.last().unwrap(), b"buckd.pid");
}
