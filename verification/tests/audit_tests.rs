use buckgraph::audit::render_audit_providers;
use buckgraph::audit::AuditError;
use buckgraph::audit::AuditFlags;
use buckgraph::audit::ProviderCollection;
use buckgraph::audit::TargetEntry;

fn lines(ls: &[&str]) -> Vec<Vec<u8>> {
    ls.iter().map(|l| l.as_bytes().to_vec()).collect()
}

fn ok_entry(label: &str, names: &[&str], rendered: &[&str]) -> TargetEntry {
    TargetEntry {
        label: label.as_bytes().to_vec(),
        outcome: Ok(ProviderCollection {
            names: lines(names),
            rendered: lines(rendered),
            rendered_debug: lines(rendered),
        }),
    }
}

fn err_entry(label: &str, diag: &[&str]) -> TargetEntry {
    TargetEntry {
        label: label.as_bytes().to_vec(),
        outcome: Err(lines(diag)),
    }
}

#[test]
fn one_failure_splits_the_streams() {
    let entries = vec![
        ok_entry("//a:x", &["DefaultInfo"], &["<providers>"]),
        err_entry("//b:y", &["<diag>"]),
    ];
    let flags = AuditFlags {
        quiet: false,
        list: false,
        print_debug: false,
    };
    let out = render_audit_providers(&entries, flags);
    assert_eq!(String::from_utf8(out.stdout).unwrap(), "//a:x:\n  <providers>\n");
    assert_eq!(
        String::from_utf8(out.stderr).unwrap(),
        "//b:y: failed:\n  <diag>\n"
    );
    assert_eq!(out.result, Err(AuditError::AtLeastOneFailed));
}

#[test]
fn all_successes_report_no_error() {
    let entries = vec![ok_entry("//a:x", &[], &["body"])];
    let flags = AuditFlags {
        quiet: false,
        list: false,
        print_debug: false,
    };
    let out = render_audit_providers(&entries, flags);
    assert_eq!(out.result, Ok(()));
    assert!(out.stderr.is_empty());
}

#[test]
fn quiet_mode_prints_bare_labels() {
    let entries = vec![
        ok_entry("//a:x", &[], &["body"]),
        ok_entry("//a:z", &[], &["body"]),
    ];
    let flags = AuditFlags {
        quiet: true,
        list: false,
        print_debug: false,
    };
    let out = render_audit_providers(&entries, flags);
    assert_eq!(String::from_utf8(out.stdout).unwrap(), "//a:x\n//a:z\n");
}

#[test]
fn list_mode_sorts_provider_names() {
    let entries = vec![ok_entry(
        "//a:x",
        &["RunInfo", "DefaultInfo", "CxxInfo"],
        &["unused"],
    )];
    let flags = AuditFlags {
        quiet: false,
        list: true,
        print_debug: false,
    };
    let out = render_audit_providers(&entries, flags);
    assert_eq!(
        String::from_utf8(out.stdout).unwrap(),
        "//a:x:\n  - CxxInfo\n  - DefaultInfo\n  - RunInfo\n"
    );
}

#[test]
fn empty_diagnostic_lines_stay_bare_newlines() {
    let entries = vec![err_entry("//b:y", &["first", "", "last"])];
    let flags = AuditFlags {
        quiet: false,
        list: false,
        print_debug: false,
    };
    let out = render_audit_providers(&entries, flags);
    assert_eq!(
        String::from_utf8(out.stderr).unwrap(),
        "//b:y: failed:\n  first\n\n  last\n"
    );
}
