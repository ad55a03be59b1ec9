use buckgraph::cfg_constructor::CfgConstructorCalculationInstance;
use buckgraph::cfg_constructor::SuperPackage;
use buckgraph::cfg_constructor::TargetNode;
use buckgraph::config::CfgInvocationData;
use buckgraph::config::CfgRule;
use buckgraph::config::CfgSource;
use buckgraph::config::ConfigurationData;
use buckgraph::fileops::CellIgnores;
use buckgraph::fs::FsSnapshot;
use buckgraph::icg::ComputeFailure;
use buckgraph::icg::EngineEnv;
use buckgraph::icg::VersionedGraph;
use buckgraph::paths::CellResolver;

fn cfg(label: &str) -> ConfigurationData {
    ConfigurationData {
        label: label.as_bytes().to_vec(),
    }
}

fn env(source: CfgSource) -> EngineEnv {
    EngineEnv {
        fs: FsSnapshot { nodes: vec![] },
        cells: CellResolver { cells: vec![] },
        ignores: CellIgnores { cells: vec![] },
        cfg: source,
    }
}

fn rule_for(modifier: &str, base: &str, out: &str) -> CfgRule {
    CfgRule {
        key: CfgInvocationData {
            package_cfg_modifiers: Some(modifier.as_bytes().to_vec()),
            target_cfg_modifiers: None,
            cfg: cfg(base),
            cli_modifiers: vec![],
            rule_type: b"cxx_library".to_vec(),
        },
        out: cfg(out),
    }
}

fn plain_target() -> TargetNode {
    TargetNode {
        target_cfg_modifiers: None,
        rule_type: b"cxx_library".to_vec(),
    }
}

#[test]
fn no_constructor_returns_input_unchanged() {
    let mut g = VersionedGraph::new(env(CfgSource { constructor: None }));
    let calc = CfgConstructorCalculationInstance;
    let before = g.node_count();
    let r = calc
        .eval_cfg_constructor(
            &mut g,
            &plain_target(),
            &SuperPackage {
                package_cfg_modifiers: Some(b"m".to_vec()),
            },
            cfg("base"),
            &vec![],
            &b"cxx_library".to_vec(),
        )
        .unwrap();
    assert_eq!(r.label, b"base".to_vec());
    // Only the constructor-resolution node may appear.
    assert!(g.node_count() <= before + 1);
}

#[test]
fn empty_modifiers_take_the_fast_path() {
    let source = CfgSource {
        constructor: Some(vec![rule_for("m", "base", "modified")]),
    };
    let mut g = VersionedGraph::new(env(source));
    let calc = CfgConstructorCalculationInstance;
    let r = calc
        .eval_cfg_constructor(
            &mut g,
            &plain_target(),
            &SuperPackage {
                package_cfg_modifiers: None,
            },
            cfg("base"),
            &vec![],
            &b"cxx_library".to_vec(),
        )
        .unwrap();
    // The input configuration comes back unchanged, and the graph
    // holds only the constructor-resolution node: no invocation key
    // was computed.
    assert_eq!(r.label, b"base".to_vec());
    assert_eq!(g.node_count(), 1);
}

#[test]
fn modifiers_flow_through_the_invocation_key() {
    let source = CfgSource {
        constructor: Some(vec![rule_for("m", "base", "modified")]),
    };
    let mut g = VersionedGraph::new(env(source));
    let calc = CfgConstructorCalculationInstance;
    let r = calc
        .eval_cfg_constructor(
            &mut g,
            &plain_target(),
            &SuperPackage {
                package_cfg_modifiers: Some(b"m".to_vec()),
            },
            cfg("base"),
            &vec![],
            &b"cxx_library".to_vec(),
        )
        .unwrap();
    assert_eq!(r.label, b"modified".to_vec());
    // The constructor node and the invocation node both exist now.
    assert_eq!(g.node_count(), 2);
    // Repeating the evaluation is memoized.
    let again = calc
        .eval_cfg_constructor(
            &mut g,
            &plain_target(),
            &SuperPackage {
                package_cfg_modifiers: Some(b"m".to_vec()),
            },
            cfg("base"),
            &vec![],
            &b"cxx_library".to_vec(),
        )
        .unwrap();
    assert_eq!(again.label, b"modified".to_vec());
    assert_eq!(g.node_count(), 2);
}

#[test]
fn unknown_invocation_fails_without_caching() {
    let source = CfgSource {
        constructor: Some(vec![rule_for("m", "base", "modified")]),
    };
    let mut g = VersionedGraph::new(env(source));
    let calc = CfgConstructorCalculationInstance;
    let r = calc.eval_cfg_constructor(
        &mut g,
        &plain_target(),
        &SuperPackage {
            package_cfg_modifiers: Some(b"other".to_vec()),
        },
        cfg("base"),
        &vec![],
        &b"cxx_library".to_vec(),
    );
    assert!(matches!(r, Err(ComputeFailure::CfgEvalFailed)));
}

#[test]
fn invoking_without_a_constructor_fails_the_invocation_key() {
    let mut g = VersionedGraph::new(env(CfgSource { constructor: None }));
    let data = CfgInvocationData {
        package_cfg_modifiers: Some(b"m".to_vec()),
        target_cfg_modifiers: None,
        cfg: cfg("base"),
        cli_modifiers: vec![],
        rule_type: b"cxx_library".to_vec(),
    };
    let v = g.compute(&buckgraph::icg::Key::CfgInvocation(data));
    assert!(matches!(
        v,
        buckgraph::icg::Value::Failure(ComputeFailure::CfgConstructorMissing)
    ));
}

#[test]
fn cli_modifiers_alone_defeat_the_fast_path() {
    let source = CfgSource {
        constructor: Some(vec![CfgRule {
            key: CfgInvocationData {
                package_cfg_modifiers: None,
                target_cfg_modifiers: None,
                cfg: cfg("base"),
                cli_modifiers: vec![b"opt".to_vec()],
                rule_type: b"cxx_library".to_vec(),
            },
            out: cfg("opted"),
        }]),
    };
    let mut g = VersionedGraph::new(env(source));
    let calc = CfgConstructorCalculationInstance;
    let r = calc
        .eval_cfg_constructor(
            &mut g,
            &plain_target(),
            &SuperPackage {
                package_cfg_modifiers: None,
            },
            cfg("base"),
            &vec![b"opt".to_vec()],
            &b"cxx_library".to_vec(),
        )
        .unwrap();
    assert_eq!(r.label, b"opted".to_vec());
}
