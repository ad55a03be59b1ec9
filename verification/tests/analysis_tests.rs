use buckgraph::analysis::AnalysisContext;
use buckgraph::analysis::AnalysisError;
use buckgraph::analysis::AnalysisRegistry;
use buckgraph::analysis::Promise;
use buckgraph::analysis::PromiseResolver;
use buckgraph::analysis::PromisedArtifactMap;
use buckgraph::analysis::ShortPathAssertion;

fn registry_with(promises: &[u64]) -> AnalysisRegistry {
    let mut r = AnalysisRegistry::new();
    r.promises = promises.iter().map(|id| Promise { id: *id }).collect();
    r
}

#[test]
fn run_promises_reaches_a_fixed_point() {
    // Resolving promise 1 spawns 2 and 3; resolving 2 spawns 4; the
    // rest spawn nothing. The worklist drains in a few rounds.
    let resolver = PromiseResolver {
        entries: vec![
            (1, vec![Promise { id: 2 }, Promise { id: 3 }]),
            (2, vec![Promise { id: 4 }]),
        ],
    };
    let artifacts = PromisedArtifactMap { entries: vec![] };
    let mut ctx = AnalysisContext::prepare(
        b"attrs".to_vec(),
        Some(b"//a:x".to_vec()),
        b"plugins".to_vec(),
        registry_with(&[1]),
    );
    ctx.actions
        .run_promises(&resolver, &artifacts, 10)
        .unwrap();
    ctx.assert_no_promises().unwrap();
    let reg = ctx.take_state();
    assert!(reg.promises.is_empty());
}

#[test]
fn non_converging_promises_fail() {
    // Promise 1 spawns itself: the worklist never shrinks.
    let resolver = PromiseResolver {
        entries: vec![(1, vec![Promise { id: 1 }])],
    };
    let artifacts = PromisedArtifactMap { entries: vec![] };
    let mut ctx = AnalysisContext::prepare(
        b"attrs".to_vec(),
        None,
        b"plugins".to_vec(),
        registry_with(&[1]),
    );
    let r = ctx.actions.run_promises(&resolver, &artifacts, 5);
    assert_eq!(r, Err(AnalysisError::PromiseGraphDidNotConverge));
    assert!(ctx.assert_no_promises().is_err());
}

#[test]
fn short_path_assertions_are_checked() {
    let mut reg = AnalysisRegistry::new();
    reg.consumer_analysis_artifacts = vec![10];
    reg.short_path_assertions = vec![ShortPathAssertion {
        artifact: 10,
        short_path: b"out/lib.a".to_vec(),
    }];
    let ctx = AnalysisContext::prepare(b"a".to_vec(), None, b"p".to_vec(), reg);

    let matching = PromisedArtifactMap {
        entries: vec![(10, b"out/lib.a".to_vec())],
    };
    ctx.actions
        .assert_short_paths_and_resolve(&matching)
        .unwrap();

    let mismatching = PromisedArtifactMap {
        entries: vec![(10, b"out/other.a".to_vec())],
    };
    assert_eq!(
        ctx.actions.assert_short_paths_and_resolve(&mismatching),
        Err(AnalysisError::ShortPathAssertionViolated { id: 10 })
    );

    let missing = PromisedArtifactMap { entries: vec![] };
    assert_eq!(
        ctx.actions.assert_short_paths_and_resolve(&missing),
        Err(AnalysisError::MissingPromisedArtifact { id: 10 })
    );
}

#[test]
fn take_state_consumes_the_context() {
    let mut reg = AnalysisRegistry::new();
    reg.consumer_analysis_artifacts = vec![1, 2];
    let ctx = AnalysisContext::prepare(b"a".to_vec(), Some(b"//t".to_vec()), b"p".to_vec(), reg);
    assert_eq!(ctx.attrs, b"a".to_vec());
    assert_eq!(ctx.label, Some(b"//t".to_vec()));
    let reg = ctx.take_state();
    assert_eq!(reg.consumer_analysis_artifacts, vec![1, 2]);
}

#[test]
fn state_accessor_sees_the_registry() {
    let mut reg = AnalysisRegistry::new();
    reg.consumer_analysis_artifacts = vec![5];
    let ctx = AnalysisContext::prepare(b"a".to_vec(), None, b"p".to_vec(), reg);
    assert_eq!(ctx.actions.state().consumer_analysis_artifacts, vec![5]);
}
