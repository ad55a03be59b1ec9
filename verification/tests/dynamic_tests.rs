use buckgraph::dynamic::AnalysisValueFetcher;
use buckgraph::dynamic::DeferredEntry;
use buckgraph::dynamic::DeferredRegistry;
use buckgraph::dynamic::DynamicError;
use buckgraph::dynamic::DynamicRegistry;
use buckgraph::dynamic::FetchedValue;
use indexmap::IndexSet;

fn id_set(ids: &[u64]) -> IndexSet<u64> {
    let mut s = IndexSet::new();
    for id in ids {
        s.insert(*id);
    }
    s
}

#[test]
fn register_binds_outputs_to_indexed_actions() {
    let mut deferred = DeferredRegistry::new();
    let mut registry = DynamicRegistry::new(7);
    let lambda_id = registry.register(
        id_set(&[100]),
        id_set(&[200]),
        id_set(&[300, 301]),
        &mut deferred,
    );
    assert_eq!(lambda_id, 0);
    assert_eq!(registry.pending.len(), 1);
    let pending = &registry.pending[0];
    assert_eq!(pending.reservation, lambda_id);
    let outputs = &pending.lambda.outputs;
    assert_eq!(outputs.len(), 2);
    // The two outputs are bound to action keys with indices 0 and 1
    // of the same reservation.
    assert_eq!(outputs[0].artifact, 300);
    assert_eq!(outputs[1].artifact, 301);
    match &deferred.entries[outputs[0].action.deferred_id as usize] {
        DeferredEntry::Action(a) => {
            assert_eq!(a.lambda, lambda_id);
            assert_eq!(a.index, 0);
        }
        other => panic!("expected an action, got {:?}", other),
    }
    match &deferred.entries[outputs[1].action.deferred_id as usize] {
        DeferredEntry::Action(a) => {
            assert_eq!(a.lambda, lambda_id);
            assert_eq!(a.index, 1);
        }
        other => panic!("expected an action, got {:?}", other),
    }
}

#[test]
fn ensure_bound_binds_all_in_registration_order() {
    let mut deferred = DeferredRegistry::new();
    let mut registry = DynamicRegistry::new(7);
    let id0 = registry.register(id_set(&[]), id_set(&[1]), id_set(&[10]), &mut deferred);
    let id1 = registry.register(id_set(&[]), id_set(&[2]), id_set(&[20]), &mut deferred);
    let fetcher = AnalysisValueFetcher {
        entries: vec![
            (id0, FetchedValue::LambdaImpl { value: 41 }),
            (id1, FetchedValue::LambdaImpl { value: 42 }),
        ],
    };
    registry.ensure_bound(&mut deferred, &fetcher).unwrap();
    match &deferred.entries[id0 as usize] {
        DeferredEntry::Lambda(l) => {
            assert_eq!(l.implementation, Some(41));
            assert_eq!(l.inputs, vec![1]);
        }
        other => panic!("expected a bound lambda, got {:?}", other),
    }
    match &deferred.entries[id1 as usize] {
        DeferredEntry::Lambda(l) => {
            assert_eq!(l.implementation, Some(42));
            assert_eq!(l.inputs, vec![2]);
        }
        other => panic!("expected a bound lambda, got {:?}", other),
    }
}

#[test]
fn missing_implementation_fails_the_pass() {
    let mut deferred = DeferredRegistry::new();
    let mut registry = DynamicRegistry::new(7);
    let id0 = registry.register(id_set(&[]), id_set(&[]), id_set(&[10]), &mut deferred);
    let fetcher = AnalysisValueFetcher { entries: vec![] };
    let r = registry.ensure_bound(&mut deferred, &fetcher);
    assert_eq!(r, Err(DynamicError::KeyMissing { id: id0 }));
}

#[test]
fn wrong_shape_fails_the_pass() {
    let mut deferred = DeferredRegistry::new();
    let mut registry = DynamicRegistry::new(7);
    let id0 = registry.register(id_set(&[]), id_set(&[]), id_set(&[10]), &mut deferred);
    let fetcher = AnalysisValueFetcher {
        entries: vec![(id0, FetchedValue::Other)],
    };
    let r = registry.ensure_bound(&mut deferred, &fetcher);
    assert_eq!(r, Err(DynamicError::IncorrectType { id: id0 }));
}

#[test]
fn registration_preserves_input_order() {
    let mut deferred = DeferredRegistry::new();
    let mut registry = DynamicRegistry::new(9);
    registry.register(
        id_set(&[3, 1, 2]),
        id_set(&[5, 4]),
        id_set(&[10]),
        &mut deferred,
    );
    let lambda = &registry.pending[0].lambda;
    assert_eq!(lambda.owner, 9);
    assert_eq!(lambda.dynamic, vec![3, 1, 2]);
    assert_eq!(lambda.inputs, vec![5, 4]);
    assert_eq!(lambda.implementation, None);
}
