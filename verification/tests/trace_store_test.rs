use tracecap::cache::OwnerCache;
use tracecap::lifecycle::{container_lifecycle, ContainerStatus, PodLifecycleData};
use tracecap::obj_watcher::DynObjWatcher;
use tracecap::objects::{OwnerRef, PodRecord};
use tracecap::owners::{ChainResolver, ResolveProgress};
use tracecap::pod_watcher::{Event, EventOutcome, PodWatcher};
use tracecap::store::{ExportFilters, TraceStore};

fn status(started_at: Option<i64>, finished_at: Option<i64>) -> ContainerStatus {
    ContainerStatus { started_at, finished_at }
}

#[test]
fn container_lifecycle_empty_when_nothing_started() {
    assert_eq!(container_lifecycle(&Vec::new()), PodLifecycleData::Empty);
    assert_eq!(container_lifecycle(&vec![status(None, None)]), PodLifecycleData::Empty);
}

#[test]
fn container_lifecycle_running_takes_earliest_start() {
    let cs = vec![status(Some(50), None), status(Some(20), None), status(Some(90), None)];
    assert_eq!(container_lifecycle(&cs), PodLifecycleData::Running(20));
}

#[test]
fn container_lifecycle_finished_spans_observed_extremes() {
    let cs = vec![status(Some(50), Some(60)), status(Some(20), None), status(Some(30), Some(80))];
    assert_eq!(container_lifecycle(&cs), PodLifecycleData::Finished(20, 80));
}

#[test]
fn container_lifecycle_malformed_interval_is_empty() {
    // An end before any observed start is not a valid interval.
    let cs = vec![status(Some(100), Some(40))];
    assert_eq!(container_lifecycle(&cs), PodLifecycleData::Empty);
}

#[test]
fn cache_evicts_least_recently_used() {
    let mut cache = OwnerCache::new(2);
    let r = OwnerRef {
        api_version: "apps/v1".to_string(),
        kind: "ReplicaSet".to_string(),
        name: "rs".to_string(),
        uid: "u1".to_string(),
    };
    cache.put("ns/a".to_string(), vec![r.clone()]);
    cache.put("ns/b".to_string(), Vec::new());
    // Touch a: b is now the least recently used entry.
    assert_eq!(cache.get(&"ns/a".to_string()).unwrap(), vec![r.clone()]);
    cache.put("ns/c".to_string(), Vec::new());
    assert_eq!(cache.get(&"ns/b".to_string()), None);
    assert_eq!(cache.get(&"ns/a".to_string()).unwrap(), vec![r]);
    assert!(cache.get(&"ns/c".to_string()).is_some());
}

#[test]
fn record_pod_lifecycle_first_record_wins() {
    let mut store = TraceStore::new();
    assert!(store.record_pod_lifecycle(
        "test".to_string(),
        "pod".to_string(),
        Vec::new(),
        PodLifecycleData::Finished(1, 2),
    ));
    assert!(!store.record_pod_lifecycle(
        "test".to_string(),
        "pod".to_string(),
        Vec::new(),
        PodLifecycleData::Finished(7, 9),
    ));
    assert_eq!(store.pod_count(), 1);
    assert_eq!(
        store.get_pod_lifecycle(&"test/pod".to_string()).unwrap(),
        PodLifecycleData::Finished(1, 2)
    );
}

#[test]
fn replaying_a_finished_apply_does_not_double_record() {
    let mut pw = PodWatcher::new();
    assert!(pw.insert_tracked("test".to_string(), "pod".to_string(), PodLifecycleData::Running(10)));
    let mut cache = OwnerCache::new(4);
    let mut store = TraceStore::new();

    let pod = PodRecord {
        namespace: "test".to_string(),
        name: "pod".to_string(),
        owner_refs: Vec::new(),
        containers: vec![status(Some(10), Some(30))],
    };
    let evt = Event::Applied(pod);

    pw.handle_pod_event(&evt, 30, &mut cache, &mut store);
    assert_eq!(store.pod_count(), 1);

    // The same event again finds no tracked entry and writes nothing.
    pw.handle_pod_event(&evt, 30, &mut cache, &mut store);
    assert_eq!(store.pod_count(), 1);
    assert_eq!(
        store.get_pod_lifecycle(&"test/pod".to_string()).unwrap(),
        PodLifecycleData::Finished(10, 30)
    );
}

#[test]
fn uncached_owner_chain_defers_and_resolves() {
    let mut pw = PodWatcher::new();
    assert!(pw.insert_tracked("test".to_string(), "pod".to_string(), PodLifecycleData::Running(10)));
    let mut cache = OwnerCache::new(4);
    let mut store = TraceStore::new();

    let rsref = OwnerRef {
        api_version: "apps/v1".to_string(),
        kind: "ReplicaSet".to_string(),
        name: "rs".to_string(),
        uid: "u1".to_string(),
    };
    let pod = PodRecord {
        namespace: "test".to_string(),
        name: "pod".to_string(),
        owner_refs: vec![rsref.clone()],
        containers: vec![status(Some(10), Some(30))],
    };
    let evt = Event::Applied(pod);

    // The terminal transition needs the owner chain, which is not cached:
    // nothing changes.
    let outcome = pw.handle_pod_event(&evt, 30, &mut cache, &mut store);
    assert!(matches!(outcome, EventOutcome::NeedsOwnerChain));
    assert_eq!(
        pw.get_owned_pod_lifecycle(&"test/pod".to_string()).unwrap(),
        PodLifecycleData::Running(10)
    );
    assert_eq!(store.pod_count(), 0);

    // Resolve the chain, then deliver the event again.
    let ns = "test".to_string();
    let name = "pod".to_string();
    let (mut resolver, progress) =
        ChainResolver::start(&mut cache, &ns, &name, &vec![rsref.clone()]);
    assert!(matches!(progress, ResolveProgress::Fetch(_)));
    let done = resolver.step(&mut cache, &"rs".to_string(), &Vec::new());
    match done {
        ResolveProgress::Resolved(c) => assert_eq!(c, vec![rsref.clone()]),
        ResolveProgress::Fetch(_) => panic!("an owner without owners ends the walk"),
    }

    let outcome = pw.handle_pod_event(&evt, 30, &mut cache, &mut store);
    assert!(matches!(outcome, EventOutcome::Handled));
    assert_eq!(pw.get_owned_pod_lifecycle(&"test/pod".to_string()), None);
    assert_eq!(store.get_pod_owners(&"test/pod".to_string()).unwrap(), vec![rsref]);
    assert_eq!(
        store.get_pod_lifecycle(&"test/pod".to_string()).unwrap(),
        PodLifecycleData::Finished(10, 30)
    );
}

fn no_filters() -> ExportFilters {
    ExportFilters::new(Vec::new(), Vec::new(), false)
}

fn push_u64le(out: &mut Vec<u8>, x: u64) {
    out.extend_from_slice(&x.to_le_bytes());
}

fn push_str(out: &mut Vec<u8>, s: &str) {
    push_u64le(out, s.len() as u64);
    out.extend_from_slice(s.as_bytes());
}

#[test]
fn export_produces_exact_bytes() {
    let mut store = TraceStore::new();
    let watcher = DynObjWatcher::new(vec!["Deployment".to_string()]);
    assert!(watcher.tracks(&"Deployment".to_string()));
    assert!(!watcher.tracks(&"StatefulSet".to_string()));
    watcher.handle_obj_event(
        true,
        "Deployment".to_string(),
        "test".to_string(),
        "app".to_string(),
        vec![("app".to_string(), "web".to_string())],
        vec![1, 2, 3],
        100,
        &mut store,
    );
    assert!(store.record_pod_lifecycle(
        "test".to_string(),
        "pod1".to_string(),
        Vec::new(),
        PodLifecycleData::Finished(10, 20),
    ));

    let blob = store.export(0, 1000, &no_filters());

    let mut expected: Vec<u8> = Vec::new();
    expected.extend_from_slice(b"tracecap");
    push_u64le(&mut expected, 1); // container version
    push_u64le(&mut expected, 1); // one object event
    expected.push(1); // applied
    push_u64le(&mut expected, 100); // ts
    push_str(&mut expected, "Deployment");
    push_str(&mut expected, "test");
    push_str(&mut expected, "app");
    push_u64le(&mut expected, 1); // one label
    push_str(&mut expected, "app");
    push_str(&mut expected, "web");
    push_u64le(&mut expected, 3); // snapshot
    expected.extend_from_slice(&[1, 2, 3]);
    push_u64le(&mut expected, 1); // one pod interval
    push_str(&mut expected, "test");
    push_str(&mut expected, "pod1");
    push_u64le(&mut expected, 0); // empty owner chain
    expected.push(2); // finished
    push_u64le(&mut expected, 10);
    push_u64le(&mut expected, 20);

    assert_eq!(blob, expected);
}

#[test]
fn export_is_deterministic() {
    let mut store = TraceStore::new();
    let watcher = DynObjWatcher::new(Vec::new());
    watcher.handle_obj_event(
        false,
        "Deployment".to_string(),
        "test".to_string(),
        "app".to_string(),
        Vec::new(),
        vec![9, 9],
        500,
        &mut store,
    );
    assert!(store.record_pod_lifecycle(
        "test".to_string(),
        "pod1".to_string(),
        Vec::new(),
        PodLifecycleData::Finished(10, 20),
    ));
    let a = store.export(0, 1000, &no_filters());
    let b = store.export(0, 1000, &no_filters());
    assert_eq!(a, b);
}

#[test]
fn export_drops_entries_outside_the_window() {
    let mut with_event = TraceStore::new();
    let watcher = DynObjWatcher::new(Vec::new());
    watcher.handle_obj_event(
        true,
        "Deployment".to_string(),
        "test".to_string(),
        "app".to_string(),
        Vec::new(),
        Vec::new(),
        5000,
        &mut with_event,
    );
    assert!(with_event.record_pod_lifecycle(
        "test".to_string(),
        "pod1".to_string(),
        Vec::new(),
        PodLifecycleData::Finished(4000, 4500),
    ));
    let empty = TraceStore::new();
    assert_eq!(with_event.export(0, 1000, &no_filters()), empty.export(0, 1000, &no_filters()));
    // Both lie inside a wider window.
    assert_ne!(with_event.export(0, 6000, &no_filters()), empty.export(0, 6000, &no_filters()));
}

#[test]
fn export_drops_excluded_namespaces() {
    let mut store = TraceStore::new();
    let watcher = DynObjWatcher::new(Vec::new());
    watcher.handle_obj_event(
        true,
        "Deployment".to_string(),
        "kube-system".to_string(),
        "app".to_string(),
        Vec::new(),
        Vec::new(),
        100,
        &mut store,
    );
    assert!(store.record_pod_lifecycle(
        "kube-system".to_string(),
        "pod1".to_string(),
        Vec::new(),
        PodLifecycleData::Finished(10, 20),
    ));
    let filters = ExportFilters::new(vec!["kube-system".to_string()], Vec::new(), false);
    let empty = TraceStore::new();
    assert_eq!(store.export(0, 1000, &filters), empty.export(0, 1000, &filters));
    assert_ne!(store.export(0, 1000, &no_filters()), empty.export(0, 1000, &no_filters()));
}

#[test]
fn export_drops_excluded_labels() {
    let mut store = TraceStore::new();
    let watcher = DynObjWatcher::new(Vec::new());
    watcher.handle_obj_event(
        true,
        "Deployment".to_string(),
        "test".to_string(),
        "app".to_string(),
        vec![("app".to_string(), "web".to_string()), ("tier".to_string(), "db".to_string())],
        Vec::new(),
        100,
        &mut store,
    );
    let matching = ExportFilters::new(
        Vec::new(),
        vec![vec![("app".to_string(), "web".to_string())]],
        false,
    );
    let not_matching = ExportFilters::new(
        Vec::new(),
        vec![vec![("app".to_string(), "api".to_string())]],
        false,
    );
    let empty = TraceStore::new();
    assert_eq!(store.export(0, 1000, &matching), empty.export(0, 1000, &matching));
    assert_ne!(store.export(0, 1000, &not_matching), empty.export(0, 1000, &not_matching));
}

#[test]
fn export_drops_daemonset_owned_pods_when_asked() {
    let mut store = TraceStore::new();
    let ds = OwnerRef {
        api_version: "apps/v1".to_string(),
        kind: "DaemonSet".to_string(),
        name: "logger".to_string(),
        uid: "u9".to_string(),
    };
    assert!(store.record_pod_lifecycle(
        "test".to_string(),
        "pod1".to_string(),
        vec![ds],
        PodLifecycleData::Finished(10, 20),
    ));
    let excluding = ExportFilters::new(Vec::new(), Vec::new(), true);
    let keeping = no_filters();
    let empty = TraceStore::new();
    assert_eq!(store.export(0, 1000, &excluding), empty.export(0, 1000, &excluding));
    assert_ne!(store.export(0, 1000, &keeping), empty.export(0, 1000, &keeping));
}
