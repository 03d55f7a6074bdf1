use tracecap::cache::OwnerCache;
use tracecap::lifecycle::{ContainerStatus, PodLifecycleData};
use tracecap::objects::{OwnerRef, PodRecord};
use tracecap::owners::{ChainResolver, ResolveProgress};
use tracecap::pod_watcher::{Event, EventOutcome, PodWatcher};
use tracecap::store::TraceStore;

const START_TS: i64 = 1234;
const END_TS: i64 = 5678;
const CACHE_SIZE: usize = 16;
const TEST_NAMESPACE: &str = "test";

fn test_pod(name: &str) -> PodRecord {
    PodRecord {
        namespace: TEST_NAMESPACE.to_string(),
        name: name.to_string(),
        owner_refs: Vec::new(),
        containers: Vec::new(),
    }
}

fn add_running_container(pod: &mut PodRecord, start_ts: i64) {
    pod.containers.push(ContainerStatus { started_at: Some(start_ts), finished_at: None });
}

fn add_finished_container(pod: &mut PodRecord, start_ts: i64, end_ts: i64) {
    pod.containers.push(ContainerStatus { started_at: Some(start_ts), finished_at: Some(end_ts) });
}

struct Harness {
    pw: PodWatcher,
    cache: OwnerCache,
    store: TraceStore,
}

fn make_pod_watcher(ns_name: &str, stored_data: Option<&PodLifecycleData>) -> Harness {
    let mut pw = PodWatcher::new();
    if let Some(sd) = stored_data {
        let (ns, name) = ns_name.split_once('/').unwrap();
        assert!(pw.insert_tracked(ns.to_string(), name.to_string(), *sd));
    }
    Harness { pw, cache: OwnerCache::new(CACHE_SIZE), store: TraceStore::new() }
}

fn handle(h: &mut Harness, evt: &Event, now: i64) -> EventOutcome {
    h.pw.handle_pod_event(evt, now, &mut h.cache, &mut h.store)
}

#[test]
fn test_handle_pod_event_applied_empty() {
    let pod = test_pod("pod");
    let ns_name = pod.namespaced_name();
    let mut h = make_pod_watcher(&ns_name, None);

    let evt = Event::Applied(pod);
    handle(&mut h, &evt, START_TS);

    assert_eq!(h.pw.get_owned_pod_lifecycle(&ns_name), None);
    assert_eq!(h.store.pod_count(), 0);
}

#[test]
fn test_handle_pod_event_applied() {
    let mut pod = test_pod("pod");
    let ns_name = pod.namespaced_name();
    let expected_data = PodLifecycleData::Running(START_TS);
    let mut h = make_pod_watcher(&ns_name, None);

    add_running_container(&mut pod, START_TS);
    let evt = Event::Applied(pod);

    handle(&mut h, &evt, START_TS);

    assert_eq!(h.pw.get_owned_pod_lifecycle(&ns_name).unwrap(), expected_data);
    // A pod graduates to the store only once its lifecycle is closed.
    assert_eq!(h.store.pod_count(), 0);
}

#[test]
fn test_handle_pod_event_applied_already_stored() {
    for stored_ts in [START_TS, 5555] {
        let mut pod = test_pod("pod");
        let ns_name = pod.namespaced_name();
        let stored_data = PodLifecycleData::Running(stored_ts);
        let mut h = make_pod_watcher(&ns_name, Some(&stored_data));

        add_running_container(&mut pod, START_TS);
        let evt = Event::Applied(pod);

        handle(&mut h, &evt, START_TS);

        assert_eq!(h.pw.get_owned_pod_lifecycle(&ns_name).unwrap(), stored_data);
        assert_eq!(h.store.pod_count(), 0);
    }
}

#[test]
fn test_handle_pod_event_applied_running_to_finished() {
    let mut pod = test_pod("pod");
    let ns_name = pod.namespaced_name();
    let stored_data = PodLifecycleData::Running(START_TS);
    let expected_data = PodLifecycleData::Finished(START_TS, END_TS);
    let mut h = make_pod_watcher(&ns_name, Some(&stored_data));

    add_finished_container(&mut pod, START_TS, END_TS);
    let evt = Event::Applied(pod);

    handle(&mut h, &evt, START_TS);

    // The closed interval is recorded exactly once and the pod leaves the
    // index.
    assert_eq!(h.store.get_pod_lifecycle(&ns_name).unwrap(), expected_data);
    assert_eq!(h.store.get_pod_owners(&ns_name).unwrap(), Vec::<OwnerRef>::new());
    assert_eq!(h.store.pod_count(), 1);
    assert_eq!(h.pw.get_owned_pod_lifecycle(&ns_name), None);
}

#[test]
fn test_handle_pod_event_applied_running_to_finished_wrong_start_ts() {
    let mut pod = test_pod("pod");
    let ns_name = pod.namespaced_name();
    let stored_data = PodLifecycleData::Running(5555);
    let mut h = make_pod_watcher(&ns_name, Some(&stored_data));

    add_finished_container(&mut pod, START_TS, END_TS);
    let evt = Event::Applied(pod);

    handle(&mut h, &evt, START_TS);

    assert_eq!(h.pw.get_owned_pod_lifecycle(&ns_name).unwrap(), stored_data);
    assert_eq!(h.store.pod_count(), 0);
}

#[test]
fn test_handle_pod_event_deleted_no_update() {
    for stored_data in [None, Some(&PodLifecycleData::Finished(1, 2))] {
        let mut pod = test_pod("pod");
        let ns_name = pod.namespaced_name();
        let mut h = make_pod_watcher(&ns_name, stored_data);

        add_running_container(&mut pod, START_TS);
        let evt = Event::Deleted(pod);

        handle(&mut h, &evt, END_TS);

        assert_eq!(h.pw.get_owned_pod_lifecycle(&ns_name), None);
        assert_eq!(h.store.pod_count(), 0);
    }
}

#[test]
fn test_handle_pod_event_deleted_finished() {
    for old_finished in [false, true] {
        // A finished index entry was already recorded, so only the index
        // changes; a running one is finalized at the clock reading, even
        // though the deleted object itself reports an earlier finish.
        let mut pod = test_pod("pod");
        let ns_name = pod.namespaced_name();
        let finished = PodLifecycleData::Finished(START_TS, END_TS);
        let stored_data =
            if old_finished { finished } else { PodLifecycleData::Running(START_TS) };
        let expected_data =
            if old_finished { None } else { Some(PodLifecycleData::Finished(START_TS, 10000)) };

        let mut h = make_pod_watcher(&ns_name, Some(&stored_data));

        add_finished_container(&mut pod, START_TS, END_TS);
        let evt = Event::Deleted(pod);

        handle(&mut h, &evt, 10000);

        assert_eq!(h.pw.get_owned_pod_lifecycle(&ns_name), None);
        assert_eq!(h.store.get_pod_lifecycle(&ns_name), expected_data);
    }
}

#[test]
fn test_handle_pod_event_deleted_running() {
    // Here the pod is still "running" when the delete call comes in, so we
    // expect the end_ts in the lifecycle data to match the current time.
    let mut pod = test_pod("pod");
    let ns_name = pod.namespaced_name();
    let stored_data = PodLifecycleData::Running(START_TS);
    let expected_data = PodLifecycleData::Finished(START_TS, END_TS);

    let mut h = make_pod_watcher(&ns_name, Some(&stored_data));

    add_running_container(&mut pod, START_TS);
    let evt = Event::Deleted(pod);

    handle(&mut h, &evt, END_TS);

    assert_eq!(h.pw.get_owned_pod_lifecycle(&ns_name), None);
    assert_eq!(h.store.get_pod_lifecycle(&ns_name).unwrap(), expected_data);
}

#[test]
fn test_handle_pod_event_deleted_no_container_data() {
    // Same as the test case above, except this time the pod object
    // doesn't include any info about its containers, it just has metadata.
    let pod = test_pod("pod");
    let ns_name = pod.namespaced_name();
    let stored_data = PodLifecycleData::Running(START_TS);
    let expected_data = PodLifecycleData::Finished(START_TS, END_TS);

    let mut h = make_pod_watcher(&ns_name, Some(&stored_data));
    let evt = Event::Deleted(pod);
    handle(&mut h, &evt, END_TS);

    assert_eq!(h.pw.get_owned_pod_lifecycle(&ns_name), None);
    assert_eq!(h.store.get_pod_lifecycle(&ns_name).unwrap(), expected_data);
}

#[test]
fn test_handle_pod_event_restarted() {
    let pod_names = ["pod1", "pod2", "pod3"].map(|name| format!("{}/{}", TEST_NAMESPACE, name));

    let mut pw = PodWatcher::new();
    for name in ["pod1", "pod2", "pod3"] {
        assert!(pw.insert_tracked(
            TEST_NAMESPACE.to_string(),
            name.to_string(),
            PodLifecycleData::Running(START_TS),
        ));
    }

    let mut update_pod1 = test_pod("pod1");
    add_finished_container(&mut update_pod1, START_TS, END_TS);
    let mut update_pod2 = test_pod("pod2");
    add_running_container(&mut update_pod2, START_TS);

    let clock_ts: i64 = 10000;

    let mut cache = OwnerCache::new(CACHE_SIZE);
    for ns_name in &pod_names {
        cache.put(ns_name.clone(), Vec::new());
    }

    let mut store = TraceStore::new();
    let evt = Event::Restarted(vec![update_pod1, update_pod2]);

    pw.handle_pod_event(&evt, clock_ts, &mut cache, &mut store);

    // pod1 closed its interval and was recorded; pod2 is still running and
    // stays tracked with no store write; pod3 disappeared between watch
    // connections and is finalized at the clock reading.
    assert_eq!(pw.get_owned_pod_lifecycle(&pod_names[0]), None);
    assert_eq!(
        store.get_pod_lifecycle(&pod_names[0]).unwrap(),
        PodLifecycleData::Finished(START_TS, END_TS)
    );
    assert_eq!(
        pw.get_owned_pod_lifecycle(&pod_names[1]).unwrap(),
        PodLifecycleData::Running(START_TS)
    );
    assert_eq!(store.get_pod_lifecycle(&pod_names[1]), None);
    assert_eq!(pw.get_owned_pod_lifecycle(&pod_names[2]), None);
    assert_eq!(
        store.get_pod_lifecycle(&pod_names[2]).unwrap(),
        PodLifecycleData::Finished(START_TS, clock_ts)
    );
    assert_eq!(store.pod_count(), 2);
}

fn owner_ref(api_version: &str, kind: &str, name: &str, uid: &str) -> OwnerRef {
    OwnerRef {
        api_version: api_version.to_string(),
        kind: kind.to_string(),
        name: name.to_string(),
        uid: uid.to_string(),
    }
}

#[test]
fn test_compute_owner_chain_cached() {
    let mut pod = test_pod("pod");
    let rsref = owner_ref("apps/v1", "replicaset", "test-rs", "asdfasdf");
    let deplref = owner_ref("apps/v1", "deployment", "test-depl", "yuioyoiuy");

    pod.owner_refs.push(rsref.clone());
    let expected_owners = vec![rsref, deplref];

    let mut cache = OwnerCache::new(CACHE_SIZE);
    cache.put(pod.namespaced_name(), expected_owners.clone());

    // A cache hit answers at once and asks for nothing.
    let (_resolver, progress) =
        ChainResolver::start(&mut cache, &pod.namespace, &pod.name, &pod.owner_refs);
    match progress {
        ResolveProgress::Resolved(res) => assert_eq!(res, expected_owners),
        ResolveProgress::Fetch(_) => panic!("cache hit must not fetch"),
    }
}

#[test]
fn test_compute_owner_chain() {
    let mut pod = test_pod("pod");
    let rsref = owner_ref("apps/v1", "ReplicaSet", "test-rs", "asdfasdf");
    let deplref = owner_ref("apps/v1", "Deployment", "test-depl", "yuioyoiuy");

    pod.owner_refs.push(rsref.clone());

    let mut cache = OwnerCache::new(CACHE_SIZE);
    let (mut resolver, progress) =
        ChainResolver::start(&mut cache, &pod.namespace, &pod.name, &pod.owner_refs);

    // The walk asks for the ReplicaSet, then for the Deployment it owns,
    // then ends at an object without owners.
    let q = match progress {
        ResolveProgress::Fetch(q) => q,
        ResolveProgress::Resolved(_) => panic!("nothing is cached yet"),
    };
    assert_eq!(q.api_version, "apps/v1");
    assert_eq!(q.kind, "ReplicaSet");
    assert_eq!(q.namespace, TEST_NAMESPACE);
    assert_eq!(q.name, "test-rs");

    let rs_owners = vec![deplref.clone()];
    let q2 = match resolver.step(&mut cache, &"test-rs".to_string(), &rs_owners) {
        ResolveProgress::Fetch(q2) => q2,
        ResolveProgress::Resolved(_) => panic!("the deployment is not resolved yet"),
    };
    assert_eq!(q2.kind, "Deployment");
    assert_eq!(q2.name, "test-depl");

    let res = match resolver.step(&mut cache, &"test-depl".to_string(), &Vec::new()) {
        ResolveProgress::Resolved(res) => res,
        ResolveProgress::Fetch(_) => panic!("an object without owners ends the walk"),
    };
    assert_eq!(res, vec![rsref.clone(), deplref.clone()]);

    // Every level was cached: resolving again answers from the cache.
    let (_r2, progress2) =
        ChainResolver::start(&mut cache, &pod.namespace, &pod.name, &pod.owner_refs);
    match progress2 {
        ResolveProgress::Resolved(res2) => assert_eq!(res2, vec![rsref, deplref]),
        ResolveProgress::Fetch(_) => panic!("the chain is cached now"),
    }
}
