use konfig::agent::{drifted_configs, get_node_name, knode_reconcile, KNodeMgr};
use konfig::drift::{Resource, SystemState, SysctlEntry, FileEntry};
use konfig::errors::{Error, ErrorKind};
use konfig::konfignode::{self, ConfigsetRef, KonfigNode, KonfigNodeState, KonfigNodeStatus};
use konfig::konfigset::{Configuration, KonfigFile, KonfigSet, KonfigSetSpec, KonfigSysctl};
use konfig::manager::{error_policy, reconcile};
use konfig::meta::Metadata;
use konfig::plane::{ConfigMap, ControlPlane, StatusPatch};
use konfig::resolver::{file_content_from, read_content_configmap, read_static_content};
use konfig::tern;

fn empty_system() -> SystemState {
    SystemState { sysctls: Vec::new(), files: Vec::new() }
}

fn empty_plane() -> ControlPlane {
    ControlPlane { nodes: Vec::new(), konfigsets: Vec::new(), configmaps: Vec::new() }
}

fn meta(name: &str, namespace: Option<&str>) -> Metadata {
    Metadata {
        name: Some(name.to_string()),
        namespace: namespace.map(|s| s.to_string()),
        labels: None,
    }
}

fn file(source: &str, destination: &str, key: Option<&str>, content: Option<&str>) -> KonfigFile {
    KonfigFile {
        ensure: None,
        source: source.to_string(),
        destination: destination.to_string(),
        mode: None,
        key: key.map(|s| s.to_string()),
        content: content.map(|s| s.to_string()),
        namespace: None,
    }
}

fn konfigset_with(
    name: &str,
    namespace: &str,
    sysctls: Option<Vec<KonfigSysctl>>,
    files: Option<Vec<KonfigFile>>,
) -> KonfigSet {
    KonfigSet {
        metadata: meta(name, Some(namespace)),
        spec: KonfigSetSpec {
            selectors: Some(vec!["konfignodes.runfc.br/managed=true".to_string()]),
            configurations: Some(Configuration { sysctls, files }),
        },
    }
}

fn configmap(name: &str, namespace: &str, data: Option<Vec<(&str, &str)>>) -> ConfigMap {
    ConfigMap {
        metadata: meta(name, Some(namespace)),
        data: data.map(|d| d.into_iter().map(|(k, v)| (k.to_string(), v.to_string())).collect()),
    }
}

fn node_status(node: &KonfigNode) -> &KonfigNodeStatus {
    node.status.as_ref().expect("node should carry a status")
}

#[test]
fn state_names() {
    assert_eq!(KonfigNodeState::STARTING.to_string(), "starting");
    assert_eq!(KonfigNodeState::SYNCING.to_string(), "syncing");
    assert_eq!(KonfigNodeState::READY.to_string(), "ready");
    assert_eq!(KonfigNodeState::FAILED.to_string(), "failed");
    assert_eq!(KonfigNodeState::LEAVING.to_string(), "leaving");
}

#[test]
fn configset_ref_roundtrip() {
    let r = ConfigsetRef::new("c1", "ops");
    let (name, namespace) = r.names();
    assert_eq!(name, "c1");
    assert_eq!(namespace, "ops");
    assert!(r.references("c1", "ops"));
    assert!(!r.references("c1", "other"));
    assert!(!r.references("c2", "ops"));
}

#[test]
fn partial_ref_matches_nothing() {
    let r = ConfigsetRef { namespace: None, name: Some("c1".to_string()) };
    assert!(!r.references("c1", "ops"));
}

#[test]
fn status_default_and_from() {
    let d = KonfigNodeStatus::default();
    assert_eq!(d.state.as_deref(), Some("starting"));
    assert_eq!(d.synced, Some(false));
    assert!(d.failed_reason.is_none());
    assert!(d.last_updated.is_none());

    let f = KonfigNodeStatus::from(KonfigNodeState::FAILED, false, "boom", 1700000000);
    assert_eq!(f.state.as_deref(), Some("failed"));
    assert_eq!(f.synced, Some(false));
    assert_eq!(f.failed_reason.as_deref(), Some("boom"));
    assert_eq!(f.last_updated, Some(1700000000));
}

#[test]
fn new_node_shape() {
    let node = konfignode::new("n1", Vec::new());
    assert_eq!(node.metadata.name.as_deref(), Some("n1"));
    assert!(node.metadata.labels.is_none());
    assert_eq!(node.konfigsets().len(), 0);
    assert_eq!(node_status(&node).state.as_deref(), Some("starting"));
}

#[test]
fn konfigsets_copies_list() {
    let mut node = konfignode::new("n1", Vec::new());
    node.spec.configsets = Some(vec![ConfigsetRef::new("a", "x"), ConfigsetRef::new("b", "y")]);
    let refs = node.konfigsets();
    assert_eq!(refs.len(), 2);
    assert!(refs[0].references("a", "x"));
    assert!(refs[1].references("b", "y"));
}

#[test]
fn tern_picks_sides() {
    assert_eq!(tern(true, 1, 2), 1);
    assert_eq!(tern(false, 1, 2), 2);
}

#[test]
fn node_name_override_or_hostname() {
    assert_eq!(get_node_name(Some("given".to_string()), "host"), "given");
    assert_eq!(get_node_name(None, "host"), "host");
}

#[test]
fn static_content_verbatim() {
    let f = file("static://", "/etc/a", None, Some("hello\n"));
    assert_eq!(read_static_content(&f), "hello\n");
    let plane = empty_plane();
    assert_eq!(file_content_from(&f, &plane, "ops").unwrap(), "hello\n");
}

#[test]
fn static_content_absent_is_empty() {
    let f = file("static://", "/etc/a", None, None);
    assert_eq!(read_static_content(&f), "");
    let plane = empty_plane();
    assert_eq!(file_content_from(&f, &plane, "ops").unwrap(), "");
}

#[test]
fn configmap_content_resolves() {
    let f = file("k8s://configmap/cm1", "/etc/a", Some("data"), None);
    let mut plane = empty_plane();
    plane.configmaps.push(configmap("cm1", "ops", Some(vec![("data", "value-v")])));
    assert_eq!(read_content_configmap(&f, &plane, "ops").unwrap(), "value-v");
    assert_eq!(file_content_from(&f, &plane, "ops").unwrap(), "value-v");
}

#[test]
fn configmap_file_namespace_overrides_default() {
    let mut f = file("k8s://configmap/cm1", "/etc/a", Some("data"), None);
    f.namespace = Some("other".to_string());
    let mut plane = empty_plane();
    plane.configmaps.push(configmap("cm1", "other", Some(vec![("data", "v")])));
    assert_eq!(file_content_from(&f, &plane, "ops").unwrap(), "v");
}

#[test]
fn configmap_key_required() {
    let f = file("k8s://configmap/cm1", "/etc/a", None, None);
    let plane = empty_plane();
    match file_content_from(&f, &plane, "ops") {
        Err(Error::KeyFieldRequired { source }) => assert_eq!(source, "k8s://configmap/cm1"),
        other => panic!("expected a key-required error, got {:?}", other.is_ok()),
    }
}

#[test]
fn configmap_not_found() {
    let f = file("k8s://configmap/cm1", "/etc/a", Some("data"), None);
    let plane = empty_plane();
    match file_content_from(&f, &plane, "ops") {
        Err(Error::ConfigMapNotFound { namespace, name }) => {
            assert_eq!(namespace, "ops");
            assert_eq!(name, "cm1");
        },
        other => panic!("expected a not-found error, got {:?}", other.is_ok()),
    }
}

#[test]
fn configmap_missing_data() {
    let f = file("k8s://configmap/cm1", "/etc/a", Some("data"), None);
    let mut plane = empty_plane();
    plane.configmaps.push(configmap("cm1", "ops", None));
    match file_content_from(&f, &plane, "ops") {
        Err(Error::ConfigMapMissingData { namespace, name }) => {
            assert_eq!(namespace, "ops");
            assert_eq!(name, "cm1");
        },
        other => panic!("expected a missing-data error, got {:?}", other.is_ok()),
    }
}

#[test]
fn configmap_missing_key_is_error_not_empty() {
    let f = file("k8s://configmap/cm1", "/etc/a", Some("data"), None);
    let mut plane = empty_plane();
    plane.configmaps.push(configmap("cm1", "ops", Some(vec![("other", "v")])));
    match file_content_from(&f, &plane, "ops") {
        Err(Error::ConfigMapMissingKey { namespace, name, key }) => {
            assert_eq!(namespace, "ops");
            assert_eq!(name, "cm1");
            assert_eq!(key, "data");
        },
        other => panic!("expected a missing-key error, got {:?}", other.is_ok()),
    }
}

#[test]
fn malformed_k8s_source() {
    let f = file("k8s://secret/s1", "/etc/a", Some("data"), None);
    let plane = empty_plane();
    match file_content_from(&f, &plane, "ops") {
        Err(Error::MalformedSource { source }) => assert_eq!(source, "k8s://secret/s1"),
        other => panic!("expected a malformed-source error, got {:?}", other.is_ok()),
    }
}

#[test]
fn unsupported_source() {
    let f = file("http://example/a", "/etc/a", None, None);
    let plane = empty_plane();
    match file_content_from(&f, &plane, "ops") {
        Err(Error::UnsupportedSource { source }) => assert_eq!(source, "http://example/a"),
        other => panic!("expected an unsupported-source error, got {:?}", other.is_ok()),
    }
}

#[test]
fn sysctl_drift_detect_and_apply() {
    let mut system = empty_system();
    system.sysctls.push(SysctlEntry { name: "vm.swappiness".to_string(), value: "60".to_string() });
    let r = Resource::new_sysctl("vm.swappiness", "10");
    assert_eq!(r.has_drifted(&system).unwrap(), true);
    r.apply(&mut system).unwrap();
    assert_eq!(r.has_drifted(&system).unwrap(), false);
    assert_eq!(system.observe_sysctl("vm.swappiness").as_deref(), Some("10"));
}

#[test]
fn sysctl_unobservable_is_error() {
    let system = empty_system();
    let r = Resource::new_sysctl("vm.swappiness", "10");
    assert!(r.has_drifted(&system).is_err());
}

#[test]
fn file_drift_detect_and_apply() {
    let mut system = empty_system();
    let r = Resource::new_file("/etc/motd", "hi\n", 644);
    assert_eq!(r.has_drifted(&system).unwrap(), true, "a missing file is drift");
    r.apply(&mut system).unwrap();
    assert_eq!(r.has_drifted(&system).unwrap(), false);
    let (content, mode) = system.observe_file("/etc/motd").unwrap();
    assert_eq!(content, "hi\n");
    assert_eq!(mode, 644);

    let other_mode = Resource::new_file("/etc/motd", "hi\n", 600);
    assert_eq!(other_mode.has_drifted(&system).unwrap(), true, "a mode difference is drift");
}

#[test]
fn register_creates_then_rejoins() {
    let mgr = KNodeMgr::new("n1".to_string(), 60);
    let mut plane = empty_plane();
    mgr.register(&mut plane);
    assert_eq!(plane.nodes.len(), 1);
    let labels = plane.nodes[0].metadata.labels.clone().unwrap();
    assert!(labels.contains(&("konfignodes.runfc.br/managed".to_string(), "true".to_string())));
    assert!(labels.contains(&("konfignodes.runfc.br/name".to_string(), "n1".to_string())));

    // a second registration never duplicates the object and only resets status
    plane.nodes[0].status = Some(KonfigNodeStatus::from(KonfigNodeState::READY, true, "x", 1700000000));
    plane.nodes[0].spec.configsets = Some(vec![ConfigsetRef::new("c1", "ops")]);
    mgr.register(&mut plane);
    assert_eq!(plane.nodes.len(), 1);
    assert_eq!(node_status(&plane.nodes[0]).state.as_deref(), Some("starting"));
    assert_eq!(node_status(&plane.nodes[0]).synced, Some(false));
    assert!(node_status(&plane.nodes[0]).failed_reason.is_none());
    assert_eq!(plane.nodes[0].konfigsets().len(), 1, "desired state survives a rejoin");
}

#[test]
fn unregister_marks_leaving_then_deletes() {
    let mgr = KNodeMgr::new("n1".to_string(), 60);
    let mut plane = empty_plane();
    mgr.register(&mut plane);
    let patches = mgr.unregister(&mut plane);
    assert_eq!(patches, vec![StatusPatch { state: KonfigNodeState::LEAVING, synced: None }]);
    assert_eq!(plane.nodes.len(), 0);

    let none = mgr.unregister(&mut plane);
    assert!(none.is_empty());
}

#[test]
fn patch_status_state_is_partial() {
    let mgr = KNodeMgr::new("n1".to_string(), 60);
    let mut plane = empty_plane();
    mgr.register(&mut plane);
    mgr.patch_status_state(&mut plane, "n1", KonfigNodeState::SYNCING, None);
    assert_eq!(node_status(&plane.nodes[0]).state.as_deref(), Some("syncing"));
    assert_eq!(node_status(&plane.nodes[0]).synced, Some(false), "an absent flag leaves synced alone");
    mgr.patch_status_state(&mut plane, "n1", KonfigNodeState::READY, Some(true));
    assert_eq!(node_status(&plane.nodes[0]).synced, Some(true));
}

#[test]
fn assignment_reconcile_assigns_once() {
    // a configset matching one unassigned node gets exactly one reference
    let mut plane = empty_plane();
    let mgr = KNodeMgr::new("n1".to_string(), 60);
    mgr.register(&mut plane);
    let ks = konfigset_with("c1", "ops", None, None);
    let matched = vec!["n1".to_string()];

    let action = reconcile(&ks, &matched, &mut plane).unwrap();
    assert_eq!(action.requeue_secs, 15);
    let refs = plane.nodes[0].konfigsets();
    assert_eq!(refs.len(), 1);
    assert!(refs[0].references("c1", "ops"));

    // reconciling again finds the reference, requeues shortly, adds nothing
    let again = reconcile(&ks, &matched, &mut plane).unwrap();
    assert_eq!(again.requeue_secs, 30);
    assert_eq!(plane.nodes[0].konfigsets().len(), 1);
}

#[test]
fn assignment_without_selectors_does_nothing() {
    let mut plane = empty_plane();
    let mgr = KNodeMgr::new("n1".to_string(), 60);
    mgr.register(&mut plane);
    let mut ks = konfigset_with("c1", "ops", None, None);
    ks.spec.selectors = None;
    let action = reconcile(&ks, &vec!["n1".to_string()], &mut plane).unwrap();
    assert_eq!(action.requeue_secs, 15);
    assert_eq!(plane.nodes[0].konfigsets().len(), 0);
}

#[test]
fn assignment_with_empty_selector_list_does_nothing() {
    // an empty selector list selects nothing; it must not assign fleet-wide
    let mut plane = empty_plane();
    let mgr = KNodeMgr::new("n1".to_string(), 60);
    mgr.register(&mut plane);
    let mut ks = konfigset_with("c1", "ops", None, None);
    ks.spec.selectors = Some(Vec::new());
    let action = reconcile(&ks, &vec!["n1".to_string()], &mut plane).unwrap();
    assert_eq!(action.requeue_secs, 15);
    assert_eq!(plane.nodes[0].konfigsets().len(), 0);
}

#[test]
fn manager_error_policy_backs_off() {
    let ks = konfigset_with("c1", "ops", None, None);
    let a = error_policy(&ks, &Error::Other("store unreachable".to_string()));
    assert_eq!(a.requeue_secs, 60);
}

#[test]
fn drifted_configs_collects_in_order() {
    let mut system = empty_system();
    system.sysctls.push(SysctlEntry { name: "a".to_string(), value: "0".to_string() });
    system.sysctls.push(SysctlEntry { name: "b".to_string(), value: "2".to_string() });
    system.files.push(FileEntry { path: "/ok".to_string(), content: "same".to_string(), mode: 0o644 });
    let ks = konfigset_with(
        "c1",
        "ops",
        Some(vec![
            KonfigSysctl { name: "a".to_string(), value: "1".to_string() },
            KonfigSysctl { name: "b".to_string(), value: "2".to_string() },
        ]),
        Some(vec![
            file("static://", "/ok", None, Some("same")),
            file("static://", "/new", None, Some("text")),
        ]),
    );
    let plane = empty_plane();
    let (drifted, failures) = drifted_configs(&ks, &plane, &system);
    assert_eq!(failures, 0);
    assert_eq!(drifted.len(), 2);
    match &drifted[0] {
        Resource::Sysctl { name, value } => {
            assert_eq!(name, "a");
            assert_eq!(value, "1");
        },
        _ => panic!("expected the drifted sysctl first"),
    }
    match &drifted[1] {
        Resource::File { destination, content, mode } => {
            assert_eq!(destination, "/new");
            assert_eq!(content, "text");
            assert_eq!(*mode, 0o644, "the default octal mode applies when none is given");
        },
        _ => panic!("expected the missing file second"),
    }
}

#[test]
fn reconcile_ignores_other_nodes() {
    let mgr = KNodeMgr::new("n1".to_string(), 60);
    let mut plane = empty_plane();
    mgr.register(&mut plane);
    let other = konfignode::new("n2", Vec::new());
    let mut system = empty_system();
    let (patches, action) = knode_reconcile(&mgr, &other, &mut plane, &mut system);
    assert!(patches.is_empty());
    assert_eq!(action.requeue_secs, 60);
    assert_eq!(node_status(&plane.nodes[0]).state.as_deref(), Some("starting"));
}

#[test]
fn scenario_no_configsets_no_status_change() {
    // an assigned-to-nothing node reconciles without any status mutation
    let mgr = KNodeMgr::new("n1".to_string(), 60);
    let mut plane = empty_plane();
    mgr.register(&mut plane);
    let node = konfignode::new("n1", Vec::new());
    let mut system = empty_system();
    let (patches, action) = knode_reconcile(&mgr, &node, &mut plane, &mut system);
    assert!(patches.is_empty());
    assert_eq!(action.requeue_secs, 60);
    assert_eq!(node_status(&plane.nodes[0]).state.as_deref(), Some("starting"));
    assert_eq!(node_status(&plane.nodes[0]).synced, Some(false));
}

#[test]
fn scenario_assignment_controller_assigns() {
    // one assignment reconcile leaves n1 with exactly {name: c1, namespace: ops}
    let mut plane = empty_plane();
    let mgr = KNodeMgr::new("n1".to_string(), 60);
    mgr.register(&mut plane);
    let ks = konfigset_with("c1", "ops", None, None);
    reconcile(&ks, &vec!["n1".to_string()], &mut plane).unwrap();
    let refs = plane.nodes[0].konfigsets();
    assert_eq!(refs.len(), 1);
    let (name, namespace) = refs[0].names();
    assert_eq!(name, "c1");
    assert_eq!(namespace, "ops");
}

#[test]
fn scenario_sysctl_drift_converges() {
    // a drifted sysctl drives starting -> syncing -> ready with synced=true
    let mgr = KNodeMgr::new("n1".to_string(), 60);
    let mut plane = empty_plane();
    mgr.register(&mut plane);
    let ks = konfigset_with(
        "c1",
        "ops",
        Some(vec![KonfigSysctl { name: "vm.swappiness".to_string(), value: "10".to_string() }]),
        None,
    );
    plane.konfigsets.push(ks);
    let mut node = konfignode::new("n1", Vec::new());
    node.spec.configsets = Some(vec![ConfigsetRef::new("c1", "ops")]);
    plane.nodes[0].spec.configsets = Some(vec![ConfigsetRef::new("c1", "ops")]);
    let mut system = empty_system();
    system.sysctls.push(SysctlEntry { name: "vm.swappiness".to_string(), value: "60".to_string() });

    let (patches, _action) = knode_reconcile(&mgr, &node, &mut plane, &mut system);
    assert_eq!(
        patches,
        vec![
            StatusPatch { state: KonfigNodeState::SYNCING, synced: Some(false) },
            StatusPatch { state: KonfigNodeState::READY, synced: Some(true) },
        ],
    );
    assert_eq!(system.observe_sysctl("vm.swappiness").as_deref(), Some("10"));
    assert_eq!(node_status(&plane.nodes[0]).state.as_deref(), Some("ready"));
    assert_eq!(node_status(&plane.nodes[0]).synced, Some(true));
}

#[test]
fn scenario_missing_configmap_key_fails_without_writing() {
    // an unresolvable file reports failed, synced=false, and writes nothing
    let mgr = KNodeMgr::new("n1".to_string(), 60);
    let mut plane = empty_plane();
    mgr.register(&mut plane);
    let ks = konfigset_with(
        "c1",
        "ops",
        None,
        Some(vec![file("k8s://configmap/cm1", "/etc/managed", Some("data"), None)]),
    );
    plane.konfigsets.push(ks);
    plane.configmaps.push(configmap("cm1", "ops", Some(vec![("other", "v")])));
    plane.nodes[0].spec.configsets = Some(vec![ConfigsetRef::new("c1", "ops")]);
    let mut node = konfignode::new("n1", Vec::new());
    node.spec.configsets = Some(vec![ConfigsetRef::new("c1", "ops")]);
    let mut system = empty_system();

    let (patches, _action) = knode_reconcile(&mgr, &node, &mut plane, &mut system);
    assert_eq!(
        patches,
        vec![
            StatusPatch { state: KonfigNodeState::FAILED, synced: Some(false) },
            StatusPatch { state: KonfigNodeState::FAILED, synced: None },
        ],
    );
    assert_eq!(node_status(&plane.nodes[0]).state.as_deref(), Some("failed"));
    assert_eq!(node_status(&plane.nodes[0]).synced, Some(false));
    assert!(system.observe_file("/etc/managed").is_none(), "the destination is never written");
}

#[test]
fn reconcile_skips_vanished_configset() {
    // a reference whose configset is gone is nothing to do, not an error
    let mgr = KNodeMgr::new("n1".to_string(), 60);
    let mut plane = empty_plane();
    mgr.register(&mut plane);
    plane.nodes[0].spec.configsets = Some(vec![ConfigsetRef::new("gone", "ops")]);
    let mut node = konfignode::new("n1", Vec::new());
    node.spec.configsets = Some(vec![ConfigsetRef::new("gone", "ops")]);
    let mut system = empty_system();
    let (patches, _action) = knode_reconcile(&mgr, &node, &mut plane, &mut system);
    assert!(patches.is_empty());
    assert_eq!(node_status(&plane.nodes[0]).state.as_deref(), Some("starting"));
}

#[test]
fn error_kind_tags_variants() {
    let e = Error::ConfigMapNotFound { namespace: "ops".to_string(), name: "cm1".to_string() };
    assert_eq!(e.kind(), ErrorKind::ConfigMapNotFound);
    assert_eq!(Error::Other("x".to_string()).kind(), ErrorKind::Other);
}

#[test]
fn agent_error_policy_requeues_at_interval() {
    let mgr = KNodeMgr::new("n1".to_string(), 60);
    let node = konfignode::new("n1", Vec::new());
    let a = konfig::agent::knode_error_policy(&node, &Error::Other("store unreachable".to_string()), &mgr);
    assert_eq!(a.requeue_secs, 60);
}

#[test]
fn drifted_configs_counts_resolution_failures() {
    let ks = konfigset_with(
        "c1",
        "ops",
        None,
        Some(vec![
            file("k8s://configmap/gone", "/etc/a", Some("data"), None),
            file("static://", "/etc/b", None, Some("text")),
        ]),
    );
    let plane = empty_plane();
    let system = empty_system();
    let (drifted, failures) = drifted_configs(&ks, &plane, &system);
    assert_eq!(failures, 1, "the unresolvable file is counted, not collected");
    assert_eq!(drifted.len(), 1, "the resolvable missing file still drifts");
}

#[test]
fn second_pass_finds_nothing_drifted() {
    // once a pass has applied everything, an immediate repeat has no work
    let mgr = KNodeMgr::new("n1".to_string(), 60);
    let mut plane = empty_plane();
    mgr.register(&mut plane);
    let ks = konfigset_with(
        "c1",
        "ops",
        Some(vec![KonfigSysctl { name: "vm.swappiness".to_string(), value: "10".to_string() }]),
        Some(vec![file("static://", "/etc/managed", None, Some("text"))]),
    );
    plane.konfigsets.push(ks);
    plane.nodes[0].spec.configsets = Some(vec![ConfigsetRef::new("c1", "ops")]);
    let mut node = konfignode::new("n1", Vec::new());
    node.spec.configsets = Some(vec![ConfigsetRef::new("c1", "ops")]);
    let mut system = empty_system();
    system.sysctls.push(SysctlEntry { name: "vm.swappiness".to_string(), value: "60".to_string() });

    let (first, _) = knode_reconcile(&mgr, &node, &mut plane, &mut system);
    assert_eq!(first.len(), 2, "the first pass syncs and settles");

    let (second, _) = knode_reconcile(&mgr, &node, &mut plane, &mut system);
    assert_eq!(
        second,
        vec![StatusPatch { state: KonfigNodeState::READY, synced: Some(true) }],
        "the repeat finds nothing drifted and only reports ready",
    );
    assert_eq!(system.observe_sysctl("vm.swappiness").as_deref(), Some("10"));
}
