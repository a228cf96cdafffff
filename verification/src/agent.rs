//! The per-node agent: registration and unregistration of the node object,
//! partial status updates, drift detection across a configset, and the
//! reconciliation pass that converges the local system toward everything
//! assigned to this node.

use vstd::prelude::*;
use crate::drift::{Resource, ResourceView, SystemState, SystemStateView, drift_check};
use crate::errors::Error;
use crate::konfignode::{
    KonfigNode, KonfigNodeState, KonfigNodeStatus, KonfigNodeStatusView, KonfigNodeView,
    ConfigsetRefView, state_name,
};
use crate::konfigset::{KonfigSet, KonfigSetView, KonfigSysctlView, KonfigFileView};
use crate::meta::clone_opt_string;
use crate::plane::{
    Action, ControlPlane, ControlPlaneView, StatusPatch, node_index, node_named,
    konfigset_index, lemma_node_index_update, lemma_node_index_push, lemma_node_index_found,
};
use crate::resolver::resolution;
use crate::strutil::str_eq;

verus! {

/// A status after a partial update: the state is rewritten, the sync flag
/// only when one is supplied, and every other field stays.
pub open spec fn status_with(st: KonfigNodeStatusView, state: KonfigNodeState, synced: Option<bool>) -> KonfigNodeStatusView {
    KonfigNodeStatusView {
        state: Some(state_name(state)),
        synced: match synced {
            Some(b) => Some(b),
            None => st.synced,
        },
        failed_reason: st.failed_reason,
        last_updated: st.last_updated,
    }
}

/// A node with its status replaced and everything else kept.
pub open spec fn node_with_status(n: KonfigNodeView, st: KonfigNodeStatusView) -> KonfigNodeView {
    KonfigNodeView { metadata: n.metadata, spec: n.spec, status: Some(st) }
}

/// The control plane after one partial status update of the named node:
/// absent nodes are left alone.
pub open spec fn apply_patch(plane: ControlPlaneView, name: Seq<char>, p: StatusPatch) -> ControlPlaneView {
    match node_index(plane.nodes, name) {
        Some(i) => ControlPlaneView {
            nodes: plane.nodes.update(
                i,
                node_with_status(plane.nodes[i], status_with(plane.nodes[i].status->Some_0, p.state, p.synced)),
            ),
            konfigsets: plane.konfigsets,
            configmaps: plane.configmaps,
        },
        None => plane,
    }
}

/// The control plane after a whole sequence of partial status updates of
/// the named node, applied in order.
pub open spec fn apply_patches(plane: ControlPlaneView, name: Seq<char>, ps: Seq<StatusPatch>) -> ControlPlaneView
    decreases ps.len(),
{
    if ps.len() == 0 {
        plane
    } else {
        apply_patch(apply_patches(plane, name, ps.drop_last()), name, ps.last())
    }
}

/// No status updates leave the control plane alone.
pub proof fn lemma_apply_patches_empty(plane: ControlPlaneView, name: Seq<char>)
    ensures
        apply_patches(plane, name, Seq::empty()) == plane,
{
}

/// Status updates compose one at a time.
pub proof fn lemma_apply_patches_push(plane: ControlPlaneView, name: Seq<char>, ps: Seq<StatusPatch>, p: StatusPatch)
    ensures
        apply_patches(plane, name, ps.push(p)) == apply_patch(apply_patches(plane, name, ps), name, p),
{
    assert(ps.push(p).drop_last() =~= ps);
    assert(ps.push(p).last() == p);
}

/// The labels the agent attaches at registration: the fleet-management
/// marker and the node's own name, as the selector surface.
pub open spec fn default_labels_view(name: Seq<char>) -> Seq<(Seq<char>, Seq<char>)> {
    seq![("konfignodes.runfc.br/managed"@, "true"@), ("konfignodes.runfc.br/name"@, name)]
}

/// The node object registration creates when none exists yet.
pub open spec fn registered_view(name: Seq<char>) -> KonfigNodeView {
    KonfigNodeView {
        metadata: crate::meta::MetadataView {
            name: Some(name),
            namespace: None,
            labels: Some(default_labels_view(name)),
        },
        spec: crate::konfignode::KonfigNodeSpecView { configsets: Some(Seq::empty()) },
        status: Some(KonfigNodeStatusView::initial()),
    }
}

/// The node list after registration: a present node keeps everything but
/// its status, which is reset to the initial one; an absent node is
/// created fresh.
pub open spec fn spec_register(nodes: Seq<KonfigNodeView>, name: Seq<char>) -> Seq<KonfigNodeView> {
    match node_index(nodes, name) {
        Some(i) => nodes.update(i, node_with_status(nodes[i], KonfigNodeStatusView::initial())),
        None => nodes.push(registered_view(name)),
    }
}

/// The agent's handle on its own node object: the node's name and the
/// steady-state reconciliation interval.
pub struct KNodeMgr {
    pub name: String,
    pub reconcilation_interval: u64,
}

impl KNodeMgr {
    /// An agent for the named node with the given reconcile interval.
    pub fn new(name: String, interval: u64) -> (r: Self)
        ensures
            r.name@ == name@,
            r.reconcilation_interval == interval,
    {
        Self { name, reconcilation_interval: interval }
    }

    /// The steady-state requeue request of this agent.
    pub fn requeue(&self) -> (a: Action)
        ensures
            a.requeue_secs == self.reconcilation_interval,
    {
        Action::requeue(self.reconcilation_interval)
    }

    /// The labels that mark this node as fleet-managed and name it.
    pub fn default_labels(&self) -> (r: Vec<(String, String)>)
        ensures
            crate::meta::pairs_view(r@) == default_labels_view(self.name@),
    {
        let mut labels: Vec<(String, String)> = Vec::new();
        labels.push(("konfignodes.runfc.br/managed".to_owned(), "true".to_owned()));
        labels.push(("konfignodes.runfc.br/name".to_owned(), self.name.clone()));
        proof {
            assert(crate::meta::pairs_view(labels@) =~= default_labels_view(self.name@));
        }
        labels
    }

    /// Replace the whole reported status of the named node; a node the
    /// store does not hold is left alone.
    pub fn patch_status(&self, plane: &mut ControlPlane, name: &str, new_status: KonfigNodeStatus)
        ensures
            match node_index(old(plane)@.nodes, name@) {
                Some(i) => final(plane)@.nodes == old(plane)@.nodes.update(
                    i,
                    node_with_status(old(plane)@.nodes[i], new_status@),
                ),
                None => final(plane)@.nodes == old(plane)@.nodes,
            },
            final(plane)@.konfigsets == old(plane)@.konfigsets,
            final(plane)@.configmaps == old(plane)@.configmaps,
    {
        match plane.find_node(name) {
            Some(i) => {
                plane.nodes[i].status = Some(new_status);
                proof {
                    assert(final(plane)@.nodes =~= old(plane)@.nodes.update(
                        i as int,
                        node_with_status(old(plane)@.nodes[i as int], new_status@),
                    ));
                }
            },
            None => {},
        }
    }

    /// Rewrite only the state, and the sync flag when one is supplied, of
    /// the named node's status: a partial update, not a full replace.
    pub fn patch_status_state(&self, plane: &mut ControlPlane, name: &str, state: KonfigNodeState, synced: Option<
        bool,
    >)
        requires
            match node_index(old(plane)@.nodes, name@) {
                Some(i) => old(plane)@.nodes[i].status is Some,
                None => true,
            },
        ensures
            final(plane)@ == apply_patch(old(plane)@, name@, StatusPatch { state, synced }),
            final(plane)@.konfigsets == old(plane)@.konfigsets,
            final(plane)@.configmaps == old(plane)@.configmaps,
    {
        match plane.find_node(name) {
            Some(i) => {
                let new_status: KonfigNodeStatus = {
                    let st = plane.nodes[i].status.as_ref().unwrap();
                    KonfigNodeStatus {
                        state: Some(state.to_string()),
                        synced: match synced {
                            Some(b) => Some(b),
                            None => st.synced,
                        },
                        failed_reason: clone_opt_string(&st.failed_reason),
                        last_updated: st.last_updated,
                    }
                };
                plane.nodes[i].status = Some(new_status);
                proof {
                    assert(final(plane)@.nodes =~= apply_patch(
                        old(plane)@, name@, StatusPatch { state, synced },
                    ).nodes);
                }
            },
            None => {},
        }
    }

    /// Join the fleet: create this node's object when absent (a present one
    /// is kept, so a restart rejoins), then reset the reported status to
    /// the starting default.
    pub fn register(&self, plane: &mut ControlPlane)
        ensures
            final(plane)@.nodes == spec_register(old(plane)@.nodes, self.name@),
            final(plane)@.konfigsets == old(plane)@.konfigsets,
            final(plane)@.configmaps == old(plane)@.configmaps,
    {
        let ghost nodes0 = plane@.nodes;
        match plane.find_node(self.name.as_str()) {
            Some(_) => {},
            None => {
                let labels = self.default_labels();
                proof {
                    assert(crate::meta::pairs_view(labels@).len() == labels@.len());
                    assert(default_labels_view(self.name@).len() == 2);
                }
                let node = crate::konfignode::new(self.name.as_str(), labels);
                proof {
                    let rv = registered_view(self.name@);
                    assert(node@.metadata == rv.metadata);
                    assert(node@.spec == rv.spec);
                    assert(node@.status == rv.status);
                    assert(node@ == rv);
                }
                plane.nodes.push(node);
                proof {
                    assert(plane@.nodes =~= nodes0.push(registered_view(self.name@)));
                    lemma_node_index_push(nodes0, registered_view(self.name@), 0, self.name@);
                }
            },
        };

        let status = KonfigNodeStatus::default();
        self.patch_status(plane, self.name.as_str(), status);
        proof {
            match node_index(nodes0, self.name@) {
                Some(i) => {},
                None => {
                    let pushed = nodes0.push(registered_view(self.name@));
                    let i = nodes0.len() as int;
                    assert(node_index(pushed, self.name@) == Some(i));
                    assert(node_with_status(pushed[i], KonfigNodeStatusView::initial()) == pushed[i]);
                    assert(pushed.update(i, pushed[i]) =~= pushed);
                },
            }
        }
    }

    /// Leave the fleet: mark this node's object as leaving, then delete it.
    /// An absent object means nothing to do. The returned patches are the
    /// status updates that were written before deletion.
    pub fn unregister(&self, plane: &mut ControlPlane) -> (ps: Vec<StatusPatch>)
        requires
            match node_index(old(plane)@.nodes, self.name@) {
                Some(i) => old(plane)@.nodes[i].status is Some,
                None => true,
            },
        ensures
            match node_index(old(plane)@.nodes, self.name@) {
                Some(i) => final(plane)@.nodes == old(plane)@.nodes.remove(i) && ps@ == seq![
                    StatusPatch { state: KonfigNodeState::LEAVING, synced: None },
                ],
                None => final(plane)@.nodes == old(plane)@.nodes && ps@ == Seq::<StatusPatch>::empty(),
            },
            final(plane)@.konfigsets == old(plane)@.konfigsets,
            final(plane)@.configmaps == old(plane)@.configmaps,
    {
        let mut ps: Vec<StatusPatch> = Vec::new();
        match plane.find_node(self.name.as_str()) {
            Some(i) => {
                self.patch_status_state(plane, self.name.as_str(), KonfigNodeState::LEAVING, None);
                ps.push(StatusPatch { state: KonfigNodeState::LEAVING, synced: None });
                proof {
                    assert(plane@.nodes.remove(i as int) =~= old(plane)@.nodes.remove(i as int));
                }
                plane.nodes.remove(i);
                proof {
                    assert(ps@ =~= seq![StatusPatch { state: KonfigNodeState::LEAVING, synced: None }]);
                }
            },
            None => {},
        }
        ps
    }
}

/// The requeue the node controller answers every reconcile error with: the
/// same fixed interval, so the loop retries instead of crashing.
pub fn knode_error_policy(knode: &KonfigNode, error: &Error, mgr: &KNodeMgr) -> (a: Action)
    ensures
        a.requeue_secs == mgr.reconcilation_interval,
{
    mgr.requeue()
}

/// The name this agent runs under: an explicit override when one is given,
/// else the machine's own hostname as the caller read it.
pub fn get_node_name(hostname: Option<String>, system_hostname: &str) -> (r: String)
    ensures
        hostname is Some ==> r@ == hostname->Some_0@,
        hostname is None ==> r@ == system_hostname@,
{
    match hostname {
        Some(h) => h,
        None => system_hostname.to_owned(),
    }
}

/// The drift handle of one desired kernel setting.
pub open spec fn sysctl_resource(sc: KonfigSysctlView) -> ResourceView {
    ResourceView::Sysctl { name: sc.name, value: sc.value }
}

/// The mode a managed file is applied with: its own, or the default.
pub open spec fn file_mode(f: KonfigFileView) -> u32 {
    match f.mode {
        Some(m) => m,
        None => 0o644,
    }
}

/// The drift handle of one managed file with its resolved content.
pub open spec fn file_resource(f: KonfigFileView, content: Seq<char>) -> ResourceView {
    ResourceView::File { destination: f.destination, content: content, mode: file_mode(f) }
}

/// The drifted subset of a sysctl list, in list order: entries whose
/// current value is observable and differs. An unobservable entry is
/// skipped, not treated as drift.
pub open spec fn drifted_sysctls(l: Seq<KonfigSysctlView>, sys: SystemStateView) -> Seq<ResourceView>
    decreases l.len(),
{
    if l.len() == 0 {
        Seq::empty()
    } else {
        let rest = drifted_sysctls(l.drop_last(), sys);
        let r = sysctl_resource(l.last());
        if drift_check(r, sys) == Some(true) {
            rest.push(r)
        } else {
            rest
        }
    }
}

/// The drifted subset of a file list, in list order: files whose content
/// resolves and whose current state differs. A file whose resolution fails
/// is excluded here and counted by [`failed_files`].
pub open spec fn drifted_files(
    l: Seq<KonfigFileView>,
    plane: ControlPlaneView,
    ns: Seq<char>,
    sys: SystemStateView,
) -> Seq<ResourceView>
    decreases l.len(),
{
    if l.len() == 0 {
        Seq::empty()
    } else {
        let rest = drifted_files(l.drop_last(), plane, ns, sys);
        match resolution(l.last(), plane, ns) {
            Ok(c) => {
                let r = file_resource(l.last(), c);
                if drift_check(r, sys) == Some(true) {
                    rest.push(r)
                } else {
                    rest
                }
            },
            Err(_) => rest,
        }
    }
}

/// How many files of the list fail to resolve against the store.
pub open spec fn failed_files(l: Seq<KonfigFileView>, plane: ControlPlaneView, ns: Seq<char>) -> nat
    decreases l.len(),
{
    if l.len() == 0 {
        0
    } else {
        failed_files(l.drop_last(), plane, ns) + if resolution(l.last(), plane, ns) is Err {
            1nat
        } else {
            0nat
        }
    }
}

/// The sysctl entries a configset declares, an empty list when absent.
pub open spec fn config_sysctls(ks: KonfigSetView) -> Seq<KonfigSysctlView> {
    match ks.spec.configurations {
        Some(c) => match c.sysctls {
            Some(s) => s,
            None => Seq::empty(),
        },
        None => Seq::empty(),
    }
}

/// The file entries a configset declares, an empty list when absent.
pub open spec fn config_files(ks: KonfigSetView) -> Seq<KonfigFileView> {
    match ks.spec.configurations {
        Some(c) => match c.files {
            Some(f) => f,
            None => Seq::empty(),
        },
        None => Seq::empty(),
    }
}

/// The namespace a configset lives in.
pub open spec fn ks_namespace(ks: KonfigSetView) -> Seq<char> {
    ks.metadata.namespace->Some_0
}

/// Every drifted resource a configset declares, sysctls before files.
pub open spec fn configset_drifted(ks: KonfigSetView, plane: ControlPlaneView, sys: SystemStateView) -> Seq<
    ResourceView,
> {
    drifted_sysctls(config_sysctls(ks), sys) + drifted_files(config_files(ks), plane, ks_namespace(ks), sys)
}

/// How many of a configset's files fail to resolve against the store.
pub open spec fn configset_failures(ks: KonfigSetView, plane: ControlPlaneView) -> nat {
    failed_files(config_files(ks), plane, ks_namespace(ks))
}

/// The shapes of a list of resource handles.
pub open spec fn resource_views(s: Seq<Resource>) -> Seq<ResourceView> {
    s.map_values(|x: Resource| x@)
}

/// Index and length facts of [`resource_views`].
pub proof fn lemma_resource_views(s: Seq<Resource>)
    ensures
        resource_views(s).len() == s.len(),
        forall|k: int| 0 <= k < s.len() ==> resource_views(s)[k] == s[k]@,
{
}

/// Build the drift-checkable handles for everything a configset declares
/// and collect those that have drifted, in declaration order; files whose
/// content cannot be resolved are counted as failures and excluded, and
/// entries whose current state cannot be observed are skipped.
pub fn drifted_configs(konfigset: &KonfigSet, plane: &ControlPlane, system: &SystemState) -> (r: (
    Vec<Resource>,
    usize,
))
    requires
        konfigset@.metadata.namespace is Some,
    ensures
        resource_views(r.0@) == configset_drifted(konfigset@, plane@, system@),
        r.1 as nat == configset_failures(konfigset@, plane@),
{
    let mut drifted: Vec<Resource> = Vec::new();
    let mut failures: usize = 0;
    let namespace = konfigset.metadata.namespace.as_ref().unwrap();

    let ghost sv = config_sysctls(konfigset@);
    let ghost fv = config_files(konfigset@);

    match &konfigset.spec.configurations {
        None => {
            proof {
                assert(resource_views(drifted@) =~= configset_drifted(konfigset@, plane@, system@));
            }
            (drifted, failures)
        },
        Some(configs) => {
            if let Some(sysctls) = &configs.sysctls {
                let n = sysctls.len();
                let mut i: usize = 0;
                proof {
                    assert(sv == sysctls@.map_values(|s: crate::konfigset::KonfigSysctl| s@));
                }
                while i < n
                    invariant
                        i <= n,
                        n == sysctls@.len(),
                        sv == sysctls@.map_values(|s: crate::konfigset::KonfigSysctl| s@),
                        resource_views(drifted@) == drifted_sysctls(sv.take(i as int), system@),
                    decreases n - i,
                {
                    let sc = &sysctls[i];
                    let r = Resource::Sysctl { name: sc.name.clone(), value: sc.value.clone() };
                    proof {
                        assert(r@ == sysctl_resource(sv[i as int]));
                        assert(sv.take(i as int + 1).drop_last() =~= sv.take(i as int));
                        assert(sv.take(i as int + 1).last() == sv[i as int]);
                    }
                    match r.has_drifted(system) {
                        Ok(has) => {
                            if has {
                                proof {
                                    assert(drift_check(r@, system@) == Some(true));
                                    assert(drifted_sysctls(sv.take(i as int + 1), system@)
                                        == drifted_sysctls(sv.take(i as int), system@).push(r@));
                                }
                                let ghost pre = resource_views(drifted@);
                                let ghost dpre = drifted@;
                                let ghost rex = r;
                                let ghost rv = r@;
                                drifted.push(r);
                                proof {
                                    assert(drifted@ == dpre.push(rex));
                                    lemma_resource_views(dpre);
                                    lemma_resource_views(drifted@);
                                    assert(resource_views(drifted@) =~= pre.push(rv));
                                }
                            } else {
                                proof {
                                    assert(drift_check(r@, system@) == Some(false));
                                    assert(drifted_sysctls(sv.take(i as int + 1), system@)
                                        == drifted_sysctls(sv.take(i as int), system@));
                                }
                            }
                        },
                        Err(_) => {
                            proof {
                                assert(drift_check(r@, system@) is None);
                                assert(drifted_sysctls(sv.take(i as int + 1), system@)
                                    == drifted_sysctls(sv.take(i as int), system@));
                            }
                        },
                    }
                    i = i + 1;
                }
                proof {
                    assert(sv.take(n as int) =~= sv);
                }
            } else {
                proof {
                    assert(resource_views(drifted@) =~= drifted_sysctls(sv, system@));
                }
            }

            let ghost after_sysctls = resource_views(drifted@);
            if let Some(files) = &configs.files {
                let n = files.len();
                let mut j: usize = 0;
                proof {
                    assert(fv == files@.map_values(|f: crate::konfigset::KonfigFile| f@));
                }
                while j < n
                    invariant
                        j <= n,
                        n == files@.len(),
                        fv == files@.map_values(|f: crate::konfigset::KonfigFile| f@),
                        after_sysctls == drifted_sysctls(sv, system@),
                        namespace@ == ks_namespace(konfigset@),
                        resource_views(drifted@) == after_sysctls + drifted_files(
                            fv.take(j as int), plane@, ks_namespace(konfigset@), system@,
                        ),
                        failures as nat == failed_files(fv.take(j as int), plane@, ks_namespace(konfigset@)),
                        failures <= j,
                    decreases n - j,
                {
                    let file = &files[j];
                    proof {
                        assert(fv.take(j as int + 1).drop_last() =~= fv.take(j as int));
                        assert(fv.take(j as int + 1).last() == fv[j as int]);
                    }
                    match crate::resolver::file_content_from(file, plane, namespace.as_str()) {
                        Ok(content) => {
                            let mode: u32 = match file.mode {
                                Some(m) => m,
                                None => 0o644,
                            };
                            let r = Resource::File {
                                destination: file.destination.clone(),
                                content,
                                mode,
                            };
                            proof {
                                assert(r@ == file_resource(
                                    fv[j as int],
                                    resolution(fv[j as int], plane@, ks_namespace(konfigset@))->Ok_0,
                                ));
                            }
                            match r.has_drifted(system) {
                                Ok(has) => {
                                    if has {
                                        proof {
                                            assert(drift_check(r@, system@) == Some(true));
                                            assert(drifted_files(
                                                fv.take(j as int + 1), plane@,
                                                ks_namespace(konfigset@), system@,
                                            ) == drifted_files(
                                                fv.take(j as int), plane@,
                                                ks_namespace(konfigset@), system@,
                                            ).push(r@));
                                        }
                                        let ghost pre = resource_views(drifted@);
                                        let ghost dpre = drifted@;
                                        let ghost rex = r;
                                        let ghost rv = r@;
                                        drifted.push(r);
                                        proof {
                                            assert(drifted@ == dpre.push(rex));
                                            lemma_resource_views(dpre);
                                            lemma_resource_views(drifted@);
                                            assert(resource_views(drifted@) =~= pre.push(rv));
                                            assert(resource_views(drifted@) =~= after_sysctls
                                                + drifted_files(
                                                    fv.take(j as int + 1), plane@,
                                                    ks_namespace(konfigset@), system@,
                                                ));
                                        }
                                    } else {
                                        proof {
                                            assert(drift_check(r@, system@) == Some(false));
                                            assert(drifted_files(
                                                fv.take(j as int + 1), plane@,
                                                ks_namespace(konfigset@), system@,
                                            ) == drifted_files(
                                                fv.take(j as int), plane@,
                                                ks_namespace(konfigset@), system@,
                                            ));
                                        }
                                    }
                                },
                                Err(_) => {},
                            }
                        },
                        Err(_e) => {
                            failures = failures + 1;
                        },
                    }
                    j = j + 1;
                }
                proof {
                    assert(fv.take(n as int) =~= fv);
                }
            } else {
                proof {
                    assert(resource_views(drifted@) =~= after_sysctls + drifted_files(
                        fv, plane@, ks_namespace(konfigset@), system@,
                    ));
                }
            }
            (drifted, failures)
        },
    }
}

/// One reconciliation pass of one configset, as a value: the partial
/// status updates it writes in order (a failure report when any file fails
/// to resolve, a syncing report when corrective work begins, and the final
/// ready or failed report), the control plane after those updates, and the
/// local system after every drifted resource has been applied.
pub open spec fn configset_pass(
    me: Seq<char>,
    ks: KonfigSetView,
    plane: ControlPlaneView,
    sys: SystemStateView,
) -> (Seq<StatusPatch>, ControlPlaneView, SystemStateView) {
    let ds = configset_drifted(ks, plane, sys);
    let fails = configset_failures(ks, plane);
    let ps = (if fails > 0 {
        seq![StatusPatch { state: KonfigNodeState::FAILED, synced: Some(false) }]
    } else {
        Seq::empty()
    }) + (if ds.len() > 0 {
        seq![StatusPatch { state: KonfigNodeState::SYNCING, synced: Some(false) }]
    } else {
        Seq::empty()
    }) + seq![
        if fails == 0 {
            StatusPatch { state: KonfigNodeState::READY, synced: Some(true) }
        } else {
            StatusPatch { state: KonfigNodeState::FAILED, synced: None }
        },
    ];
    (ps, apply_patches(plane, me, ps), crate::drift::spec_apply_all(ds, sys))
}

/// Write one partial status update of this agent's own node and record it.
fn patch_and_record(
    mgr: &KNodeMgr,
    plane: &mut ControlPlane,
    ps: &mut Vec<StatusPatch>,
    state: KonfigNodeState,
    synced: Option<bool>,
)
    requires
        match node_index(old(plane)@.nodes, mgr.name@) {
            Some(i) => old(plane)@.nodes[i].status is Some,
            None => true,
        },
    ensures
        final(plane)@ == apply_patch(old(plane)@, mgr.name@, StatusPatch { state, synced }),
        final(ps)@ == old(ps)@.push(StatusPatch { state, synced }),
        node_index(final(plane)@.nodes, mgr.name@) == node_index(old(plane)@.nodes, mgr.name@),
        match node_index(final(plane)@.nodes, mgr.name@) {
            Some(i) => final(plane)@.nodes[i].status is Some,
            None => true,
        },
        final(plane)@.konfigsets == old(plane)@.konfigsets,
        final(plane)@.configmaps == old(plane)@.configmaps,
{
    mgr.patch_status_state(plane, mgr.name.as_str(), state, synced);
    ps.push(StatusPatch { state, synced });
    proof {
        match node_index(old(plane)@.nodes, mgr.name@) {
            Some(i) => {
                lemma_node_index_found(old(plane)@.nodes, mgr.name@, 0);
                lemma_node_index_update(
                    old(plane)@.nodes,
                    i,
                    node_with_status(
                        old(plane)@.nodes[i],
                        status_with(old(plane)@.nodes[i].status->Some_0, state, synced),
                    ),
                    0,
                    mgr.name@,
                );
            },
            None => {},
        }
    }
}

/// One reconciliation pass over the configset stored at the given position:
/// detect every drifted resource, report syncing when there is corrective
/// work, apply each drifted resource independently, and report the final
/// outcome; a file that fails to resolve is reported as a failure at once
/// and excluded from the corrective work.
pub fn reconcile_configset(mgr: &KNodeMgr, ks_index: usize, plane: &mut ControlPlane, system: &mut SystemState) -> (ps: Vec<
    StatusPatch,
>)
    requires
        ks_index < old(plane).konfigsets@.len(),
        old(plane)@.konfigsets[ks_index as int].metadata.namespace is Some,
        match node_index(old(plane)@.nodes, mgr.name@) {
            Some(i) => old(plane)@.nodes[i].status is Some,
            None => true,
        },
    ensures
        ps@ == configset_pass(mgr.name@, old(plane)@.konfigsets[ks_index as int], old(plane)@, old(system)@).0,
        final(plane)@ == configset_pass(mgr.name@, old(plane)@.konfigsets[ks_index as int], old(plane)@, old(system)@).1,
        final(system)@ == configset_pass(mgr.name@, old(plane)@.konfigsets[ks_index as int], old(plane)@, old(system)@).2,
        node_index(final(plane)@.nodes, mgr.name@) == node_index(old(plane)@.nodes, mgr.name@),
        match node_index(final(plane)@.nodes, mgr.name@) {
            Some(i) => final(plane)@.nodes[i].status is Some,
            None => true,
        },
        final(plane)@.konfigsets == old(plane)@.konfigsets,
        final(plane)@.configmaps == old(plane)@.configmaps,
{
    let ghost pl0 = plane@;
    let ghost sy0 = system@;
    let ghost me = mgr.name@;
    let ghost ksv = plane@.konfigsets[ks_index as int];
    let ghost ds = configset_drifted(ksv, pl0, sy0);

    let (drifted, failures) = drifted_configs(&plane.konfigsets[ks_index], plane, system);
    let mut ps: Vec<StatusPatch> = Vec::new();
    let mut errors: usize = failures;

    if failures > 0 {
        patch_and_record(mgr, plane, &mut ps, KonfigNodeState::FAILED, Some(false));
        proof {
            lemma_apply_patches_empty(pl0, me);
            lemma_apply_patches_push(
                pl0, me, Seq::empty(), StatusPatch { state: KonfigNodeState::FAILED, synced: Some(false) },
            );
            assert(ps@ == Seq::empty().push(StatusPatch { state: KonfigNodeState::FAILED, synced: Some(false) }));
            assert(plane@ == apply_patches(pl0, me, ps@));
        }
    } else {
        proof {
            lemma_apply_patches_empty(pl0, me);
        }
    }
    let ghost ps_fail = ps@;
    assert(plane@ == apply_patches(pl0, me, ps_fail));

    if drifted.len() > 0 {
        patch_and_record(mgr, plane, &mut ps, KonfigNodeState::SYNCING, Some(false));
        proof {
            lemma_apply_patches_push(
                pl0, me, ps_fail, StatusPatch { state: KonfigNodeState::SYNCING, synced: Some(false) },
            );
            assert(plane@ == apply_patches(pl0, me, ps@));
        }

        let ghost pl_sync = plane@;
        let n = drifted.len();
        let mut k: usize = 0;
        while k < n
            invariant
                k <= n,
                n == drifted@.len(),
                resource_views(drifted@) == ds,
                system@ == crate::drift::spec_apply_all(ds.take(k as int), sy0),
                errors == failures,
                plane@ == pl_sync,
                failures <= usize::MAX,
            decreases n - k,
        {
            proof {
                lemma_resource_views(drifted@);
                assert(ds.take(k as int + 1).drop_last() =~= ds.take(k as int));
                assert(ds.take(k as int + 1).last() == drifted@[k as int]@);
            }
            let res = drifted[k].apply(system);
            match res {
                Ok(_) => {},
                Err(_) => {
                    errors = errors + 1;
                },
            }
            k = k + 1;
        }
        proof {
            assert(ds.take(n as int) =~= ds);
        }
    } else {
        proof {
            lemma_resource_views(drifted@);
            assert(ds.len() == 0);
            assert(crate::drift::spec_apply_all(ds, sy0) == sy0);
        }
    }
    let ghost ps_sync = ps@;
    assert(plane@ == apply_patches(pl0, me, ps_sync));
    assert(system@ == crate::drift::spec_apply_all(ds, sy0));

    let state = crate::tern(errors == 0, KonfigNodeState::READY, KonfigNodeState::FAILED);
    let synced = crate::tern(errors == 0, Some(true), None);
    patch_and_record(mgr, plane, &mut ps, state, synced);
    proof {
        lemma_apply_patches_push(pl0, me, ps_sync, StatusPatch { state, synced });
        assert(plane@ == apply_patches(pl0, me, ps@));
        assert(ps@ =~= configset_pass(me, ksv, pl0, sy0).0);
    }
    ps
}

/// One whole reconciliation pass of a node, as a value: every assigned
/// configset reference is looked up in order, references whose configset is
/// gone are skipped silently, and each found configset contributes one
/// [`configset_pass`].
pub open spec fn node_pass(
    me: Seq<char>,
    refs: Seq<ConfigsetRefView>,
    plane: ControlPlaneView,
    sys: SystemStateView,
) -> (Seq<StatusPatch>, ControlPlaneView, SystemStateView)
    decreases refs.len(),
{
    if refs.len() == 0 {
        (Seq::empty(), plane, sys)
    } else {
        let prev = node_pass(me, refs.drop_last(), plane, sys);
        let r = refs.last();
        match konfigset_index(prev.1.konfigsets, r.name->Some_0, r.namespace->Some_0) {
            None => prev,
            Some(i) => {
                let step = configset_pass(me, prev.1.konfigsets[i], prev.1, prev.2);
                (prev.0 + step.0, step.1, step.2)
            },
        }
    }
}

/// Reconcile this agent's own node object: ignore an event for any other
/// node, and otherwise run one [`configset_pass`] for every assigned
/// configset that the store still holds, skipping the others silently.
/// The returned status updates are the ones written, in order, and the
/// pass always asks to run again after the agent's fixed interval.
pub fn knode_reconcile(mgr: &KNodeMgr, knode: &KonfigNode, plane: &mut ControlPlane, system: &mut SystemState) -> (r: (
    Vec<StatusPatch>,
    Action,
))
    requires
        knode@.metadata.name is Some,
        forall|j: int| 0 <= j < knode@.refs().len() ==> (#[trigger] knode@.refs()[j]).complete(),
        match node_index(old(plane)@.nodes, mgr.name@) {
            Some(i) => old(plane)@.nodes[i].status is Some,
            None => true,
        },
    ensures
        !node_named(knode@, mgr.name@) ==> r.0@ == Seq::<StatusPatch>::empty() && final(plane)@ == old(plane)@
            && final(system)@ == old(system)@,
        node_named(knode@, mgr.name@) ==> {
            let t = node_pass(mgr.name@, knode@.refs(), old(plane)@, old(system)@);
            r.0@ == t.0 && final(plane)@ == t.1 && final(system)@ == t.2
        },
        r.1.requeue_secs == mgr.reconcilation_interval,
{
    let me = knode.metadata.name.as_ref().unwrap();
    if !str_eq(mgr.name.as_str(), me.as_str()) {
        return (Vec::new(), mgr.requeue());
    }

    let ghost pl0 = plane@;
    let ghost sy0 = system@;
    let ghost mev = mgr.name@;
    let ghost refs = knode@.refs();

    let configs = knode.konfigsets();
    let n = configs.len();
    let mut ps: Vec<StatusPatch> = Vec::new();
    let mut i: usize = 0;
    while i < n
        invariant
            i <= n,
            n == configs@.len(),
            crate::konfignode::refs_view(configs@) == refs,
            forall|j: int| 0 <= j < refs.len() ==> (#[trigger] refs[j]).complete(),
            mev == mgr.name@,
            ps@ == node_pass(mev, refs.take(i as int), pl0, sy0).0,
            plane@ == node_pass(mev, refs.take(i as int), pl0, sy0).1,
            system@ == node_pass(mev, refs.take(i as int), pl0, sy0).2,
            match node_index(plane@.nodes, mev) {
                Some(k) => plane@.nodes[k].status is Some,
                None => true,
            },
        decreases n - i,
    {
        proof {
            assert(refs.take(i as int + 1).drop_last() =~= refs.take(i as int));
            assert(refs.take(i as int + 1).last() == refs[i as int]);
            assert(configs@[i as int]@ == refs[i as int]);
        }
        let (kfg_name, kfg_namespace) = configs[i].names();
        match plane.find_konfigset(kfg_name.as_str(), kfg_namespace.as_str()) {
            None => {},
            Some(ks_idx) => {
                let ghost pl_i = plane@;
                let mut step = reconcile_configset(mgr, ks_idx, plane, system);
                proof {
                    assert(ps@ + step@ == node_pass(mev, refs.take(i as int + 1), pl0, sy0).0);
                }
                ps.append(&mut step);
            },
        }
        i = i + 1;
    }
    proof {
        assert(refs.take(n as int) =~= refs);
    }
    (ps, mgr.requeue())
}

} // verus!
