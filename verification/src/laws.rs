//! The properties the library promises beyond the contracts of the single
//! functions: idempotence of registration and assignment, drift going away
//! under application, determinism of content resolution, and the shape of
//! the state transitions one reconciliation pass writes.

use vstd::prelude::*;
use crate::agent::{
    config_files, config_sysctls, configset_drifted, configset_failures, configset_pass,
    drifted_files, drifted_sysctls, file_mode, file_resource, ks_namespace, node_with_status,
    spec_register, sysctl_resource,
};
use crate::drift::{
    ResourceView, SystemStateView, applied, drift_check, spec_apply, spec_apply_all, sysctl_index,
    file_index, touches_sysctl, touches_file, lemma_spec_apply, lemma_spec_apply_all_concat,
    lemma_spec_apply_all_frame_sysctl, lemma_spec_apply_all_frame_file,
    lemma_sysctl_index_update, lemma_sysctl_index_push, lemma_sysctl_index_found,
    lemma_file_index_update, lemma_file_index_push, lemma_file_index_found,
};
use crate::konfigset::KonfigSysctlView;
use crate::errors::ErrorKind;
use crate::konfignode::{
    ConfigsetRefView, KonfigNodeState, KonfigNodeStatusView, KonfigNodeView, allowed_transition,
};
use crate::konfigset::{KonfigFileView, KonfigSetView};
use crate::manager::{assign_pass, assigned_node, refs_contain};
use crate::plane::{
    Action, ControlPlaneView, StatusPatch, configmap_index, node_index, pair_lookup,
    lemma_node_index_found, lemma_node_index_update,
};
use crate::resolver::{
    configmap_resolution, effective_namespace, configmap_ref_name, resolution, static_content,
};
use crate::strutil::seq_starts_with;

verus! {

/// Registering an already-registered node name never duplicates the object
/// and resets nothing beyond the documented status reset: the node count,
/// the node's metadata and desired state, and every other node stay as
/// they were, while the status returns to the initial one; and registering
/// again changes nothing more.
pub proof fn lemma_register_idempotent(nodes: Seq<KonfigNodeView>, name: Seq<char>)
    requires
        node_index(nodes, name) is Some,
    ensures
        ({
            let post = spec_register(nodes, name);
            let i = node_index(nodes, name)->Some_0;
            &&& post.len() == nodes.len()
            &&& post[i].metadata == nodes[i].metadata
            &&& post[i].spec == nodes[i].spec
            &&& post[i].status == Some(KonfigNodeStatusView::initial())
            &&& forall|j: int| 0 <= j < nodes.len() && j != i ==> post[j] == nodes[j]
        }),
        spec_register(spec_register(nodes, name), name) == spec_register(nodes, name),
{
    lemma_node_index_found(nodes, name, 0);
    let i = node_index(nodes, name)->Some_0;
    let updated = node_with_status(nodes[i], KonfigNodeStatusView::initial());
    let post = spec_register(nodes, name);
    lemma_node_index_update(nodes, i, updated, 0, name);
    assert(node_index(post, name) == Some(i));
    assert(node_with_status(post[i], KonfigNodeStatusView::initial()) == post[i]);
    assert(post.update(i, post[i]) =~= post);
}

/// How many references of a list name the given configset.
pub open spec fn ref_count(rs: Seq<ConfigsetRefView>, name: Seq<char>, namespace: Seq<char>) -> nat
    decreases rs.len(),
{
    if rs.len() == 0 {
        0
    } else {
        ref_count(rs.drop_last(), name, namespace) + if rs.last().refers_to(name, namespace) {
            1nat
        } else {
            0nat
        }
    }
}

/// A list that carries no reference to a configset counts none of it.
proof fn lemma_ref_count_zero(rs: Seq<ConfigsetRefView>, name: Seq<char>, namespace: Seq<char>)
    requires
        !refs_contain(rs, name, namespace),
    ensures
        ref_count(rs, name, namespace) == 0,
    decreases rs.len(),
{
    if rs.len() > 0 {
        assert(!rs.last().refers_to(name, namespace));
        assert(forall|j: int| 0 <= j < rs.len() - 1 ==> rs.drop_last()[j] == rs[j]);
        lemma_ref_count_zero(rs.drop_last(), name, namespace);
    }
}

/// Appending one reference raises the count by one exactly when it names
/// the configset.
proof fn lemma_ref_count_push(rs: Seq<ConfigsetRefView>, r: ConfigsetRefView, name: Seq<char>, namespace: Seq<char>)
    ensures
        ref_count(rs.push(r), name, namespace) == ref_count(rs, name, namespace) + if r.refers_to(
            name,
            namespace,
        ) {
            1nat
        } else {
            0nat
        },
{
    assert(rs.push(r).drop_last() =~= rs);
    assert(rs.push(r).last() == r);
}

/// An assignment pass never moves the position any node name is found at:
/// it neither adds nor removes nodes, only rewrites reference lists.
pub proof fn lemma_assign_index_stable(
    name: Seq<char>,
    namespace: Seq<char>,
    matched: Seq<Seq<char>>,
    plane: ControlPlaneView,
)
    ensures
        assign_pass(name, namespace, matched, plane).1.nodes.len() == plane.nodes.len(),
        forall|n: Seq<char>| #[trigger] node_index(assign_pass(name, namespace, matched, plane).1.nodes, n)
            == node_index(plane.nodes, n),
    decreases matched.len(),
{
    if matched.len() > 0 {
        match node_index(plane.nodes, matched[0]) {
            None => {
                lemma_assign_index_stable(name, namespace, matched.drop_first(), plane);
            },
            Some(ni) => {
                lemma_node_index_found(plane.nodes, matched[0], 0);
                if refs_contain(plane.nodes[ni].refs(), name, namespace) {
                } else {
                    let next = ControlPlaneView {
                        nodes: plane.nodes.update(ni, assigned_node(plane.nodes[ni], name, namespace)),
                        konfigsets: plane.konfigsets,
                        configmaps: plane.configmaps,
                    };
                    assert forall|n: Seq<char>| #[trigger] node_index(next.nodes, n)
                        == node_index(plane.nodes, n) by {
                        lemma_node_index_update(
                            plane.nodes, ni, assigned_node(plane.nodes[ni], name, namespace), 0, n,
                        );
                    }
                    lemma_assign_index_stable(name, namespace, matched.drop_first(), next);
                }
            },
        }
    }
}

/// A node that already carries the reference is left exactly as it is by
/// an assignment pass of that configset: no duplicate is ever appended.
pub proof fn lemma_assign_keeps_assigned_node(
    name: Seq<char>,
    namespace: Seq<char>,
    matched: Seq<Seq<char>>,
    plane: ControlPlaneView,
    k: int,
)
    requires
        0 <= k < plane.nodes.len(),
        refs_contain(plane.nodes[k].refs(), name, namespace),
    ensures
        assign_pass(name, namespace, matched, plane).1.nodes.len() == plane.nodes.len(),
        assign_pass(name, namespace, matched, plane).1.nodes[k] == plane.nodes[k],
    decreases matched.len(),
{
    if matched.len() > 0 {
        match node_index(plane.nodes, matched[0]) {
            None => {
                lemma_assign_keeps_assigned_node(name, namespace, matched.drop_first(), plane, k);
            },
            Some(ni) => {
                lemma_node_index_found(plane.nodes, matched[0], 0);
                if refs_contain(plane.nodes[ni].refs(), name, namespace) {
                } else {
                    assert(ni != k);
                    let next = ControlPlaneView {
                        nodes: plane.nodes.update(ni, assigned_node(plane.nodes[ni], name, namespace)),
                        konfigsets: plane.konfigsets,
                        configmaps: plane.configmaps,
                    };
                    assert(next.nodes[k] == plane.nodes[k]);
                    lemma_assign_keeps_assigned_node(name, namespace, matched.drop_first(), next, k);
                }
            },
        }
    }
}

/// An assignment pass never produces a duplicate reference: when no node's
/// list names the configset more than once before the pass, none does
/// afterwards either.
pub proof fn lemma_assign_no_duplicates(
    name: Seq<char>,
    namespace: Seq<char>,
    matched: Seq<Seq<char>>,
    plane: ControlPlaneView,
)
    requires
        forall|k: int| 0 <= k < plane.nodes.len() ==> ref_count(
            (#[trigger] plane.nodes[k]).refs(), name, namespace,
        ) <= 1,
    ensures
        assign_pass(name, namespace, matched, plane).1.nodes.len() == plane.nodes.len(),
        forall|k: int| 0 <= k < plane.nodes.len() ==> ref_count(
            (#[trigger] assign_pass(name, namespace, matched, plane).1.nodes[k]).refs(), name, namespace,
        ) <= 1,
    decreases matched.len(),
{
    if matched.len() > 0 {
        match node_index(plane.nodes, matched[0]) {
            None => {
                lemma_assign_no_duplicates(name, namespace, matched.drop_first(), plane);
            },
            Some(ni) => {
                lemma_node_index_found(plane.nodes, matched[0], 0);
                if refs_contain(plane.nodes[ni].refs(), name, namespace) {
                } else {
                    lemma_ref_count_zero(plane.nodes[ni].refs(), name, namespace);
                    lemma_ref_count_push(
                        plane.nodes[ni].refs(),
                        ConfigsetRefView { namespace: Some(namespace), name: Some(name) },
                        name,
                        namespace,
                    );
                    let next = ControlPlaneView {
                        nodes: plane.nodes.update(ni, assigned_node(plane.nodes[ni], name, namespace)),
                        konfigsets: plane.konfigsets,
                        configmaps: plane.configmaps,
                    };
                    assert(ref_count(next.nodes[ni].refs(), name, namespace) <= 1);
                    lemma_assign_no_duplicates(name, namespace, matched.drop_first(), next);
                }
            },
        }
    }
}

/// Running the same assignment pass twice changes nothing the second time:
/// the first matched node then already carries the reference, so the pass
/// ends at once with the short requeue and an untouched plane.
pub proof fn lemma_assign_idempotent(
    name: Seq<char>,
    namespace: Seq<char>,
    matched: Seq<Seq<char>>,
    plane: ControlPlaneView,
)
    requires
        matched.len() > 0,
        node_index(plane.nodes, matched[0]) is Some,
    ensures
        ({
            let post = assign_pass(name, namespace, matched, plane).1;
            assign_pass(name, namespace, matched, post) == (Action { requeue_secs: 30u64 }, post)
        }),
{
    let ni = node_index(plane.nodes, matched[0])->Some_0;
    lemma_node_index_found(plane.nodes, matched[0], 0);
    let post = assign_pass(name, namespace, matched, plane).1;
    lemma_assign_index_stable(name, namespace, matched, plane);
    assert(node_index(post.nodes, matched[0]) == Some(ni));
    if refs_contain(plane.nodes[ni].refs(), name, namespace) {
        lemma_assign_keeps_assigned_node(name, namespace, matched, plane, ni);
        assert(refs_contain(post.nodes[ni].refs(), name, namespace));
    } else {
        let next = ControlPlaneView {
            nodes: plane.nodes.update(ni, assigned_node(plane.nodes[ni], name, namespace)),
            konfigsets: plane.konfigsets,
            configmaps: plane.configmaps,
        };
        let r = ConfigsetRefView { namespace: Some(namespace), name: Some(name) };
        assert(next.nodes[ni].refs().last() == r);
        assert(refs_contain(next.nodes[ni].refs(), name, namespace));
        lemma_assign_keeps_assigned_node(name, namespace, matched.drop_first(), next, ni);
        assert(refs_contain(post.nodes[ni].refs(), name, namespace));
    }
}

/// Applying a resource and asking again at once reports no drift, for both
/// resource kinds, given no interference in between.
pub proof fn lemma_apply_then_clean(r: ResourceView, sys: SystemStateView, post: SystemStateView)
    requires
        applied(r, sys, post),
    ensures
        drift_check(r, post) == Some(false),
{
}

/// Applying the same resource twice with no intervening change yields no
/// further effect: the second application is the identity.
pub proof fn lemma_apply_idempotent(r: ResourceView, sys: SystemStateView)
    ensures
        spec_apply(r, spec_apply(r, sys)) == spec_apply(r, sys),
{
    let once = spec_apply(r, sys);
    match r {
        ResourceView::Sysctl { name, value } => {
            let e = crate::drift::SysctlEntryView { name: name, value: value };
            match sysctl_index(sys.sysctls, name) {
                Some(i) => {
                    lemma_sysctl_index_found(sys.sysctls, name, 0);
                    lemma_sysctl_index_update(sys.sysctls, i, e, 0, name);
                    assert(sysctl_index(once.sysctls, name) == Some(i));
                    assert(once.sysctls.update(i, e) =~= once.sysctls);
                },
                None => {
                    lemma_sysctl_index_push(sys.sysctls, e, 0, name);
                    let i = sys.sysctls.len() as int;
                    assert(sysctl_index(once.sysctls, name) == Some(i));
                    assert(once.sysctls.update(i, e) =~= once.sysctls);
                },
            }
        },
        ResourceView::File { destination, content, mode } => {
            let e = crate::drift::FileEntryView { path: destination, content: content, mode: mode };
            match file_index(sys.files, destination) {
                Some(i) => {
                    lemma_file_index_found(sys.files, destination, 0);
                    lemma_file_index_update(sys.files, i, e, 0, destination);
                    assert(file_index(once.files, destination) == Some(i));
                    assert(once.files.update(i, e) =~= once.files);
                },
                None => {
                    lemma_file_index_push(sys.files, e, 0, destination);
                    let i = sys.files.len() as int;
                    assert(file_index(once.files, destination) == Some(i));
                    assert(once.files.update(i, e) =~= once.files);
                },
            }
        },
    }
}

/// Content resolution is a function of the file and the store alone, and
/// behaves scheme by scheme: an inline source always yields its own
/// content, a keyed source with its key present always yields the stored
/// value, and an absent key is always a reported error, never an empty
/// string.
pub proof fn lemma_content_resolution(f: KonfigFileView, plane: ControlPlaneView, default_ns: Seq<char>)
    ensures
        seq_starts_with(f.source, "static://"@) ==> resolution(f, plane, default_ns)
            == Ok::<Seq<char>, ErrorKind>(static_content(f)),
        (!seq_starts_with(f.source, "static://"@) && seq_starts_with(f.source, "k8s://configmap"@))
            ==> resolution(f, plane, default_ns) == configmap_resolution(f, plane, default_ns),
        ({
            let ns = effective_namespace(f, default_ns);
            let nm = configmap_ref_name(f.source);
            (f.key is Some && configmap_index(plane.configmaps, nm, ns) is Some
                && plane.configmaps[configmap_index(plane.configmaps, nm, ns)->Some_0].data is Some
                && pair_lookup(
                    plane.configmaps[configmap_index(plane.configmaps, nm, ns)->Some_0].data->Some_0,
                    f.key->Some_0,
                ) is Some) ==> configmap_resolution(f, plane, default_ns) == Ok::<Seq<char>, ErrorKind>(
                pair_lookup(
                    plane.configmaps[configmap_index(plane.configmaps, nm, ns)->Some_0].data->Some_0,
                    f.key->Some_0,
                )->Some_0,
            )
        }),
        ({
            let ns = effective_namespace(f, default_ns);
            let nm = configmap_ref_name(f.source);
            (f.key is Some && configmap_index(plane.configmaps, nm, ns) is Some
                && plane.configmaps[configmap_index(plane.configmaps, nm, ns)->Some_0].data is Some
                && pair_lookup(
                    plane.configmaps[configmap_index(plane.configmaps, nm, ns)->Some_0].data->Some_0,
                    f.key->Some_0,
                ) is None) ==> configmap_resolution(f, plane, default_ns) == Err::<Seq<char>, ErrorKind>(
                ErrorKind::ConfigMapMissingKey,
            )
        }),
{
}

/// A reconciliation pass that finds drift and meets no failure writes
/// exactly the syncing report and then the ready report, and both
/// transitions, taken from the starting state, are admitted by the state
/// machine.
pub proof fn lemma_state_machine_coverage(
    me: Seq<char>,
    ks: KonfigSetView,
    plane: ControlPlaneView,
    sys: SystemStateView,
)
    requires
        configset_failures(ks, plane) == 0,
        configset_drifted(ks, plane, sys).len() > 0,
    ensures
        ({
            let ps = configset_pass(me, ks, plane, sys).0;
            &&& ps.len() == 2
            &&& ps[0] == StatusPatch { state: KonfigNodeState::SYNCING, synced: Some(false) }
            &&& ps[1] == StatusPatch { state: KonfigNodeState::READY, synced: Some(true) }
            &&& allowed_transition(KonfigNodeState::STARTING, ps[0].state)
            &&& allowed_transition(ps[0].state, ps[1].state)
        }),
{
    let ps = configset_pass(me, ks, plane, sys).0;
    assert(ps =~= seq![
        StatusPatch { state: KonfigNodeState::SYNCING, synced: Some(false) },
        StatusPatch { state: KonfigNodeState::READY, synced: Some(true) },
    ]);
}

/// The state machine admits no transition out of the leaving state: once a
/// node reports leaving, the only admitted step keeps it there, and the
/// unregistration that wrote it deletes the object at once.
pub proof fn lemma_no_exit_from_leaving(to: KonfigNodeState)
    ensures
        allowed_transition(KonfigNodeState::LEAVING, to) ==> to == KonfigNodeState::LEAVING,
{
}

/// No handle collected from a sysctl list touches a kernel setting the
/// list does not name.
proof fn lemma_drifted_sysctls_touch(l: Seq<KonfigSysctlView>, sys: SystemStateView, n: Seq<char>)
    requires
        forall|j: int| 0 <= j < l.len() ==> (#[trigger] l[j]).name != n,
    ensures
        forall|p: int| 0 <= p < drifted_sysctls(l, sys).len()
            ==> !touches_sysctl(#[trigger] drifted_sysctls(l, sys)[p], n),
    decreases l.len(),
{
    if l.len() > 0 {
        let l0 = l.drop_last();
        assert(forall|j: int| 0 <= j < l.len() - 1 ==> l0[j] == l[j]);
        lemma_drifted_sysctls_touch(l0, sys, n);
        let rest = drifted_sysctls(l0, sys);
        let whole = drifted_sysctls(l, sys);
        if drift_check(sysctl_resource(l.last()), sys) == Some(true) {
            assert(whole == rest.push(sysctl_resource(l.last())));
            assert forall|p: int| 0 <= p < whole.len() implies !touches_sysctl(#[trigger] whole[p], n) by {
                if p < rest.len() {
                    assert(whole[p] == rest[p]);
                } else {
                    assert(whole[p] == sysctl_resource(l.last()));
                    assert(l.last().name != n);
                }
            }
        } else {
            assert(whole == rest);
        }
    }
}

/// Every handle collected from a sysctl list is a sysctl handle: it never
/// touches any file.
proof fn lemma_drifted_sysctls_are_sysctls(l: Seq<KonfigSysctlView>, sys: SystemStateView)
    ensures
        forall|p: int| 0 <= p < drifted_sysctls(l, sys).len()
            ==> (#[trigger] drifted_sysctls(l, sys)[p]) is Sysctl,
    decreases l.len(),
{
    if l.len() > 0 {
        lemma_drifted_sysctls_are_sysctls(l.drop_last(), sys);
    }
}

/// No handle collected from a file list touches a file the list does not
/// name.
proof fn lemma_drifted_files_touch(
    l: Seq<KonfigFileView>,
    plane: ControlPlaneView,
    ns: Seq<char>,
    sys: SystemStateView,
    p0: Seq<char>,
)
    requires
        forall|j: int| 0 <= j < l.len() ==> (#[trigger] l[j]).destination != p0,
    ensures
        forall|p: int| 0 <= p < drifted_files(l, plane, ns, sys).len()
            ==> !touches_file(#[trigger] drifted_files(l, plane, ns, sys)[p], p0),
    decreases l.len(),
{
    if l.len() > 0 {
        let l0 = l.drop_last();
        assert(forall|j: int| 0 <= j < l.len() - 1 ==> l0[j] == l[j]);
        lemma_drifted_files_touch(l0, plane, ns, sys, p0);
        let rest = drifted_files(l0, plane, ns, sys);
        let whole = drifted_files(l, plane, ns, sys);
        match resolution(l.last(), plane, ns) {
            Ok(c) => {
                let r = file_resource(l.last(), c);
                if drift_check(r, sys) == Some(true) {
                    assert(whole == rest.push(r));
                    assert forall|p: int| 0 <= p < whole.len() implies !touches_file(
                        #[trigger] whole[p], p0,
                    ) by {
                        if p < rest.len() {
                            assert(whole[p] == rest[p]);
                        } else {
                            assert(whole[p] == r);
                            assert(l.last().destination != p0);
                        }
                    }
                } else {
                    assert(whole == rest);
                }
            },
            Err(_) => {
                assert(whole == rest);
            },
        }
    }
}

/// Every handle collected from a file list is a file handle: it never
/// touches any kernel setting.
proof fn lemma_drifted_files_are_files(
    l: Seq<KonfigFileView>,
    plane: ControlPlaneView,
    ns: Seq<char>,
    sys: SystemStateView,
)
    ensures
        forall|p: int| 0 <= p < drifted_files(l, plane, ns, sys).len()
            ==> (#[trigger] drifted_files(l, plane, ns, sys)[p]) is File,
    decreases l.len(),
{
    if l.len() > 0 {
        lemma_drifted_files_are_files(l.drop_last(), plane, ns, sys);
    }
}

/// Applying the drifted subset of a sysctl list, with pairwise distinct
/// names, leaves each declared setting at its desired value when it was
/// drifted, and untouched otherwise.
proof fn lemma_sysctls_converge(l: Seq<KonfigSysctlView>, sys: SystemStateView, start: SystemStateView)
    requires
        forall|i: int, j: int| 0 <= i < j < l.len() ==> (#[trigger] l[i]).name != (#[trigger] l[j]).name,
    ensures
        forall|k: int| 0 <= k < l.len() ==> spec_apply_all(drifted_sysctls(l, sys), start).sysctl_value(
            (#[trigger] l[k]).name,
        ) == if drift_check(sysctl_resource(l[k]), sys) == Some(true) {
            Some(l[k].value)
        } else {
            start.sysctl_value(l[k].name)
        },
    decreases l.len(),
{
    if l.len() > 0 {
        let l0 = l.drop_last();
        assert(forall|j: int| 0 <= j < l.len() - 1 ==> l0[j] == l[j]);
        lemma_sysctls_converge(l0, sys, start);
        let mid = spec_apply_all(drifted_sysctls(l0, sys), start);
        let last = l.last();
        if drift_check(sysctl_resource(last), sys) == Some(true) {
            let r = sysctl_resource(last);
            assert(drifted_sysctls(l, sys) == drifted_sysctls(l0, sys).push(r));
            assert(drifted_sysctls(l0, sys).push(r).drop_last() =~= drifted_sysctls(l0, sys));
            assert(spec_apply_all(drifted_sysctls(l, sys), start) == spec_apply(r, mid));
            lemma_spec_apply(r, mid);
            assert forall|k: int| 0 <= k < l.len() implies spec_apply_all(
                drifted_sysctls(l, sys), start,
            ).sysctl_value((#[trigger] l[k]).name) == (if drift_check(sysctl_resource(l[k]), sys)
                == Some(true) {
                Some(l[k].value)
            } else {
                start.sysctl_value(l[k].name)
            }) by {
                if k < l.len() - 1 {
                    assert(l[k].name != last.name);
                }
            }
        } else {
            assert(drifted_sysctls(l, sys) == drifted_sysctls(l0, sys));
            lemma_drifted_sysctls_touch(l0, sys, last.name);
            lemma_spec_apply_all_frame_sysctl(drifted_sysctls(l0, sys), start, last.name);
        }
    }
}

/// Applying the drifted subset of a file list, with pairwise distinct
/// destinations, leaves each resolvable declared file at its desired
/// content and mode when it was drifted, and untouched otherwise.
proof fn lemma_files_converge(
    l: Seq<KonfigFileView>,
    plane: ControlPlaneView,
    ns: Seq<char>,
    sys: SystemStateView,
    start: SystemStateView,
)
    requires
        forall|i: int, j: int| 0 <= i < j < l.len() ==> (#[trigger] l[i]).destination
            != (#[trigger] l[j]).destination,
    ensures
        forall|k: int| 0 <= k < l.len() && resolution(#[trigger] l[k], plane, ns) is Ok
            ==> spec_apply_all(drifted_files(l, plane, ns, sys), start).file_state(l[k].destination)
                == if drift_check(file_resource(l[k], resolution(l[k], plane, ns)->Ok_0), sys)
                    == Some(true) {
                    Some((resolution(l[k], plane, ns)->Ok_0, file_mode(l[k])))
                } else {
                    start.file_state(l[k].destination)
                },
    decreases l.len(),
{
    if l.len() > 0 {
        let l0 = l.drop_last();
        assert(forall|j: int| 0 <= j < l.len() - 1 ==> l0[j] == l[j]);
        lemma_files_converge(l0, plane, ns, sys, start);
        let mid = spec_apply_all(drifted_files(l0, plane, ns, sys), start);
        let last = l.last();
        match resolution(last, plane, ns) {
            Ok(c) => {
                let r = file_resource(last, c);
                if drift_check(r, sys) == Some(true) {
                    assert(drifted_files(l, plane, ns, sys) == drifted_files(l0, plane, ns, sys).push(r));
                    assert(drifted_files(l0, plane, ns, sys).push(r).drop_last() =~= drifted_files(
                        l0, plane, ns, sys,
                    ));
                    assert(spec_apply_all(drifted_files(l, plane, ns, sys), start) == spec_apply(r, mid));
                    lemma_spec_apply(r, mid);
                    assert forall|k: int| 0 <= k < l.len() && resolution(#[trigger] l[k], plane, ns) is Ok
                        implies spec_apply_all(drifted_files(l, plane, ns, sys), start).file_state(
                        l[k].destination,
                    ) == (if drift_check(file_resource(l[k], resolution(l[k], plane, ns)->Ok_0), sys)
                        == Some(true) {
                        Some((resolution(l[k], plane, ns)->Ok_0, file_mode(l[k])))
                    } else {
                        start.file_state(l[k].destination)
                    }) by {
                        if k < l.len() - 1 {
                            assert(l[k].destination != last.destination);
                        }
                    }
                } else {
                    assert(drifted_files(l, plane, ns, sys) == drifted_files(l0, plane, ns, sys));
                    lemma_drifted_files_touch(l0, plane, ns, sys, last.destination);
                    lemma_spec_apply_all_frame_file(
                        drifted_files(l0, plane, ns, sys), start, last.destination,
                    );
                }
            },
            Err(_) => {
                assert(drifted_files(l, plane, ns, sys) == drifted_files(l0, plane, ns, sys));
            },
        }
    }
}

/// A sysctl list in which no entry currently drifts contributes no handle.
proof fn lemma_drifted_sysctls_empty(l: Seq<KonfigSysctlView>, sys: SystemStateView)
    requires
        forall|k: int| 0 <= k < l.len() ==> drift_check(sysctl_resource(#[trigger] l[k]), sys)
            != Some(true),
    ensures
        drifted_sysctls(l, sys).len() == 0,
    decreases l.len(),
{
    if l.len() > 0 {
        assert(forall|j: int| 0 <= j < l.len() - 1 ==> l.drop_last()[j] == l[j]);
        lemma_drifted_sysctls_empty(l.drop_last(), sys);
    }
}

/// A file list in which no resolvable entry currently drifts contributes
/// no handle.
proof fn lemma_drifted_files_empty(
    l: Seq<KonfigFileView>,
    plane: ControlPlaneView,
    ns: Seq<char>,
    sys: SystemStateView,
)
    requires
        forall|k: int| 0 <= k < l.len() && resolution(#[trigger] l[k], plane, ns) is Ok
            ==> drift_check(file_resource(l[k], resolution(l[k], plane, ns)->Ok_0), sys) != Some(true),
    ensures
        drifted_files(l, plane, ns, sys).len() == 0,
    decreases l.len(),
{
    if l.len() > 0 {
        assert(forall|j: int| 0 <= j < l.len() - 1 ==> l.drop_last()[j] == l[j]);
        lemma_drifted_files_empty(l.drop_last(), plane, ns, sys);
    }
}

/// Applying everything one pass found drifted leaves nothing drifted: an
/// immediately repeated pass, with no external change in between, finds
/// an empty drifted set, for both resource kinds. The declared sysctl
/// names and file destinations must be pairwise distinct: of two declared
/// entries for one name, only the later applied one can hold afterwards.
pub proof fn lemma_pass_converges(ks: KonfigSetView, plane: ControlPlaneView, sys: SystemStateView)
    requires
        forall|i: int, j: int| 0 <= i < j < config_sysctls(ks).len()
            ==> (#[trigger] config_sysctls(ks)[i]).name != (#[trigger] config_sysctls(ks)[j]).name,
        forall|i: int, j: int| 0 <= i < j < config_files(ks).len()
            ==> (#[trigger] config_files(ks)[i]).destination
                != (#[trigger] config_files(ks)[j]).destination,
    ensures
        configset_drifted(ks, plane, spec_apply_all(configset_drifted(ks, plane, sys), sys)).len() == 0,
{
    let sv = config_sysctls(ks);
    let fv = config_files(ks);
    let ns = ks_namespace(ks);
    let dsy = drifted_sysctls(sv, sys);
    let dfi = drifted_files(fv, plane, ns, sys);
    lemma_spec_apply_all_concat(dsy, dfi, sys);
    let sys1 = spec_apply_all(dsy, sys);
    let sys2 = spec_apply_all(dfi, sys1);
    assert(spec_apply_all(configset_drifted(ks, plane, sys), sys) == sys2);

    lemma_sysctls_converge(sv, sys, sys);
    lemma_drifted_files_are_files(fv, plane, ns, sys);
    lemma_drifted_sysctls_are_sysctls(sv, sys);

    // each declared kernel setting reports no drift on the repeated pass
    assert forall|k: int| 0 <= k < sv.len() implies drift_check(
        sysctl_resource(#[trigger] sv[k]), sys2,
    ) != Some(true) by {
        lemma_spec_apply_all_frame_sysctl(dfi, sys1, sv[k].name);
        assert(sys2.sysctl_value(sv[k].name) == sys1.sysctl_value(sv[k].name));
    }
    lemma_drifted_sysctls_empty(sv, sys2);

    // each resolvable declared file reports no drift on the repeated pass
    assert forall|k: int| 0 <= k < fv.len() && resolution(#[trigger] fv[k], plane, ns) is Ok
        implies drift_check(
        file_resource(fv[k], resolution(fv[k], plane, ns)->Ok_0), sys2,
    ) != Some(true) by {
        lemma_spec_apply_all_frame_file(dsy, sys, fv[k].destination);
        assert(sys1.file_state(fv[k].destination) == sys.file_state(fv[k].destination));
        lemma_files_converge(fv, plane, ns, sys, sys1);
    }
    lemma_drifted_files_empty(fv, plane, ns, sys2);
}

} // verus!
