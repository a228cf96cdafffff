//! The fleet assignment controller: for a configset with selectors, walk
//! the nodes the store matched against the combined label selector and
//! idempotently append a reference to the configset on each of them. A node
//! found already carrying the reference ends the pass early with a short
//! requeue, leaving any later node for the next pass.

use vstd::prelude::*;
use crate::errors::Error;
use crate::konfignode::{
    ConfigsetRef, ConfigsetRefView, KonfigNode, KonfigNodeSpecView, KonfigNodeView, lemma_refs_view,
    refs_view,
};
use crate::konfigset::KonfigSet;
use crate::plane::{Action, ControlPlane, ControlPlaneView, node_index};

verus! {

/// Whether a configset carries any selector at all: an absent list and an
/// empty list alike select nothing, and the assignment controller does no
/// work for them.
pub open spec fn has_selectors(ks: crate::konfigset::KonfigSetView) -> bool {
    match ks.spec.selectors {
        Some(s) => s.len() > 0,
        None => false,
    }
}

/// Whether a reference list already carries a reference to the named
/// configset.
pub open spec fn refs_contain(rs: Seq<ConfigsetRefView>, name: Seq<char>, namespace: Seq<char>) -> bool {
    exists|j: int| 0 <= j < rs.len() && (#[trigger] rs[j]).refers_to(name, namespace)
}

/// A node with a reference to the named configset appended to its list,
/// and everything else kept.
pub open spec fn assigned_node(n: KonfigNodeView, name: Seq<char>, namespace: Seq<char>) -> KonfigNodeView {
    KonfigNodeView {
        metadata: n.metadata,
        spec: KonfigNodeSpecView {
            configsets: Some(n.refs().push(ConfigsetRefView { namespace: Some(namespace), name: Some(name) })),
        },
        status: n.status,
    }
}

/// One assignment pass of one configset over the matched node names, as a
/// value: nodes the store no longer holds are skipped; the first node found
/// already carrying the reference ends the pass with a short requeue;
/// every other node gets the reference appended. A completed pass asks to
/// run again at the base interval.
pub open spec fn assign_pass(
    name: Seq<char>,
    namespace: Seq<char>,
    matched: Seq<Seq<char>>,
    plane: ControlPlaneView,
) -> (Action, ControlPlaneView)
    decreases matched.len(),
{
    if matched.len() == 0 {
        (Action { requeue_secs: 15 }, plane)
    } else {
        match node_index(plane.nodes, matched[0]) {
            None => assign_pass(name, namespace, matched.drop_first(), plane),
            Some(ni) => {
                if refs_contain(plane.nodes[ni].refs(), name, namespace) {
                    (Action { requeue_secs: 30 }, plane)
                } else {
                    let next = ControlPlaneView {
                        nodes: plane.nodes.update(ni, assigned_node(plane.nodes[ni], name, namespace)),
                        konfigsets: plane.konfigsets,
                        configmaps: plane.configmaps,
                    };
                    assign_pass(name, namespace, matched.drop_first(), next)
                }
            },
        }
    }
}

/// The names of a list of node names, as characters.
pub open spec fn names_view(s: Seq<String>) -> Seq<Seq<char>> {
    s.map_values(|x: String| x@)
}

/// Index and length facts of [`names_view`].
pub proof fn lemma_names_view(s: Seq<String>)
    ensures
        names_view(s).len() == s.len(),
        forall|k: int| 0 <= k < s.len() ==> names_view(s)[k] == s[k]@,
{
}

/// Whether a node already carries a reference to the named configset.
pub fn node_has_ref(node: &KonfigNode, name: &str, namespace: &str) -> (r: bool)
    ensures
        r == refs_contain(node@.refs(), name@, namespace@),
{
    match &node.spec.configsets {
        None => {
            assert(node@.refs() =~= Seq::<ConfigsetRefView>::empty());
            false
        },
        Some(refs) => {
            let n = refs.len();
            let mut j: usize = 0;
            proof {
                lemma_refs_view(refs@);
            }
            while j < n
                invariant
                    j <= n,
                    n == refs@.len(),
                    node@.refs() == refs_view(refs@),
                    refs_view(refs@).len() == refs@.len(),
                    forall|k: int| 0 <= k < refs@.len() ==> refs_view(refs@)[k] == refs@[k]@,
                    forall|k: int| 0 <= k < j ==> !(#[trigger] refs_view(refs@)[k]).refers_to(name@, namespace@),
                decreases n - j,
            {
                if refs[j].references(name, namespace) {
                    assert(refs_view(refs@)[j as int].refers_to(name@, namespace@));
                    return true;
                }
                j = j + 1;
            }
            false
        },
    }
}

/// One reconcile of one configset by the central manager: append a
/// reference to it on every matched node that does not carry one yet. The
/// matched names are the nodes the store returned for the configset's
/// combined label selector; a configset whose selector list is absent or
/// empty selects nothing and does no assignment work.
pub fn reconcile(konfigset: &KonfigSet, matched: &Vec<String>, plane: &mut ControlPlane) -> (r: Result<
    Action,
    Error,
>)
    requires
        has_selectors(konfigset@) ==> konfigset@.metadata.name is Some
            && konfigset@.metadata.namespace is Some,
    ensures
        !has_selectors(konfigset@) ==> (r matches Ok(a) && a.requeue_secs == 15
            && final(plane)@ == old(plane)@),
        has_selectors(konfigset@) ==> {
            let t = assign_pass(
                konfigset@.metadata.name->Some_0,
                konfigset@.metadata.namespace->Some_0,
                names_view(matched@),
                old(plane)@,
            );
            r matches Ok(a) && a == t.0 && final(plane)@ == t.1
        },
{
    match &konfigset.spec.selectors {
        None => Ok(Action::requeue(15)),
        Some(selectors) => {
            if selectors.len() == 0 {
                return Ok(Action::requeue(15));
            }
            let kfg_name = konfigset.metadata.name.as_ref().unwrap();
            let kfg_namespace = konfigset.metadata.namespace.as_ref().unwrap();
            let ghost nm = kfg_name@;
            let ghost ns = kfg_namespace@;
            let ghost mv = names_view(matched@);
            let ghost pl0 = plane@;
            proof {
                lemma_names_view(matched@);
                assert(mv.skip(0) =~= mv);
            }

            let n = matched.len();
            let mut i: usize = 0;
            while i < n
                invariant
                    i <= n,
                    n == matched@.len(),
                    nm == kfg_name@,
                    ns == kfg_namespace@,
                    has_selectors(konfigset@),
                    konfigset@.metadata.name == Some(nm),
                    konfigset@.metadata.namespace == Some(ns),
                    pl0 == old(plane)@,
                    mv == names_view(matched@),
                    mv.len() == n,
                    forall|k: int| 0 <= k < n ==> mv[k] == matched@[k]@,
                    assign_pass(nm, ns, mv, pl0) == assign_pass(nm, ns, mv.skip(i as int), plane@),
                decreases n - i,
            {
                proof {
                    assert(mv.skip(i as int)[0] == mv[i as int]);
                    assert(mv.skip(i as int).drop_first() =~= mv.skip(i as int + 1));
                }
                match plane.find_node(matched[i].as_str()) {
                    None => {
                        proof {
                            assert(node_index(plane@.nodes, mv.skip(i as int)[0]) is None);
                        }
                    },
                    Some(ni) => {
                        proof {
                            assert(node_index(plane@.nodes, mv.skip(i as int)[0]) == Some(ni as int));
                            crate::plane::lemma_nodes_view(plane.nodes@);
                            assert(plane@.nodes[ni as int] == plane.nodes@[ni as int]@);
                        }
                        let noderef = &plane.nodes[ni];
                        let ghost nv = *noderef;
                        let has = node_has_ref(noderef, kfg_name.as_str(), kfg_namespace.as_str());
                        proof {
                            assert(has == refs_contain(nv@.refs(), nm, ns));
                            assert(nv == plane.nodes@[ni as int]);
                            assert(has == refs_contain(plane@.nodes[ni as int].refs(), nm, ns));
                        }
                        if has {
                            proof {
                                assert(mv.skip(i as int).len() > 0);
                                assert(refs_contain(plane@.nodes[ni as int].refs(), nm, ns));
                                assert(assign_pass(nm, ns, mv.skip(i as int), plane@)
                                    == (Action { requeue_secs: 30u64 }, plane@));
                            }
                            return Ok(Action::requeue(30));
                        }
                        proof {
                            assert(!refs_contain(plane@.nodes[ni as int].refs(), nm, ns));
                        }
                        let ghost pl_i = plane@;
                        proof {
                            crate::plane::lemma_nodes_view(plane.nodes@);
                        }
                        let mut list = plane.nodes[ni].konfigsets();
                        let ghost list0 = list@;
                        list.push(ConfigsetRef::new(kfg_name.as_str(), kfg_namespace.as_str()));
                        proof {
                            lemma_refs_view(list0);
                            lemma_refs_view(list@);
                            assert(refs_view(list@) =~= pl_i.nodes[ni as int].refs().push(
                                ConfigsetRefView { namespace: Some(ns), name: Some(nm) },
                            ));
                        }
                        plane.nodes[ni].spec.configsets = Some(list);
                        proof {
                            crate::plane::lemma_nodes_view(plane.nodes@);
                            assert(plane@.nodes =~= pl_i.nodes.update(
                                ni as int,
                                assigned_node(pl_i.nodes[ni as int], nm, ns),
                            ));
                            assert(plane@ == ControlPlaneView {
                                nodes: pl_i.nodes.update(ni as int, assigned_node(pl_i.nodes[ni as int], nm, ns)),
                                konfigsets: pl_i.konfigsets,
                                configmaps: pl_i.configmaps,
                            });
                        }
                    },
                }
                i = i + 1;
            }
            proof {
                assert(mv.skip(n as int) =~= Seq::<Seq<char>>::empty());
            }
            Ok(Action::requeue(15))
        },
    }
}

/// The requeue the assignment controller answers every reconcile error
/// with: a fixed backoff, never a crash.
pub fn error_policy(konfigset: &KonfigSet, error: &Error) -> (a: Action)
    ensures
        a.requeue_secs == 60,
{
    Action::requeue(60)
}

} // verus!
