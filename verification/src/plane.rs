//! A plain model of the shared control plane: the objects the two
//! controllers read and write, held as values. The surrounding process keeps
//! this model in step with the real object store; every decision the library
//! makes is a function of it.

use vstd::prelude::*;
use crate::konfignode::{KonfigNode, KonfigNodeView, KonfigNodeState};
use crate::konfigset::{KonfigSet, KonfigSetView};
use crate::meta::{Metadata, MetadataView};

verus! {

/// A keyed object holding named pieces of data, as the control plane
/// carries it.
pub struct ConfigMap {
    pub metadata: Metadata,
    pub data: Option<Vec<(String, String)>>,
}

/// The mathematical shape of a [`ConfigMap`].
pub struct ConfigMapView {
    pub metadata: MetadataView,
    pub data: Option<Seq<(Seq<char>, Seq<char>)>>,
}

impl View for ConfigMap {
    type V = ConfigMapView;

    open spec fn view(&self) -> ConfigMapView {
        ConfigMapView {
            metadata: self.metadata@,
            data: match self.data {
                Some(d) => Some(crate::meta::pairs_view(d@)),
                None => None,
            },
        }
    }
}

/// The objects the two controllers work with, as one value.
pub struct ControlPlane {
    pub nodes: Vec<KonfigNode>,
    pub konfigsets: Vec<KonfigSet>,
    pub configmaps: Vec<ConfigMap>,
}

/// The mathematical shape of a [`ControlPlane`].
pub struct ControlPlaneView {
    pub nodes: Seq<KonfigNodeView>,
    pub konfigsets: Seq<KonfigSetView>,
    pub configmaps: Seq<ConfigMapView>,
}

/// The shapes of a list of nodes.
pub open spec fn nodes_view(s: Seq<KonfigNode>) -> Seq<KonfigNodeView> {
    s.map_values(|n: KonfigNode| n@)
}

impl View for ControlPlane {
    type V = ControlPlaneView;

    open spec fn view(&self) -> ControlPlaneView {
        ControlPlaneView {
            nodes: nodes_view(self.nodes@),
            konfigsets: self.konfigsets@.map_values(|k: KonfigSet| k@),
            configmaps: self.configmaps@.map_values(|c: ConfigMap| c@),
        }
    }
}

/// Index and length facts of [`nodes_view`].
pub proof fn lemma_nodes_view(s: Seq<KonfigNode>)
    ensures
        nodes_view(s).len() == s.len(),
        forall|k: int| 0 <= k < s.len() ==> nodes_view(s)[k] == s[k]@,
{
}

/// This node object carries the given name.
pub open spec fn node_named(n: KonfigNodeView, name: Seq<char>) -> bool {
    n.metadata.name == Some(name)
}

/// This configset object carries the given name in the given namespace.
pub open spec fn konfigset_named(k: KonfigSetView, name: Seq<char>, namespace: Seq<char>) -> bool {
    k.metadata.name == Some(name) && k.metadata.namespace == Some(namespace)
}

/// This keyed object carries the given name in the given namespace.
pub open spec fn configmap_named(c: ConfigMapView, name: Seq<char>, namespace: Seq<char>) -> bool {
    c.metadata.name == Some(name) && c.metadata.namespace == Some(namespace)
}

/// The position of the first node with the given name, searching from `i`.
pub open spec fn node_index_from(s: Seq<KonfigNodeView>, name: Seq<char>, i: int) -> Option<int>
    decreases s.len() - i,
{
    if i < 0 || i >= s.len() {
        None
    } else if node_named(s[i], name) {
        Some(i)
    } else {
        node_index_from(s, name, i + 1)
    }
}

/// The position of the first node with the given name.
pub open spec fn node_index(s: Seq<KonfigNodeView>, name: Seq<char>) -> Option<int> {
    node_index_from(s, name, 0)
}

/// The position of the first configset with the given name and namespace,
/// searching from `i`.
pub open spec fn konfigset_index_from(
    s: Seq<KonfigSetView>,
    name: Seq<char>,
    namespace: Seq<char>,
    i: int,
) -> Option<int>
    decreases s.len() - i,
{
    if i < 0 || i >= s.len() {
        None
    } else if konfigset_named(s[i], name, namespace) {
        Some(i)
    } else {
        konfigset_index_from(s, name, namespace, i + 1)
    }
}

/// The position of the first configset with the given name and namespace.
pub open spec fn konfigset_index(s: Seq<KonfigSetView>, name: Seq<char>, namespace: Seq<char>) -> Option<int> {
    konfigset_index_from(s, name, namespace, 0)
}

/// The position of the first keyed object with the given name and namespace,
/// searching from `i`.
pub open spec fn configmap_index_from(
    s: Seq<ConfigMapView>,
    name: Seq<char>,
    namespace: Seq<char>,
    i: int,
) -> Option<int>
    decreases s.len() - i,
{
    if i < 0 || i >= s.len() {
        None
    } else if configmap_named(s[i], name, namespace) {
        Some(i)
    } else {
        configmap_index_from(s, name, namespace, i + 1)
    }
}

/// The position of the first keyed object with the given name and namespace.
pub open spec fn configmap_index(s: Seq<ConfigMapView>, name: Seq<char>, namespace: Seq<char>) -> Option<int> {
    configmap_index_from(s, name, namespace, 0)
}

/// Replacing one node with one of the same name never moves the position
/// any name is found at.
pub proof fn lemma_node_index_update(s: Seq<KonfigNodeView>, i: int, e: KonfigNodeView, from: int, name: Seq<char>)
    requires
        0 <= i < s.len(),
        s[i].metadata.name == e.metadata.name,
    ensures
        node_index_from(s.update(i, e), name, from) == node_index_from(s, name, from),
    decreases s.len() - from,
{
    if from < 0 || from >= s.len() {
    } else {
        assert(s.update(i, e)[from].metadata.name == s[from].metadata.name);
        lemma_node_index_update(s, i, e, from + 1, name);
    }
}

/// Appending one node leaves every found position alone, and a name found
/// nowhere is found at the end exactly when the new node carries it.
pub proof fn lemma_node_index_push(s: Seq<KonfigNodeView>, e: KonfigNodeView, from: int, name: Seq<char>)
    requires
        0 <= from <= s.len(),
    ensures
        node_index_from(s.push(e), name, from) == match node_index_from(s, name, from) {
            Some(j) => Some(j),
            None => if node_named(e, name) { Some(s.len() as int) } else { None::<int> },
        },
    decreases s.len() - from,
{
    if from == s.len() {
        assert(node_index_from(s, name, from) is None);
        if node_named(e, name) {
            assert(node_named(s.push(e)[from], name));
        } else {
            assert(node_index_from(s.push(e), name, from + 1) is None);
        }
    } else {
        assert(s.push(e)[from].metadata.name == s[from].metadata.name);
        lemma_node_index_push(s, e, from + 1, name);
    }
}

/// A found position lies in range and carries the name searched for.
pub proof fn lemma_node_index_found(s: Seq<KonfigNodeView>, name: Seq<char>, from: int)
    requires
        node_index_from(s, name, from) is Some,
    ensures
        from <= node_index_from(s, name, from)->Some_0 < s.len(),
        node_named(s[node_index_from(s, name, from)->Some_0], name),
    decreases s.len() - from,
{
    if !(from < 0 || from >= s.len()) && !node_named(s[from], name) {
        lemma_node_index_found(s, name, from + 1);
    }
}

impl ControlPlane {
    /// The position of the node with the given name, if it is registered.
    pub fn find_node(&self, name: &str) -> (r: Option<usize>)
        ensures
            match r {
                Some(i) => i < self.nodes@.len() && node_index(self@.nodes, name@) == Some(i as int)
                    && node_named(self@.nodes[i as int], name@),
                None => node_index(self@.nodes, name@) is None,
            },
    {
        let n = self.nodes.len();
        let mut i: usize = 0;
        while i < n
            invariant
                i <= n,
                n == self.nodes@.len(),
                node_index(self@.nodes, name@) == node_index_from(self@.nodes, name@, i as int),
                forall|j: int| 0 <= j < i ==> !node_named(self@.nodes[j], name@),
            decreases n - i,
        {
            if crate::strutil::opt_str_eq(&self.nodes[i].metadata.name, name) {
                assert(node_named(self@.nodes[i as int], name@));
                return Some(i);
            }
            assert(!node_named(self@.nodes[i as int], name@));
            i = i + 1;
        }
        None
    }

    /// The position of the configset with the given name and namespace, if
    /// the store holds it.
    pub fn find_konfigset(&self, name: &str, namespace: &str) -> (r: Option<usize>)
        ensures
            match r {
                Some(i) => i < self.konfigsets@.len()
                    && konfigset_index(self@.konfigsets, name@, namespace@) == Some(i as int)
                    && konfigset_named(self@.konfigsets[i as int], name@, namespace@),
                None => konfigset_index(self@.konfigsets, name@, namespace@) is None,
            },
    {
        let n = self.konfigsets.len();
        let mut i: usize = 0;
        while i < n
            invariant
                i <= n,
                n == self.konfigsets@.len(),
                konfigset_index(self@.konfigsets, name@, namespace@)
                    == konfigset_index_from(self@.konfigsets, name@, namespace@, i as int),
                forall|j: int| 0 <= j < i ==> !konfigset_named(self@.konfigsets[j], name@, namespace@),
            decreases n - i,
        {
            let m = &self.konfigsets[i].metadata;
            if crate::strutil::opt_str_eq(&m.name, name) && crate::strutil::opt_str_eq(&m.namespace, namespace) {
                assert(konfigset_named(self@.konfigsets[i as int], name@, namespace@));
                return Some(i);
            }
            assert(!konfigset_named(self@.konfigsets[i as int], name@, namespace@));
            i = i + 1;
        }
        None
    }

    /// The position of the keyed object with the given name and namespace,
    /// if the store holds it.
    pub fn find_configmap(&self, name: &str, namespace: &str) -> (r: Option<usize>)
        ensures
            match r {
                Some(i) => i < self.configmaps@.len()
                    && configmap_index(self@.configmaps, name@, namespace@) == Some(i as int)
                    && configmap_named(self@.configmaps[i as int], name@, namespace@),
                None => configmap_index(self@.configmaps, name@, namespace@) is None,
            },
    {
        let n = self.configmaps.len();
        let mut i: usize = 0;
        while i < n
            invariant
                i <= n,
                n == self.configmaps@.len(),
                configmap_index(self@.configmaps, name@, namespace@)
                    == configmap_index_from(self@.configmaps, name@, namespace@, i as int),
                forall|j: int| 0 <= j < i ==> !configmap_named(self@.configmaps[j], name@, namespace@),
            decreases n - i,
        {
            let m = &self.configmaps[i].metadata;
            if crate::strutil::opt_str_eq(&m.name, name) && crate::strutil::opt_str_eq(&m.namespace, namespace) {
                assert(configmap_named(self@.configmaps[i as int], name@, namespace@));
                return Some(i);
            }
            assert(!configmap_named(self@.configmaps[i as int], name@, namespace@));
            i = i + 1;
        }
        None
    }
}

/// The value stored under a key in a list of pairs: the first match wins.
pub open spec fn pair_lookup_from(s: Seq<(Seq<char>, Seq<char>)>, key: Seq<char>, i: int) -> Option<Seq<char>>
    decreases s.len() - i,
{
    if i < 0 || i >= s.len() {
        None
    } else if s[i].0 == key {
        Some(s[i].1)
    } else {
        pair_lookup_from(s, key, i + 1)
    }
}

/// The value stored under a key in a list of pairs.
pub open spec fn pair_lookup(s: Seq<(Seq<char>, Seq<char>)>, key: Seq<char>) -> Option<Seq<char>> {
    pair_lookup_from(s, key, 0)
}

/// The value stored under a key in a list of pairs, as executable code.
pub fn pairs_get(pairs: &Vec<(String, String)>, key: &str) -> (r: Option<String>)
    ensures
        crate::meta::opt_view(r) == pair_lookup(crate::meta::pairs_view(pairs@), key@),
{
    let n = pairs.len();
    let mut i: usize = 0;
    while i < n
        invariant
            i <= n,
            n == pairs@.len(),
            pair_lookup(crate::meta::pairs_view(pairs@), key@)
                == pair_lookup_from(crate::meta::pairs_view(pairs@), key@, i as int),
        decreases n - i,
    {
        if crate::strutil::str_eq(pairs[i].0.as_str(), key) {
            assert(crate::meta::pairs_view(pairs@)[i as int].0 == key@);
            return Some(pairs[i].1.clone());
        }
        assert(crate::meta::pairs_view(pairs@)[i as int].0 != key@);
        i = i + 1;
    }
    None
}

/// A scheduled future reconciliation request with a delay.
#[derive(Clone, Copy, Debug, PartialEq, Eq, Structural)]
pub struct Action {
    pub requeue_secs: u64,
}

impl Action {
    /// Ask to reconcile again after the given number of seconds.
    pub fn requeue(secs: u64) -> (a: Action)
        ensures
            a.requeue_secs == secs,
    {
        Action { requeue_secs: secs }
    }
}

/// One partial status update a controller writes: the state, and the sync
/// flag when it changes too.
#[derive(Clone, Copy, Debug, PartialEq, Eq)]
pub struct StatusPatch {
    pub state: KonfigNodeState,
    pub synced: Option<bool>,
}

} // verus!
