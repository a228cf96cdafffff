//! The node side of the data model: the lifecycle state machine, the
//! references a node carries to its assigned configsets, and the status it
//! reports back through the control plane.

use vstd::prelude::*;
use crate::meta::{Metadata, MetadataView, opt_view, clone_opt_string};
use crate::strutil::opt_str_eq;

verus! {

/// The lifecycle states of a node in the fleet.
#[allow(non_camel_case_types)]
#[derive(Debug, Copy, Clone, PartialEq, Eq, Structural)]
pub enum KonfigNodeState {
    /// The state a node reports when it first joins the control plane.
    STARTING,
    /// Drift was found and corrective work is under way.
    SYNCING,
    /// A reconciliation pass finished with no failures.
    READY,
    /// A reconciliation pass could not resolve or apply some resource.
    FAILED,
    /// The node is about to leave the fleet; set just before deletion.
    LEAVING,
}

/// The name a state is reported under.
pub open spec fn state_name(s: KonfigNodeState) -> Seq<char> {
    match s {
        KonfigNodeState::STARTING => "starting"@,
        KonfigNodeState::SYNCING => "syncing"@,
        KonfigNodeState::READY => "ready"@,
        KonfigNodeState::FAILED => "failed"@,
        KonfigNodeState::LEAVING => "leaving"@,
    }
}

/// The transitions the state machine admits: STARTING moves to SYNCING when
/// corrective work begins, SYNCING settles in READY or FAILED, and any state
/// may move to LEAVING on unregistration. Nothing leaves LEAVING.
pub open spec fn allowed_transition(from: KonfigNodeState, to: KonfigNodeState) -> bool {
    ||| (from == KonfigNodeState::STARTING && to == KonfigNodeState::SYNCING)
    ||| (from == KonfigNodeState::SYNCING && (to == KonfigNodeState::READY
            || to == KonfigNodeState::FAILED))
    ||| to == KonfigNodeState::LEAVING
}

impl KonfigNodeState {
    /// The name this state is reported under.
    pub fn to_string(&self) -> (r: String)
        ensures
            r@ == state_name(*self),
    {
        match self {
            KonfigNodeState::STARTING => "starting".to_owned(),
            KonfigNodeState::SYNCING => "syncing".to_owned(),
            KonfigNodeState::READY => "ready".to_owned(),
            KonfigNodeState::FAILED => "failed".to_owned(),
            KonfigNodeState::LEAVING => "leaving".to_owned(),
        }
    }
}

/// A reference to a configset: a namespace and a name, matched jointly.
pub struct ConfigsetRef {
    pub namespace: Option<String>,
    pub name: Option<String>,
}

/// The mathematical shape of a [`ConfigsetRef`].
pub struct ConfigsetRefView {
    pub namespace: Option<Seq<char>>,
    pub name: Option<Seq<char>>,
}

impl View for ConfigsetRef {
    type V = ConfigsetRefView;

    open spec fn view(&self) -> ConfigsetRefView {
        ConfigsetRefView { namespace: opt_view(self.namespace), name: opt_view(self.name) }
    }
}

impl ConfigsetRefView {
    /// Both fields present: what the constructor path guarantees.
    pub open spec fn complete(self) -> bool {
        self.name is Some && self.namespace is Some
    }

    /// This reference names exactly the given configset.
    pub open spec fn refers_to(self, name: Seq<char>, namespace: Seq<char>) -> bool {
        self.name == Some(name) && self.namespace == Some(namespace)
    }
}

impl Clone for ConfigsetRef {
    fn clone(&self) -> (r: Self)
        ensures
            r@ == self@,
    {
        ConfigsetRef {
            namespace: clone_opt_string(&self.namespace),
            name: clone_opt_string(&self.name),
        }
    }
}

impl ConfigsetRef {
    /// The (name, namespace) pair this reference names.
    pub fn names(&self) -> (r: (String, String))
        requires
            self@.complete(),
        ensures
            Some(r.0@) == self@.name,
            Some(r.1@) == self@.namespace,
    {
        let name = self.name.as_ref().unwrap().clone();
        let namespace = self.namespace.as_ref().unwrap().clone();
        (name, namespace)
    }

    /// Whether this reference names exactly the given configset; a partial
    /// reference matches nothing.
    pub fn references(&self, name: &str, namespace: &str) -> (r: bool)
        ensures
            r == self@.refers_to(name@, namespace@),
    {
        let is_name_ref = opt_str_eq(&self.name, name);
        let is_namespace_ref = opt_str_eq(&self.namespace, namespace);
        is_name_ref && is_namespace_ref
    }

    /// A complete reference to the named configset.
    pub fn new(name: &str, namespace: &str) -> (r: Self)
        ensures
            r@.name == Some(name@),
            r@.namespace == Some(namespace@),
    {
        Self { name: Some(name.to_owned()), namespace: Some(namespace.to_owned()) }
    }
}

/// The characters of a list of configset references.
pub open spec fn refs_view(v: Seq<ConfigsetRef>) -> Seq<ConfigsetRefView> {
    v.map_values(|r: ConfigsetRef| r@)
}

/// Index and length facts of [`refs_view`].
pub proof fn lemma_refs_view(s: Seq<ConfigsetRef>)
    ensures
        refs_view(s).len() == s.len(),
        forall|k: int| 0 <= k < s.len() ==> refs_view(s)[k] == s[k]@,
{
}

/// The desired side of a node object: which configsets are assigned to it.
pub struct KonfigNodeSpec {
    pub configsets: Option<Vec<ConfigsetRef>>,
}

/// The mathematical shape of a [`KonfigNodeSpec`].
pub struct KonfigNodeSpecView {
    pub configsets: Option<Seq<ConfigsetRefView>>,
}

impl View for KonfigNodeSpec {
    type V = KonfigNodeSpecView;

    open spec fn view(&self) -> KonfigNodeSpecView {
        KonfigNodeSpecView {
            configsets: match self.configsets {
                Some(v) => Some(refs_view(v@)),
                None => None,
            },
        }
    }
}

/// The status a node's own agent reports: lifecycle state, whether the local
/// system matches every assigned configset, a failure reason when in the
/// failed state, and the time of the last update.
pub struct KonfigNodeStatus {
    pub state: Option<String>,
    pub synced: Option<bool>,
    pub failed_reason: Option<String>,
    pub last_updated: Option<u64>,
}

/// The mathematical shape of a [`KonfigNodeStatus`].
pub struct KonfigNodeStatusView {
    pub state: Option<Seq<char>>,
    pub synced: Option<bool>,
    pub failed_reason: Option<Seq<char>>,
    pub last_updated: Option<u64>,
}

impl View for KonfigNodeStatus {
    type V = KonfigNodeStatusView;

    open spec fn view(&self) -> KonfigNodeStatusView {
        KonfigNodeStatusView {
            state: opt_view(self.state),
            synced: self.synced,
            failed_reason: opt_view(self.failed_reason),
            last_updated: self.last_updated,
        }
    }
}

impl KonfigNodeStatusView {
    /// The status every node starts from: reported as starting, not synced,
    /// with no failure reason and no update time.
    pub open spec fn initial() -> KonfigNodeStatusView {
        KonfigNodeStatusView {
            state: Some(state_name(KonfigNodeState::STARTING)),
            synced: Some(false),
            failed_reason: None,
            last_updated: None,
        }
    }
}

impl Clone for KonfigNodeStatus {
    fn clone(&self) -> (r: Self)
        ensures
            r@ == self@,
    {
        KonfigNodeStatus {
            state: clone_opt_string(&self.state),
            synced: self.synced,
            failed_reason: clone_opt_string(&self.failed_reason),
            last_updated: self.last_updated,
        }
    }
}

impl KonfigNodeStatus {
    /// The default status of a freshly registered node.
    pub fn default() -> (r: KonfigNodeStatus)
        ensures
            r@ == KonfigNodeStatusView::initial(),
    {
        KonfigNodeStatus {
            state: Some(KonfigNodeState::STARTING.to_string()),
            synced: Some(false),
            failed_reason: None,
            last_updated: None,
        }
    }

    /// A fully populated status for the given state, sync flag and reason,
    /// stamped with the update time the caller read from its clock.
    pub fn from(state: KonfigNodeState, synced: bool, failed_reason: &str, last_updated: u64) -> (r: KonfigNodeStatus)
        ensures
            r@.state == Some(state_name(state)),
            r@.synced == Some(synced),
            r@.failed_reason == Some(failed_reason@),
            r@.last_updated == Some(last_updated),
    {
        KonfigNodeStatus {
            state: Some(state.to_string()),
            synced: Some(synced),
            failed_reason: Some(failed_reason.to_owned()),
            last_updated: Some(last_updated),
        }
    }
}

/// One fleet member as the control plane carries it.
pub struct KonfigNode {
    pub metadata: Metadata,
    pub spec: KonfigNodeSpec,
    pub status: Option<KonfigNodeStatus>,
}

/// The mathematical shape of a [`KonfigNode`].
pub struct KonfigNodeView {
    pub metadata: MetadataView,
    pub spec: KonfigNodeSpecView,
    pub status: Option<KonfigNodeStatusView>,
}

impl View for KonfigNode {
    type V = KonfigNodeView;

    open spec fn view(&self) -> KonfigNodeView {
        KonfigNodeView {
            metadata: self.metadata@,
            spec: self.spec@,
            status: match self.status {
                Some(s) => Some(s@),
                None => None,
            },
        }
    }
}

impl KonfigNodeView {
    /// The references this node carries, empty when the list is absent.
    pub open spec fn refs(self) -> Seq<ConfigsetRefView> {
        match self.spec.configsets {
            Some(s) => s,
            None => Seq::empty(),
        }
    }
}

impl KonfigNode {
    /// A copy of this node's configset references, empty when the list is
    /// absent.
    pub fn konfigsets(&self) -> (r: Vec<ConfigsetRef>)
        ensures
            refs_view(r@) == self@.refs(),
    {
        let mut configs: Vec<ConfigsetRef> = Vec::new();

        if let Some(kfgs) = &self.spec.configsets {
            let n = kfgs.len();
            let mut i: usize = 0;
            while i < n
                invariant
                    i <= n,
                    n == kfgs@.len(),
                    configs@.len() == i,
                    forall|j: int| 0 <= j < i ==> configs@[j]@ == kfgs@[j]@,
                decreases n - i,
            {
                configs.push(kfgs[i].clone());
                i = i + 1;
            }
            proof {
                assert(refs_view(configs@) =~= refs_view(kfgs@));
            }
        } else {
            proof {
                assert(refs_view(configs@) =~= Seq::<ConfigsetRefView>::empty());
            }
        }
        configs
    }
}

/// A fresh node object: named, labelled when any labels are given, with an
/// empty configset list and the initial status.
pub fn new(name: &str, labels: Vec<(String, String)>) -> (r: KonfigNode)
    ensures
        r@.metadata.name == Some(name@),
        r@.metadata.namespace is None,
        labels@.len() > 0 ==> r@.metadata.labels == Some(crate::meta::pairs_view(labels@)),
        labels@.len() == 0 ==> r@.metadata.labels is None,
        r@.spec.configsets == Some(Seq::<ConfigsetRefView>::empty()),
        r@.status == Some(KonfigNodeStatusView::initial()),
{
    let mut metadata = Metadata::named(name);
    if labels.len() > 0 {
        metadata.labels = Some(labels);
    }

    let r = KonfigNode {
        metadata,
        spec: KonfigNodeSpec { configsets: Some(Vec::new()) },
        status: Some(KonfigNodeStatus::default()),
    };
    proof {
        assert(refs_view(Seq::<ConfigsetRef>::empty()) =~= Seq::<ConfigsetRefView>::empty());
    }
    r
}

} // verus!
