//! The configset side of the data model: a named bundle of declarative
//! configuration (sysctls and managed files) that the assignment controller
//! hands to matching nodes.

use vstd::prelude::*;
use crate::meta::{Metadata, MetadataView, opt_view, clone_opt_string};

verus! {

/// One desired kernel setting: a name under the system configuration tree
/// and the value it should hold.
pub struct KonfigSysctl {
    pub name: String,
    pub value: String,
}

/// The mathematical shape of a [`KonfigSysctl`].
pub struct KonfigSysctlView {
    pub name: Seq<char>,
    pub value: Seq<char>,
}

impl View for KonfigSysctl {
    type V = KonfigSysctlView;

    open spec fn view(&self) -> KonfigSysctlView {
        KonfigSysctlView { name: self.name@, value: self.value@ }
    }
}

/// One managed file: where its content comes from, where it goes, its mode,
/// and the fields the source scheme may need.
pub struct KonfigFile {
    pub ensure: Option<String>,
    pub source: String,
    pub destination: String,
    pub mode: Option<u32>,
    pub key: Option<String>,
    pub content: Option<String>,
    pub namespace: Option<String>,
}

/// The mathematical shape of a [`KonfigFile`].
pub struct KonfigFileView {
    pub ensure: Option<Seq<char>>,
    pub source: Seq<char>,
    pub destination: Seq<char>,
    pub mode: Option<u32>,
    pub key: Option<Seq<char>>,
    pub content: Option<Seq<char>>,
    pub namespace: Option<Seq<char>>,
}

impl View for KonfigFile {
    type V = KonfigFileView;

    open spec fn view(&self) -> KonfigFileView {
        KonfigFileView {
            ensure: opt_view(self.ensure),
            source: self.source@,
            destination: self.destination@,
            mode: self.mode,
            key: opt_view(self.key),
            content: opt_view(self.content),
            namespace: opt_view(self.namespace),
        }
    }
}

impl Clone for KonfigFile {
    fn clone(&self) -> (r: Self)
        ensures
            r@ == self@,
    {
        KonfigFile {
            ensure: clone_opt_string(&self.ensure),
            source: self.source.clone(),
            destination: self.destination.clone(),
            mode: self.mode,
            key: clone_opt_string(&self.key),
            content: clone_opt_string(&self.content),
            namespace: clone_opt_string(&self.namespace),
        }
    }
}

/// The configuration entries of a configset.
pub struct Configuration {
    pub sysctls: Option<Vec<KonfigSysctl>>,
    pub files: Option<Vec<KonfigFile>>,
}

/// The mathematical shape of a [`Configuration`].
pub struct ConfigurationView {
    pub sysctls: Option<Seq<KonfigSysctlView>>,
    pub files: Option<Seq<KonfigFileView>>,
}

impl View for Configuration {
    type V = ConfigurationView;

    open spec fn view(&self) -> ConfigurationView {
        ConfigurationView {
            sysctls: match self.sysctls {
                Some(v) => Some(v@.map_values(|s: KonfigSysctl| s@)),
                None => None,
            },
            files: match self.files {
                Some(v) => Some(v@.map_values(|f: KonfigFile| f@)),
                None => None,
            },
        }
    }
}

/// The desired side of a configset: which nodes it selects, and what it
/// configures on them.
pub struct KonfigSetSpec {
    pub selectors: Option<Vec<String>>,
    pub configurations: Option<Configuration>,
}

/// The mathematical shape of a [`KonfigSetSpec`].
pub struct KonfigSetSpecView {
    pub selectors: Option<Seq<Seq<char>>>,
    pub configurations: Option<ConfigurationView>,
}

impl View for KonfigSetSpec {
    type V = KonfigSetSpecView;

    open spec fn view(&self) -> KonfigSetSpecView {
        KonfigSetSpecView {
            selectors: match self.selectors {
                Some(v) => Some(v@.map_values(|s: String| s@)),
                None => None,
            },
            configurations: match self.configurations {
                Some(c) => Some(c@),
                None => None,
            },
        }
    }
}

/// Informational status of a configset: how many nodes reference it and
/// when it was last updated. Not authoritative for reconciliation.
pub struct KonfigSetStatus {
    pub references: u32,
    pub last_updated: u64,
}

/// One configuration bundle as the control plane carries it.
pub struct KonfigSet {
    pub metadata: Metadata,
    pub spec: KonfigSetSpec,
}

/// The mathematical shape of a [`KonfigSet`].
pub struct KonfigSetView {
    pub metadata: MetadataView,
    pub spec: KonfigSetSpecView,
}

impl View for KonfigSet {
    type V = KonfigSetView;

    open spec fn view(&self) -> KonfigSetView {
        KonfigSetView { metadata: self.metadata@, spec: self.spec@ }
    }
}

} // verus!
