//! Object metadata as the control plane carries it for every object kind:
//! a name, an optional namespace, and optional labels. Labels are the
//! selector surface that the assignment controller matches against.

use vstd::prelude::*;

verus! {

/// Metadata of one control-plane object, held as plain values.
pub struct Metadata {
    pub name: Option<String>,
    pub namespace: Option<String>,
    pub labels: Option<Vec<(String, String)>>,
}

/// The mathematical shape of [`Metadata`]: every string as its characters.
pub struct MetadataView {
    pub name: Option<Seq<char>>,
    pub namespace: Option<Seq<char>>,
    pub labels: Option<Seq<(Seq<char>, Seq<char>)>>,
}

/// The characters of an optional string.
pub open spec fn opt_view(o: Option<String>) -> Option<Seq<char>> {
    match o {
        Some(s) => Some(s@),
        None => None,
    }
}

/// The characters of a list of key/value pairs.
pub open spec fn pairs_view(v: Seq<(String, String)>) -> Seq<(Seq<char>, Seq<char>)> {
    v.map_values(|p: (String, String)| (p.0@, p.1@))
}

impl View for Metadata {
    type V = MetadataView;

    open spec fn view(&self) -> MetadataView {
        MetadataView {
            name: opt_view(self.name),
            namespace: opt_view(self.namespace),
            labels: match self.labels {
                Some(l) => Some(pairs_view(l@)),
                None => None,
            },
        }
    }
}

/// Duplicate an optional string, keeping its characters.
pub fn clone_opt_string(o: &Option<String>) -> (r: Option<String>)
    ensures
        opt_view(r) == opt_view(*o),
{
    match o {
        Some(s) => Some(s.clone()),
        None => None,
    }
}

impl Metadata {
    /// Metadata with a name alone.
    pub fn named(name: &str) -> (r: Metadata)
        ensures
            r@.name == Some(name@),
            r@.namespace is None,
            r@.labels is None,
    {
        Metadata { name: Some(name.to_owned()), namespace: None, labels: None }
    }
}

} // verus!
