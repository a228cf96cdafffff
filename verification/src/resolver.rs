//! The content resolver: turns a managed file's source scheme into the
//! content the file should hold. An inline `static://` source carries its
//! content in the file itself; a `k8s://configmap/<name>` source reads one
//! key of a keyed object in the store; everything else is rejected with a
//! distinct error.

use vstd::prelude::*;
use crate::errors::{Error, ErrorKind, error_kind};
use crate::konfigset::{KonfigFile, KonfigFileView};
use crate::plane::{ControlPlane, ControlPlaneView, configmap_index, pair_lookup};
use crate::strutil::{seq_starts_with, str_starts_with, str_skip};

verus! {

/// The inline content of a file, an empty string when the field is absent.
pub open spec fn static_content(f: KonfigFileView) -> Seq<char> {
    match f.content {
        Some(c) => c,
        None => Seq::empty(),
    }
}

/// The namespace a file's source is looked up in: the file's own when it
/// names one, else the namespace of the configset that owns the file.
pub open spec fn effective_namespace(f: KonfigFileView, default_ns: Seq<char>) -> Seq<char> {
    match f.namespace {
        Some(ns) => ns,
        None => default_ns,
    }
}

/// The object name a `k8s://configmap/` source refers to: the characters
/// after the scheme prefix, or the whole source when the prefix lacks its
/// trailing separator.
pub open spec fn configmap_ref_name(source: Seq<char>) -> Seq<char> {
    if seq_starts_with(source, "k8s://configmap/"@) {
        source.skip("k8s://configmap/"@.len() as int)
    } else {
        source
    }
}

/// What resolving a keyed-object source yields: the value under the file's
/// key, or the first configuration error on the way there.
pub open spec fn configmap_resolution(
    f: KonfigFileView,
    plane: ControlPlaneView,
    default_ns: Seq<char>,
) -> Result<Seq<char>, ErrorKind> {
    if f.key is None {
        Err(ErrorKind::KeyFieldRequired)
    } else {
        let ns = effective_namespace(f, default_ns);
        let nm = configmap_ref_name(f.source);
        match configmap_index(plane.configmaps, nm, ns) {
            None => Err(ErrorKind::ConfigMapNotFound),
            Some(i) => match plane.configmaps[i].data {
                None => Err(ErrorKind::ConfigMapMissingData),
                Some(d) => match pair_lookup(d, f.key->Some_0) {
                    None => Err(ErrorKind::ConfigMapMissingKey),
                    Some(v) => Ok(v),
                },
            },
        }
    }
}

/// What resolving a file yields, over every source scheme: the content on
/// success, or the error the scheme is rejected with.
pub open spec fn resolution(
    f: KonfigFileView,
    plane: ControlPlaneView,
    default_ns: Seq<char>,
) -> Result<Seq<char>, ErrorKind> {
    if seq_starts_with(f.source, "static://"@) {
        Ok(static_content(f))
    } else if seq_starts_with(f.source, "k8s://configmap"@) {
        configmap_resolution(f, plane, default_ns)
    } else if seq_starts_with(f.source, "k8s://"@) {
        Err(ErrorKind::MalformedSource)
    } else {
        Err(ErrorKind::UnsupportedSource)
    }
}

/// Read the content of an inline source from the file's own `content`
/// field; an absent field is an empty string, not an error.
pub fn read_static_content(file: &KonfigFile) -> (r: String)
    ensures
        r@ == static_content(file@),
{
    match &file.content {
        Some(content) => content.clone(),
        None => String::new(),
    }
}

/// Read the content a `k8s://configmap/<name>` source refers to from the
/// store: the value under the file's `key` in the named keyed object,
/// looked up in the file's namespace or the owning configset's.
pub fn read_content_configmap(file: &KonfigFile, plane: &ControlPlane, konfigset_namespace: &str) -> (r: Result<
    String,
    Error,
>)
    ensures
        match configmap_resolution(file@, plane@, konfigset_namespace@) {
            Ok(c) => r is Ok && r->Ok_0@ == c,
            Err(k) => r is Err && error_kind(r->Err_0) == k,
        },
        configmap_resolution(file@, plane@, konfigset_namespace@) == Err::<Seq<char>, ErrorKind>(
            ErrorKind::ConfigMapNotFound,
        ) ==> (r matches Err(Error::ConfigMapNotFound { namespace, name })
            && namespace@ == effective_namespace(file@, konfigset_namespace@)
            && name@ == configmap_ref_name(file@.source)),
        configmap_resolution(file@, plane@, konfigset_namespace@) == Err::<Seq<char>, ErrorKind>(
            ErrorKind::ConfigMapMissingData,
        ) ==> (r matches Err(Error::ConfigMapMissingData { namespace, name })
            && namespace@ == effective_namespace(file@, konfigset_namespace@)
            && name@ == configmap_ref_name(file@.source)),
        configmap_resolution(file@, plane@, konfigset_namespace@) == Err::<Seq<char>, ErrorKind>(
            ErrorKind::ConfigMapMissingKey,
        ) ==> (r matches Err(Error::ConfigMapMissingKey { namespace, name, key })
            && namespace@ == effective_namespace(file@, konfigset_namespace@)
            && name@ == configmap_ref_name(file@.source)
            && Some(key@) == file@.key),
{
    let namespace: String = match &file.namespace {
        Some(ns) => ns.clone(),
        None => konfigset_namespace.to_owned(),
    };

    let prefix = "k8s://configmap/";
    let name: String = if str_starts_with(file.source.as_str(), prefix) {
        str_skip(file.source.as_str(), prefix.unicode_len())
    } else {
        file.source.clone()
    };

    let key: String = match &file.key {
        Some(key) => key.clone(),
        None => {
            return Err(Error::KeyFieldRequired { source: file.source.clone() });
        },
    };

    match plane.find_configmap(name.as_str(), namespace.as_str()) {
        None => Err(Error::ConfigMapNotFound { namespace, name }),
        Some(i) => {
            let configmap = &plane.configmaps[i];
            match &configmap.data {
                None => Err(Error::ConfigMapMissingData { namespace, name }),
                Some(data) => match crate::plane::pairs_get(data, key.as_str()) {
                    None => Err(Error::ConfigMapMissingKey { namespace, name, key }),
                    Some(content) => Ok(content),
                },
            }
        },
    }
}

/// Resolve a file's desired content by its source scheme: inline content
/// for `static://`, a keyed-object read for `k8s://configmap`, and a
/// distinct error for any other `k8s://` object or unknown scheme.
pub fn file_content_from(file: &KonfigFile, plane: &ControlPlane, konfigset_namespace: &str) -> (r: Result<
    String,
    Error,
>)
    ensures
        match resolution(file@, plane@, konfigset_namespace@) {
            Ok(c) => r is Ok && r->Ok_0@ == c,
            Err(k) => r is Err && error_kind(r->Err_0) == k,
        },
        resolution(file@, plane@, konfigset_namespace@) == Err::<Seq<char>, ErrorKind>(
            ErrorKind::MalformedSource,
        ) ==> (r matches Err(Error::MalformedSource { source }) && source@ == file@.source),
        resolution(file@, plane@, konfigset_namespace@) == Err::<Seq<char>, ErrorKind>(
            ErrorKind::UnsupportedSource,
        ) ==> (r matches Err(Error::UnsupportedSource { source }) && source@ == file@.source),
{
    if str_starts_with(file.source.as_str(), "static://") {
        Ok(read_static_content(file))
    } else if str_starts_with(file.source.as_str(), "k8s://configmap") {
        read_content_configmap(file, plane, konfigset_namespace)
    } else if str_starts_with(file.source.as_str(), "k8s://") {
        Err(Error::MalformedSource { source: file.source.clone() })
    } else {
        Err(Error::UnsupportedSource { source: file.source.clone() })
    }
}

} // verus!
