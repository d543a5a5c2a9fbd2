//! Plain-value images of the control-plane objects that the watchers receive.
//!
//! Only the fields that the routing and certificate rules read are kept.

use vstd::prelude::*;

verus! {

/// One key/value annotation of an object's metadata.
#[derive(Debug, Clone, PartialEq, Eq)]
pub struct Annotation {
    pub key: String,
    pub value: String,
}

/// The metadata block of a control-plane object.
#[derive(Debug, Clone, PartialEq, Eq)]
pub struct ApiMeta {
    pub name: Option<String>,
    pub namespace: Option<String>,
    pub annotations: Vec<Annotation>,
}

/// The port of a backend service.
#[derive(Debug, Clone, PartialEq, Eq)]
pub struct ApiServicePort {
    pub number: Option<i32>,
}

/// The service that a backend points at.
#[derive(Debug, Clone, PartialEq, Eq)]
pub struct ApiService {
    pub name: String,
    pub port: Option<ApiServicePort>,
}

/// A backend as the control plane describes it.
#[derive(Debug, Clone, PartialEq, Eq)]
pub struct ApiBackend {
    pub service: Option<ApiService>,
}

/// One path of an HTTP rule.
#[derive(Debug, Clone, PartialEq, Eq)]
pub struct ApiHttpPath {
    pub path: Option<String>,
    pub backend: ApiBackend,
}

/// The HTTP block of an ingress rule.
#[derive(Debug, Clone, PartialEq, Eq)]
pub struct ApiHttpRule {
    pub paths: Vec<ApiHttpPath>,
}

/// One rule of an ingress specification.
#[derive(Debug, Clone, PartialEq, Eq)]
pub struct ApiIngressRule {
    pub host: Option<String>,
    pub http: Option<ApiHttpRule>,
}

/// The specification block of an ingress object.
#[derive(Debug, Clone, PartialEq, Eq)]
pub struct ApiIngressSpec {
    pub default_backend: Option<ApiBackend>,
    pub rules: Vec<ApiIngressRule>,
}

/// An ingress object.
#[derive(Debug, Clone, PartialEq, Eq)]
pub struct ApiIngress {
    pub metadata: ApiMeta,
    pub spec: Option<ApiIngressSpec>,
}

/// One entry of a secret's data block.
#[derive(Debug, Clone, PartialEq, Eq)]
pub struct SecretDatum {
    pub key: String,
    pub bytes: Vec<u8>,
}

/// A secret object.
#[derive(Debug, Clone, PartialEq, Eq)]
pub struct ApiSecret {
    pub metadata: ApiMeta,
    pub type_: Option<String>,
    pub data: Vec<SecretDatum>,
}

/// The status object that the control plane sends in place of a resource when
/// a watch fails.
#[derive(Debug, Clone, PartialEq, Eq)]
pub struct ErrorResponse {
    pub status: String,
    pub message: String,
    pub reason: String,
    pub code: u16,
}

/// One event of a watch stream.
#[derive(Debug, Clone, PartialEq, Eq)]
pub enum WatchEvent<T> {
    Added(T),
    Modified(T),
    Deleted(T),
    /// A progress marker that carries no object.
    Bookmark,
    Error(ErrorResponse),
}

/// The value of the first annotation in `annotations` whose key is `key`.
pub open spec fn annotation_value(annotations: Seq<Annotation>, key: Seq<char>) -> Option<
    Seq<char>,
>
    decreases annotations.len(),
{
    if annotations.len() == 0 {
        None
    } else if annotations[0].key@ == key {
        Some(annotations[0].value@)
    } else {
        annotation_value(annotations.skip(1), key)
    }
}

/// The bytes of the first entry in `data` whose key is `key`.
pub open spec fn datum_bytes(data: Seq<SecretDatum>, key: Seq<char>) -> Option<Seq<u8>>
    decreases data.len(),
{
    if data.len() == 0 {
        None
    } else if data[0].key@ == key {
        Some(data[0].bytes@)
    } else {
        datum_bytes(data.skip(1), key)
    }
}

impl ApiMeta {
    /// Looks up an annotation by its key.
    pub fn annotation(&self, key: &str) -> (found: Option<&String>)
        ensures
            match found {
                Some(value) => annotation_value(self.annotations@, key@) == Some(value@),
                None => annotation_value(self.annotations@, key@) is None,
            },
    {
        let mut i: usize = 0;
        assert(self.annotations@.skip(0) == self.annotations@);
        while i < self.annotations.len()
            invariant
                i <= self.annotations.len(),
                annotation_value(self.annotations@, key@) == annotation_value(
                    self.annotations@.skip(i as int),
                    key@,
                ),
            decreases self.annotations.len() - i,
        {
            let a = &self.annotations[i];
            if crate::text::same_text(a.key.as_str(), key) {
                return Some(&a.value);
            }
            assert(self.annotations@.skip(i as int).skip(1) == self.annotations@.skip(i + 1));
            i += 1;
        }
        None
    }
}

impl ApiSecret {
    /// Looks up an entry of the data block by its key.
    pub fn datum(&self, key: &str) -> (found: Option<&Vec<u8>>)
        ensures
            match found {
                Some(bytes) => datum_bytes(self.data@, key@) == Some(bytes@),
                None => datum_bytes(self.data@, key@) is None,
            },
    {
        let mut i: usize = 0;
        assert(self.data@.skip(0) == self.data@);
        while i < self.data.len()
            invariant
                i <= self.data.len(),
                datum_bytes(self.data@, key@) == datum_bytes(self.data@.skip(i as int), key@),
            decreases self.data.len() - i,
        {
            let d = &self.data[i];
            if crate::text::same_text(d.key.as_str(), key) {
                return Some(&d.bytes);
            }
            assert(self.data@.skip(i as int).skip(1) == self.data@.skip(i + 1));
            i += 1;
        }
        None
    }
}

} // verus!
