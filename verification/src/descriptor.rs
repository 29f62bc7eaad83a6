//! Content descriptors, manifests and blobs, with their mathematical views.

use std::collections::HashMap;
use vstd::prelude::*;

verus! {

/// The views of a sequence of strings, in order.
pub open spec fn strings_view(v: Seq<String>) -> Seq<Seq<char>> {
    Seq::new(v.len(), |i: int| v[i]@)
}

/// The keys and values of a map of strings, each by its view. Strings are
/// equal exactly when their views are, so no two keys of the map share a
/// view.
pub open spec fn annotations_view(m: Map<String, String>) -> Map<Seq<char>, Seq<char>> {
    Map::new(
        |k: Seq<char>| exists|key: String| #[trigger] m.contains_key(key) && key@ == k,
        |k: Seq<char>| m[choose|key: String| #[trigger] m.contains_key(key) && key@ == k]@,
    )
}

/// A reference to a piece of content.
#[derive(Debug, Clone, PartialEq, Eq)]
pub struct Descriptor {
    /// The media type of the referenced content.
    pub media_type: String,
    /// The digest of the referenced content.
    pub digest: String,
    /// The size of the raw content, in bytes.
    pub size: i64,
    /// Places from which the content may be downloaded; may be empty.
    pub urls: Vec<String>,
    /// Arbitrary metadata; may be empty.
    pub annotations: HashMap<String, String>,
}

/// What a [`Descriptor`] holds.
pub struct DescriptorView {
    pub media_type: Seq<char>,
    pub digest: Seq<char>,
    pub size: int,
    pub urls: Seq<Seq<char>>,
    pub annotations: Map<Seq<char>, Seq<char>>,
}

impl View for Descriptor {
    type V = DescriptorView;

    open spec fn view(&self) -> DescriptorView {
        DescriptorView {
            media_type: self.media_type@,
            digest: self.digest@,
            size: self.size as int,
            urls: strings_view(self.urls@),
            annotations: annotations_view(self.annotations@),
        }
    }
}

/// The views of a sequence of descriptors, in order.
pub open spec fn descriptors_view(v: Seq<Descriptor>) -> Seq<DescriptorView> {
    Seq::new(v.len(), |i: int| v[i]@)
}

/// An image manifest: a configuration and the layers above it, base first.
#[derive(Debug, Clone, PartialEq, Eq)]
pub struct Manifest {
    /// The version of the manifest schema.
    pub schema_version: usize,
    /// The media type of the manifest itself.
    pub media_type: String,
    /// The configuration object; its digest is the manifest's canonical key.
    pub config: Descriptor,
    /// The layers, base layer first.
    pub layers: Vec<Descriptor>,
    /// Arbitrary metadata; may be empty.
    pub annotations: HashMap<String, String>,
}

/// What a [`Manifest`] holds.
pub struct ManifestView {
    pub schema_version: nat,
    pub media_type: Seq<char>,
    pub config: DescriptorView,
    pub layers: Seq<DescriptorView>,
    pub annotations: Map<Seq<char>, Seq<char>>,
}

impl View for Manifest {
    type V = ManifestView;

    open spec fn view(&self) -> ManifestView {
        ManifestView {
            schema_version: self.schema_version as nat,
            media_type: self.media_type@,
            config: self.config@,
            layers: descriptors_view(self.layers@),
            annotations: annotations_view(self.annotations@),
        }
    }
}

/// A layer's bytes under their digest.
#[derive(Debug, Clone, PartialEq, Eq)]
pub struct Blob {
    pub digest: String,
    pub bytes: Vec<u8>,
}

/// A copy of a list of strings.
pub fn duplicate_strings(v: &Vec<String>) -> (r: Vec<String>)
    ensures
        strings_view(r@) == strings_view(v@),
{
    let mut out: Vec<String> = Vec::new();
    let mut i: usize = 0;
    while i < v.len()
        invariant
            i <= v.len(),
            out.len() == i,
            forall|j: int| 0 <= j < i ==> out[j]@ == v[j]@,
        decreases v.len() - i,
    {
        out.push(v[i].clone());
        i += 1;
    }
    assert(strings_view(out@) =~= strings_view(v@));
    out
}

} // verus!
