//! The stored form of a manifest: its fields in order, in the encoding of
//! the bincode crate.

use crate::descriptor::{
    annotations_view, duplicate_strings, strings_view, Descriptor, DescriptorView, Manifest,
    ManifestView,
};
use crate::manifest::RegistryError;
use std::collections::HashMap;
use vstd::prelude::*;

verus! {

/// The fields of a descriptor, in the order in which they are encoded.
pub type DescriptorParts = (String, String, i64, Vec<String>, HashMap<String, String>);

/// The fields of a manifest, in the order in which they are encoded. The
/// schema version is encoded in 64 bits, whatever the machine.
pub type ManifestParts = (
    u64,
    String,
    DescriptorParts,
    Vec<DescriptorParts>,
    HashMap<String, String>,
);

/// The descriptor that its fields stand for.
pub open spec fn descriptor_of(p: DescriptorParts) -> DescriptorView {
    DescriptorView {
        media_type: p.0@,
        digest: p.1@,
        size: p.2 as int,
        urls: strings_view(p.3@),
        annotations: annotations_view(p.4@),
    }
}

/// The descriptors that a list of fields stands for, in order.
pub open spec fn descriptors_of(v: Seq<DescriptorParts>) -> Seq<DescriptorView> {
    Seq::new(v.len(), |i: int| descriptor_of(v[i]))
}

/// The manifest that its fields stand for.
pub open spec fn manifest_of(p: ManifestParts) -> ManifestView {
    ManifestView {
        schema_version: p.0 as nat,
        media_type: p.1@,
        config: descriptor_of(p.2),
        layers: descriptors_of(p.3@),
        annotations: annotations_view(p.4@),
    }
}

/// What `bincode::deserialize` makes of `bytes` when asked for the fields
/// of a manifest: the manifest that the fields stand for, or nothing where
/// the bytes do not start with an encoding of them.
pub uninterp spec fn decoded(bytes: Seq<u8>) -> Option<ManifestView>;

/// The manifest that stored bytes stand for on this machine: what they
/// decode to, if its schema version fits the machine's word.
pub open spec fn manifest_in(bytes: Seq<u8>) -> Option<ManifestView> {
    match decoded(bytes) {
        Some(m) => if m.schema_version <= usize::MAX {
            Some(m)
        } else {
            None
        },
        None => None,
    }
}

/// Calls `bincode::deserialize` on a slice, for the fields of a manifest.
/// Nothing is proved of it; the contract names its result, which depends
/// on the bytes alone. Bytes that are too short or malformed give `None`.
#[verifier::external_body]
fn deserialize_parts(bytes: &[u8]) -> (r: Option<ManifestParts>)
    ensures
        (match r {
            Some(p) => Some(manifest_of(p)),
            None => None,
        }) == decoded(bytes@),
{
    bincode::deserialize::<ManifestParts>(bytes).ok()
}

/// Calls `bincode::serialize` on the fields of a manifest. Nothing is
/// proved of it; the contract claims two things. It returns bytes: the
/// call writes into a vector without a size limit, and refuses only a
/// sequence or a map of unknown length, which a `Vec` and a `HashMap` are
/// not. What it writes is read back by `bincode::deserialize` as the same
/// fields. Which bytes it writes is not stated: a map is written in the
/// order in which it is walked.
#[verifier::external_body]
fn serialize_parts(parts: &ManifestParts) -> (r: Option<Vec<u8>>)
    ensures
        r is Some,
        decoded(r->Some_0@) == Some(manifest_of(*parts)),
{
    bincode::serialize(parts).ok()
}

impl Descriptor {
    /// The fields of the descriptor, copied.
    pub fn to_parts(&self) -> (r: DescriptorParts)
        ensures
            descriptor_of(r) == self@,
    {
        (
            self.media_type.clone(),
            self.digest.clone(),
            self.size,
            duplicate_strings(&self.urls),
            self.annotations.clone(),
        )
    }

    /// The descriptor with the given fields.
    pub fn from_parts(p: &DescriptorParts) -> (r: Descriptor)
        ensures
            r@ == descriptor_of(*p),
    {
        Descriptor {
            media_type: p.0.clone(),
            digest: p.1.clone(),
            size: p.2,
            urls: duplicate_strings(&p.3),
            annotations: p.4.clone(),
        }
    }
}

impl Manifest {
    /// The fields of the manifest, copied.
    pub fn to_parts(&self) -> (r: ManifestParts)
        ensures
            manifest_of(r) == self@,
    {
        let mut layers: Vec<DescriptorParts> = Vec::new();
        let mut i: usize = 0;
        while i < self.layers.len()
            invariant
                i <= self.layers.len(),
                layers.len() == i,
                forall|j: int| 0 <= j < i ==> descriptor_of(#[trigger] layers[j]) == self.layers[j]@,
            decreases self.layers.len() - i,
        {
            layers.push(self.layers[i].to_parts());
            i += 1;
        }
        assert(descriptors_of(layers@) =~= self@.layers);
        (
            self.schema_version as u64,
            self.media_type.clone(),
            self.config.to_parts(),
            layers,
            self.annotations.clone(),
        )
    }

    /// The manifest with the given fields; none where the schema version
    /// does not fit the machine's word.
    pub fn from_parts(p: &ManifestParts) -> (r: Option<Manifest>)
        ensures
            r is Some <==> p.0 <= usize::MAX,
            r matches Some(m) ==> m@ == manifest_of(*p),
    {
        if p.0 > usize::MAX as u64 {
            return None;
        }
        let mut layers: Vec<Descriptor> = Vec::new();
        let mut i: usize = 0;
        while i < p.3.len()
            invariant
                i <= p.3.len(),
                layers.len() == i,
                forall|j: int| 0 <= j < i ==> (#[trigger] layers[j])@ == descriptor_of(p.3[j]),
            decreases p.3.len() - i,
        {
            layers.push(Descriptor::from_parts(&p.3[i]));
            i += 1;
        }
        let m = Manifest {
            schema_version: p.0 as usize,
            media_type: p.1.clone(),
            config: Descriptor::from_parts(&p.2),
            layers,
            annotations: p.4.clone(),
        };
        assert(m@.layers =~= descriptors_of(p.3@));
        Some(m)
    }

    /// The bytes under which the manifest is stored, for every manifest:
    /// decoding them gives the manifest back, field for field.
    pub fn write_redis_args(&self) -> (r: Option<Vec<u8>>)
        ensures
            r is Some,
            manifest_in(r->Some_0@) == Some(self@),
    {
        let parts: ManifestParts = self.to_parts();
        serialize_parts(&parts)
    }

    /// The manifest that a stored value stands for. An absent value is
    /// `NotFound`; bytes that do not decode are a `DecodeError`.
    pub fn from_redis_value(value: &Option<Vec<u8>>) -> (r: Result<Manifest, RegistryError>)
        ensures
            value is None ==> r is Err && r->Err_0 == RegistryError::NotFound,
            value matches Some(b) ==> (match manifest_in(b@) {
                Some(m) => r is Ok && r->Ok_0@ == m,
                None => r is Err && r->Err_0 == RegistryError::DecodeError,
            }),
    {
        match value {
            None => Err(RegistryError::NotFound),
            Some(bytes) => match deserialize_parts(bytes.as_slice()) {
                None => Err(RegistryError::DecodeError),
                Some(parts) => match Manifest::from_parts(&parts) {
                    Some(m) => Ok(m),
                    None => Err(RegistryError::DecodeError),
                },
            },
        }
    }
}

} // verus!
