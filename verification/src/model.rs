//! Declarative data model: source descriptors and resolved artifact
//! references.

use vstd::prelude::*;

use crate::text::{opt_str_eq, str_eq};

verus! {

/// The remote source a dependency is fetched from.
#[derive(Clone, Copy, PartialEq, Eq, Structural, Debug)]
pub enum SourceKind {
    /// A PaperMC-style API: projects, versions, builds.
    PaperMC,
    /// A modded-loader source; its artifacts are mods.
    Fabric,
    /// A plain URL with no version structure of its own.
    Url,
}

/// The family of server software a jar provides, inferred from its source.
#[derive(Clone, Copy, PartialEq, Eq, Structural, Debug)]
pub enum SoftwareType {
    Normal,
    Modded,
    Proxy,
    Unknown,
}

/// Declarative identification of one dependency: where it comes from and
/// which version of it is wanted. Immutable once loaded from config.
#[derive(Debug)]
pub struct SourceDescriptor {
    pub kind: SourceKind,
    pub identifier: String,
    pub version_selector: String,
}

impl SourceDescriptor {
    /// Two descriptors declare the same dependency when kind and identifier
    /// agree; the version selector is ignored.
    pub open spec fn same_source(self, other: SourceDescriptor) -> bool {
        self.kind == other.kind && self.identifier@ == other.identifier@
    }

    /// Structural dependency identity, used for dedup of declared addons.
    pub fn is_same_as(&self, other: &SourceDescriptor) -> (r: bool)
        ensures
            r == self.same_source(*other),
    {
        self.kind == other.kind && str_eq(self.identifier.as_str(), other.identifier.as_str())
    }

    /// The software family of a server jar declared by this descriptor.
    pub fn get_software_type(&self) -> (r: SoftwareType)
        ensures
            r == self.software_type(),
    {
        match self.kind {
            SourceKind::PaperMC => {
                if str_eq(self.identifier.as_str(), "velocity") || str_eq(
                    self.identifier.as_str(),
                    "waterfall",
                ) {
                    SoftwareType::Proxy
                } else {
                    SoftwareType::Normal
                }
            },
            SourceKind::Fabric => SoftwareType::Modded,
            SourceKind::Url => SoftwareType::Unknown,
        }
    }

    /// What `get_software_type` returns, as a function of the fields.
    pub open spec fn software_type(self) -> SoftwareType {
        match self.kind {
            SourceKind::PaperMC => if self.identifier@ == "velocity"@ || self.identifier@
                == "waterfall"@ {
                SoftwareType::Proxy
            } else {
                SoftwareType::Normal
            },
            SourceKind::Fabric => SoftwareType::Modded,
            SourceKind::Url => SoftwareType::Unknown,
        }
    }
}

impl Clone for SourceDescriptor {
    fn clone(&self) -> (r: Self)
        ensures
            r == *self,
    {
        SourceDescriptor {
            kind: self.kind,
            identifier: self.identifier.clone(),
            version_selector: self.version_selector.clone(),
        }
    }
}

/// Output of resolution: a concrete, addressable artifact, ready to fetch.
/// Created fresh on every resolution call and never mutated.
#[derive(Debug)]
pub struct ResolvedRef {
    pub version_id: String,
    pub build_id: String,
    pub filename: String,
    pub checksum: Option<String>,
    pub content_length: Option<u64>,
}

impl ResolvedRef {
    /// Two references denote the same artifact exactly when version, build
    /// and checksum all agree; filename and length hints play no part.
    pub open spec fn equivalent(self, other: ResolvedRef) -> bool {
        &&& self.version_id@ == other.version_id@
        &&& self.build_id@ == other.build_id@
        &&& match (self.checksum, other.checksum) {
            (Some(x), Some(y)) => x@ == y@,
            (None, None) => true,
            _ => false,
        }
    }

    /// Decides `equivalent`, the reuse comparison of the pipeline.
    pub fn is_equivalent(&self, other: &ResolvedRef) -> (r: bool)
        ensures
            r == self.equivalent(*other),
    {
        str_eq(self.version_id.as_str(), other.version_id.as_str()) && str_eq(
            self.build_id.as_str(),
            other.build_id.as_str(),
        ) && opt_str_eq(&self.checksum, &other.checksum)
    }
}

impl Clone for ResolvedRef {
    fn clone(&self) -> (r: Self)
        ensures
            r == *self,
    {
        ResolvedRef {
            version_id: self.version_id.clone(),
            build_id: self.build_id.clone(),
            filename: self.filename.clone(),
            checksum: match &self.checksum {
                Some(c) => Some(c.clone()),
                None => None,
            },
            content_length: self.content_length,
        }
    }
}

} // verus!
