//! Where packages come from.

use vstd::prelude::*;

use crate::lockfile::{Origin, PackageSource};
use crate::resolver::{Version, VersionParts};

pub mod bioconductor;
pub mod cran;
pub mod forgejo;
pub mod github;
pub mod gitlab;
pub mod p3m_status;
pub mod remote_path;

verus! {

/// A package that another one needs, with the version that it asks for.
#[derive(Debug, Clone, PartialEq, Eq)]
pub struct Dep {
    pub name: String,
    pub constraint: Option<String>,
}

/// What a [`Dep`] holds.
pub struct Need {
    pub name: Seq<char>,
    pub constraint: Option<Seq<char>>,
}

impl DeepView for Dep {
    type V = Need;

    open spec fn deep_view(&self) -> Need {
        Need { name: self.name@, constraint: self.constraint.deep_view() }
    }
}

/// A package of which a registry knows the version and where to get it.
#[derive(Debug, PartialEq, Eq)]
pub struct PackageInfo {
    pub name: String,
    pub version: Version,
    pub source: PackageSource,
    pub checksum: Option<String>,
    pub requires: Vec<Dep>,
    pub url: String,
    pub raw_version: Option<String>,
    pub system_requirements: Option<String>,
}

/// What a [`PackageInfo`] holds.
pub struct Package {
    pub name: Seq<char>,
    pub version: VersionParts,
    pub source: Origin,
    pub checksum: Option<Seq<char>>,
    pub needs: Seq<Need>,
    pub url: Seq<char>,
    pub raw_version: Option<Seq<char>>,
    pub system_requirements: Option<Seq<char>>,
}

impl DeepView for PackageInfo {
    type V = Package;

    open spec fn deep_view(&self) -> Package {
        Package {
            name: self.name@,
            version: self.version.deep_view(),
            source: self.source.deep_view(),
            checksum: self.checksum.deep_view(),
            needs: self.requires.deep_view(),
            url: self.url@,
            raw_version: self.raw_version.deep_view(),
            system_requirements: self.system_requirements.deep_view(),
        }
    }
}

} // verus!
