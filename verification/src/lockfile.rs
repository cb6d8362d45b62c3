//! What the lockfile says of a package.

use vstd::prelude::*;

verus! {

/// Where a locked package comes from.
#[derive(Debug, Clone, PartialEq, Eq)]
pub enum PackageSource {
    Bioconductor,
    Gitlab { host: String },
}

/// What a [`PackageSource`] holds.
pub enum Origin {
    Bioconductor,
    Gitlab(Seq<char>),
}

impl DeepView for PackageSource {
    type V = Origin;

    open spec fn deep_view(&self) -> Origin {
        match self {
            PackageSource::Bioconductor => Origin::Bioconductor,
            PackageSource::Gitlab { host } => Origin::Gitlab(host@),
        }
    }
}

} // verus!
