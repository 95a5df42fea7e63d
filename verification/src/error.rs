//! Why a configuration is refused.
use vstd::prelude::*;

verus! {

/// A value that no sphere, material or camera can be built from.
#[derive(Clone, Copy, Debug, PartialEq, Eq, Structural)]
pub enum ConfigError {
    /// The image would have no columns.
    NonPositiveWidth,
    /// The ratio of width to height is zero or negative.
    NonPositiveAspectRatio,
    /// The sphere's radius is zero or negative.
    NonPositiveRadius,
    /// The refraction index is zero or negative.
    NonPositiveRefractionIndex,
}

} // verus!
