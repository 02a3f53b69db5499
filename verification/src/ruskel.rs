//! The API-skeleton tool surface: its parameter schema and the feature
//! selection its requests decide.
//!
//! The skeleton renderer itself is an external collaborator driven from
//! the application shell; this module holds the tool's plain data and
//! the decision which Cargo features a request asks for.

use vstd::prelude::*;

verus! {

/// Generates API skeletons through the external renderer.
pub struct RuskelAnalyzer;

impl RuskelAnalyzer {
    /// A fresh skeleton generator.
    pub fn new() -> (r: RuskelAnalyzer)
        ensures
            true,
    {
        RuskelAnalyzer
    }
}

/// Parameters of one skeleton request.
pub struct RuskelSkeletonTool {
    /// Target to generate: a directory, file path, or module name.
    pub target: String,
    /// Disable default features.
    pub no_default_features: bool,
    /// Enable all features.
    pub all_features: bool,
    /// Specific features to enable.
    pub features: Vec<String>,
    /// Render private items.
    pub private: bool,
}

/// Which Cargo features a request turns on.
#[derive(Debug)]
pub enum FeatureChoice {
    /// Every optional feature.
    All,
    /// Exactly the listed features.
    Listed(Vec<String>),
    /// The crate's default features.
    Defaults,
}

/// Decide the feature selection for a request: all features win over a
/// list, and an empty list means the defaults.
pub fn feature_choice(all_features: bool, features: Vec<String>) -> (r: FeatureChoice)
    ensures
        all_features ==> r is All,
        !all_features && features@.len() > 0 ==> (r matches FeatureChoice::Listed(fs) && fs
            == features),
        !all_features && features@.len() == 0 ==> r is Defaults,
{
    if all_features {
        FeatureChoice::All
    } else if features.len() > 0 {
        FeatureChoice::Listed(features)
    } else {
        FeatureChoice::Defaults
    }
}

} // verus!
