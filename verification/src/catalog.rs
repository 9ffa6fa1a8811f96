//! What the store's server offers.

use vstd::prelude::*;

verus! {

/// Where the store's server is when nothing else is configured.
pub const PRODUCTION_API_BASE_URL: &'static str = "https://api.store.mochios.org/v1";

/// Everything that the store shows.
#[derive(Debug)]
pub struct Storefront {
    pub sections: Vec<StorefrontSection>,
    pub categories: Vec<StorefrontCategory>,
}

/// Apps under a title of the server's choice.
#[derive(Debug)]
pub struct StorefrontSection {
    pub title: String,
    pub subtitle: Option<String>,
    pub apps: Vec<CatalogApp>,
}

/// A category that a user can look into.
#[derive(Debug)]
pub struct StorefrontCategory {
    pub name: String,
}

/// An app as the server describes it.
#[derive(Debug)]
pub struct CatalogApp {
    pub bundle_id: String,
    pub name: String,
    pub version: String,
    pub developer: String,
    pub description: String,
    pub subtitle: Option<String>,
    pub category: String,
    pub icon: Option<String>,
}

/// A release of an app, as the server advertises it.
#[derive(Debug)]
pub struct ReleaseResponse {
    pub version: String,
    /// The size of the package in bytes.
    pub size: u64,
    /// The SHA-256 digest of the package, in base sixteen.
    pub sha256: String,
}

impl Clone for CatalogApp {
    fn clone(&self) -> (copy: Self)
        ensures
            copy == *self,
    {
        CatalogApp {
            bundle_id: self.bundle_id.clone(),
            name: self.name.clone(),
            version: self.version.clone(),
            developer: self.developer.clone(),
            description: self.description.clone(),
            subtitle: match &self.subtitle {
                Some(subtitle) => Some(subtitle.clone()),
                None => None,
            },
            category: self.category.clone(),
            icon: match &self.icon {
                Some(icon) => Some(icon.clone()),
                None => None,
            },
        }
    }
}

} // verus!
