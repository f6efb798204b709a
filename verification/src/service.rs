//! Where a service's code comes from, as far as the deploy logic reads it.

use vstd::prelude::*;

verus! {

/// A service built from a Git repository.
pub struct GitSource {
    pub url: String,
    pub branch: String,
    pub dockerfile_path: String,
    pub build_context: String,
    pub provider_id: Option<String>,
    pub credentials: Option<String>,
    pub username: Option<String>,
}

/// A service built from an uploaded zip.
pub struct ArchiveSource {
    pub archive_id: String,
    pub dockerfile_path: String,
    pub build_context: String,
}

/// A service run as a Compose stack.
pub struct ComposeSource {
    pub content: String,
    pub ingress_service: Option<String>,
}

/// The four kinds of source a service can have.
pub enum ServiceSource {
    Registry { image: String },
    Git(GitSource),
    Archive(ArchiveSource),
    Compose(ComposeSource),
}

impl Default for GitSource {
    fn default() -> (r: Self)
        ensures
            r.url@.len() == 0,
            r.branch@.len() == 0,
            r.dockerfile_path@.len() == 0,
            r.build_context@.len() == 0,
            r.provider_id is None,
            r.credentials is None,
            r.username is None,
    {
        GitSource {
            url: String::new(),
            branch: String::new(),
            dockerfile_path: String::new(),
            build_context: String::new(),
            provider_id: None,
            credentials: None,
            username: None,
        }
    }
}

impl Default for ArchiveSource {
    fn default() -> (r: Self)
        ensures
            r.archive_id@.len() == 0,
            r.dockerfile_path@.len() == 0,
            r.build_context@.len() == 0,
    {
        ArchiveSource {
            archive_id: String::new(),
            dockerfile_path: String::new(),
            build_context: String::new(),
        }
    }
}

} // verus!
