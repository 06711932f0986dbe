//! The provider descriptors: which hosting service to talk to and how to
//! authenticate against it. Each variant matches one concrete provider
//! implementation.

use vstd::prelude::*;

pub mod gitea;
pub mod gitlab;

verus! {

/// A provider descriptor: the API base URL, the project to address, and
/// the credential to present. Constructed once from configuration and
/// immutable thereafter.
pub enum Provider {
    Gitea { api_url: String, project_id: String, token: String },
    GitLab { api_url: String, project_id: String, token: String },
}

impl Provider {
    /// The provider's short name, as configuration spells it.
    pub fn name(&self) -> (r: &'static str)
        ensures
            self is Gitea ==> r@ == "gitea"@,
            self is GitLab ==> r@ == "gitlab"@,
    {
        match self {
            Provider::Gitea { .. } => "gitea",
            Provider::GitLab { .. } => "gitlab",
        }
    }
}

} // verus!
