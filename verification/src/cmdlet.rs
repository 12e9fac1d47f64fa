//! The record that the indexing pipeline consumes.

use vstd::prelude::*;

verus! {

/// Cmdlet information for indexing.
#[derive(Debug)]
pub struct Cmdlet {
    /// Module the cmdlet came from.
    pub module: String,
    /// Module version for the cmdlet.
    pub module_version: String,
    /// Full name of the cmdlet, eg. Get-Something.
    pub name: String,
    /// Help URL for the cmdlet.
    pub url: String,
    /// List of tags to associate with the cmdlet.
    pub tags: Vec<String>,
    /// Synopsis help text for the cmdlet.
    pub synopsis: String,
    /// Syntax string for the cmdlet.
    pub syntax: String,
    /// Full description help text for the cmdlet.
    pub description: String,
    /// Help text notes for the cmdlet.
    pub notes: String,
}

impl Cmdlet {
    /// A record fit for indexing: the identifying attributes are present.
    /// Tags and the free-text attributes may be empty.
    pub open spec fn valid(self) -> bool {
        &&& self.module@.len() > 0
        &&& self.module_version@.len() > 0
        &&& self.name@.len() > 0
        &&& self.url@.len() > 0
    }

    /// Checks that the identifying attributes are present; a record that
    /// fails this check must not be staged.
    pub fn validate(&self) -> (ok: bool)
        ensures
            ok == self.valid(),
    {
        !self.module.as_str().is_empty() && !self.module_version.as_str().is_empty()
            && !self.name.as_str().is_empty() && !self.url.as_str().is_empty()
    }
}

} // verus!
