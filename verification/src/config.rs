//! The user's configuration: where the repository is; and the names and
//! default contents of the files the tool keeps.

use vstd::prelude::*;
use crate::error::LinkError;

verus! {

/// The name under which the configuration directory is looked up.
pub const APP_NAME: &'static str = "linkit";

/// The file, in the configuration directory, that holds the configuration.
pub const CONFIG_FILE_NAME: &'static str = "config.toml";

/// The file, at the root of the repository, that holds the manifest.
pub const MANIFEST_FILE_NAME: &'static str = "manifest.toml";

/// What a new repository's manifest holds: an open command and no entries.
pub const DEFAULT_MANIFEST: &'static str = "open_cmd = \"nvim {path}\"\n\n[maps]\n";

/// Where `clone` puts the repository when no location is given.
pub const DEFAULT_CLONE_DIR: &'static str = "dotfiles";

/// The configuration: the registered repository, if any.
#[derive(Debug)]
pub struct Config {
    pub repository: Option<String>,
}

impl Default for Config {
    fn default() -> (c: Self)
        ensures
            c.repository is None,
    {
        Config { repository: None }
    }
}

impl Config {
    /// Registers `location` as the repository.
    pub fn set_repository(&mut self, location: String)
        ensures
            final(self).repository == Some(location),
    {
        self.repository = Some(location);
    }

    /// The repository that commands other than `init`, `clone` and `locate`
    /// work on; refused while none is registered.
    pub fn require_repository(&self) -> (r: Result<String, LinkError>)
        ensures
            match self.repository {
                Some(repo) => r matches Ok(s) && s@ == repo@,
                None => r matches Err(e) && e == LinkError::NoRepository,
            },
    {
        match &self.repository {
            Some(repo) => Ok(repo.clone()),
            None => Err(LinkError::NoRepository),
        }
    }
}

/// Where `clone` puts the repository: the given location, or `dotfiles`.
pub fn clone_destination(location: Option<String>) -> (r: String)
    ensures
        match location {
            Some(l) => r@ == l@,
            None => r@ == DEFAULT_CLONE_DIR@,
        },
{
    match location {
        Some(l) => l,
        None => DEFAULT_CLONE_DIR.to_owned(),
    }
}

/// `locate` registers only a location that exists.
pub fn check_location(location: &str, exists: bool) -> (r: Result<(), LinkError>)
    ensures
        exists <==> r is Ok,
        r matches Err(e) ==> e matches LinkError::LocationDoesNotExist { location: l } && l@ == location@,
{
    if exists {
        Ok(())
    } else {
        Err(LinkError::LocationDoesNotExist { location: location.to_owned() })
    }
}

} // verus!
