//! The core of a static site generator: content files with optional front
//! matter become HTML pages through a template, and a listing page links to
//! each of them.

pub mod build;
pub mod config;
pub mod configuration;
pub mod frontmatter;
pub mod frontmatter_laws;
pub mod init;
pub mod listing_laws;
pub mod markdown;
pub mod serve;
pub mod template;
pub mod template_laws;
pub mod text;
pub mod utils;

use vstd::prelude::*;

verus! {

/// The path of the configuration file where none is given.
pub open spec fn default_configuration_file_path() -> Seq<char> {
    "./config.toml"@
}

/// The path of the configuration file: the one given, or else
/// `./config.toml`.
pub fn configuration_file_path_or_default(given: &Option<String>) -> (path: String)
    ensures
        path@ == match *given {
            Some(given_path) => given_path@,
            None => default_configuration_file_path(),
        },
{
    match given {
        Some(given_path) => given_path.clone(),
        None => "./config.toml".to_owned(),
    }
}

/// Arguments that may name the configuration file.
pub trait ConfigurationFilePath {
    /// The path given, if one was given.
    spec fn configured_path(&self) -> Option<String>;

    /// The path given, if one was given.
    fn configuration_file_path(&self) -> (given: &Option<String>)
        ensures
            *given == self.configured_path(),
    ;

    /// The path of the configuration file: the one given, or else
    /// `./config.toml`.
    fn path(&self) -> (path: String)
        ensures
            path@ == match self.configured_path() {
                Some(given) => given@,
                None => default_configuration_file_path(),
            },
    {
        configuration_file_path_or_default(self.configuration_file_path())
    }
}

} // verus!
