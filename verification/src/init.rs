//! The init command, which sets up a new site.

use crate::ConfigurationFilePath;
use vstd::prelude::*;

verus! {

/// The arguments of the init command.
pub struct InitCommand {
    pub debug: bool,
    pub configuration_file_path: Option<String>,
}

impl ConfigurationFilePath for InitCommand {
    open spec fn configured_path(&self) -> Option<String> {
        self.configuration_file_path
    }

    fn configuration_file_path(&self) -> &Option<String> {
        &self.configuration_file_path
    }
}

} // verus!
