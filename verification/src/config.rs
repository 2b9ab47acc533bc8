//! The config command, which looks after the configuration.

use crate::ConfigurationFilePath;
use vstd::prelude::*;

verus! {

/// The arguments of the config command.
pub struct ConfigCommand {
    pub debug: bool,
    pub command: Option<ConfigCommands>,
    pub configuration_file_path: Option<String>,
}

/// What the config command can be asked to do.
#[derive(Debug, Clone, Copy, PartialEq, Eq)]
pub enum ConfigCommands {
    /// Validate the configuration.
    Validate,
}

impl ConfigurationFilePath for ConfigCommand {
    open spec fn configured_path(&self) -> Option<String> {
        self.configuration_file_path
    }

    fn configuration_file_path(&self) -> &Option<String> {
        &self.configuration_file_path
    }
}

} // verus!
