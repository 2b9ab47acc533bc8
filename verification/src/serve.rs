//! Serving the build directory during development.

use crate::configuration::Config;
use vstd::prelude::*;

verus! {

/// The arguments of the serve command.
pub struct ServeCommand {
    pub debug: bool,
    pub port: Option<u16>,
}

/// The port to serve on: the one given on the command line, or else the one
/// of the configuration.
pub fn get_port(command: &ServeCommand, config: &Config) -> (port: u16)
    ensures
        port == match command.port {
            Some(given) => given,
            None => config.development_config.port,
        },
{
    match command.port {
        Some(port) => port,
        None => config.development_config.port,
    }
}

} // verus!
