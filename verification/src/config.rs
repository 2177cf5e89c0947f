//! The command script that configures the sensor.

use vstd::prelude::*;

verus! {

/// The command script, as it was read: one command per line.
pub struct Config {
    pub raw_input: String,
}

impl Config {
    /// Takes the text of a command script as the configuration.
    pub fn parse_conf(config: String) -> (conf: Config)
        ensures
            conf.raw_input@ == config@,
    {
        Config { raw_input: config }
    }
}

} // verus!
