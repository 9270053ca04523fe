//! Reading the command-line argument that holds the configuration line.
use vstd::prelude::*;

use crate::config::{config_result_is, spec_parse_config, Config, ConfigError};

verus! {

/// Reads the configuration argument of the command line.
pub struct ConfigParser;

/// Why the configuration argument was refused.
#[derive(Debug, PartialEq)]
pub enum ConfigParserError {
    /// The argument is not valid Unicode.
    ValueValidation,
    /// The argument is not a valid configuration line.
    InvalidValue(ConfigError),
}

impl ConfigParser {
    /// Reads the argument `value`, which is `None` when the argument is not
    /// valid Unicode: such an argument is refused as `ValueValidation`, and a
    /// malformed configuration line as `InvalidValue` with the reason.
    pub fn parse_value(&self, value: Option<&str>) -> (res: Result<Config, ConfigParserError>)
        ensures
            value is None ==> res == Err::<Config, ConfigParserError>(
                ConfigParserError::ValueValidation,
            ),
            value matches Some(s) ==> match res {
                Ok(c) => config_result_is(Ok(c), spec_parse_config(s@)),
                Err(ConfigParserError::InvalidValue(e)) => config_result_is(
                    Err(e),
                    spec_parse_config(s@),
                ),
                Err(ConfigParserError::ValueValidation) => false,
            },
    {
        let s = match value {
            Some(s) => s,
            None => return Err(ConfigParserError::ValueValidation),
        };
        match Config::parse(s) {
            Ok(c) => Ok(c),
            Err(e) => Err(ConfigParserError::InvalidValue(e)),
        }
    }
}

} // verus!
