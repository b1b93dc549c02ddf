//! Errors that stop a run before any request is made.

use crate::mode::Mode;
use vstd::prelude::*;

verus! {

/// Why a run cannot start.
#[derive(Clone, Copy, Debug, PartialEq, Eq, Structural)]
pub enum ConfigError {
    /// A list of extensions was given in a mode that has no use for one.
    ExtensionsUnsupported,
    /// The target does not begin with `http://` or `https://`.
    InvalidTarget,
    /// The concurrency limit is zero, so no request could ever be made.
    NoConcurrency,
}

impl ConfigError {
    /// The text of the message shown for this error.
    pub open spec fn text(self) -> Seq<char> {
        match self {
            ConfigError::ExtensionsUnsupported => "Extensions are not supported in VHost mode"@,
            ConfigError::InvalidTarget => "Target must start with http:// or https://"@,
            ConfigError::NoConcurrency => "Number of threads must be at least 1"@,
        }
    }

    /// The message shown for this error.
    pub fn message(&self) -> (text: String)
        ensures
            text@ == self.text(),
    {
        match self {
            ConfigError::ExtensionsUnsupported => {
                "Extensions are not supported in VHost mode".to_owned()
            },
            ConfigError::InvalidTarget => "Target must start with http:// or https://".to_owned(),
            ConfigError::NoConcurrency => "Number of threads must be at least 1".to_owned(),
        }
    }
}

/// Checks that the options fit the mode: a list of extensions is accepted
/// only in the modes that take one.
pub fn validate_options(mode: &Mode, has_extensions: bool) -> (checked: Result<(), ConfigError>)
    ensures
        checked == if has_extensions && !mode.takes_extensions() {
            Err::<(), ConfigError>(ConfigError::ExtensionsUnsupported)
        } else {
            Ok::<(), ConfigError>(())
        },
{
    if has_extensions && !mode.accepts_extensions() {
        Err(ConfigError::ExtensionsUnsupported)
    } else {
        Ok(())
    }
}

} // verus!
