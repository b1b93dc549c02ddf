//! The four ways in which a word is turned into a request.

use vstd::prelude::*;

verus! {

/// What a run enumerates.
#[derive(Clone, Copy, Debug, PartialEq, Eq, Structural)]
pub enum Mode {
    /// Paths below the target: the word becomes a new path segment.
    Dir,
    /// An arbitrary position of the target, marked there by the caller.
    Fuzz,
    /// Virtual hosts of one address: the word becomes part of the `Host` header.
    Vhost,
    /// Subdomains of the target's host: the word becomes a DNS label.
    DNS,
}

impl Default for Mode {
    fn default() -> (mode: Mode)
        ensures
            mode == Mode::Dir,
    {
        Mode::Dir
    }
}

impl Mode {
    /// The name under which the mode is shown to the user.
    pub open spec fn label(self) -> Seq<char> {
        match self {
            Mode::Dir => "Dir (Directory)"@,
            Mode::Fuzz => "Fuzz (Fuzzing)"@,
            Mode::Vhost => "VHost (Virtual Host)"@,
            Mode::DNS => "DNS (Subdomains)"@,
        }
    }

    /// Whether a list of extensions has a meaning in this mode: only where
    /// the word ends up in the path or at a marked position.
    pub open spec fn takes_extensions(self) -> bool {
        self == Mode::Dir || self == Mode::Fuzz
    }

    /// The name under which the mode is shown to the user.
    pub fn to_string(&self) -> (text: String)
        ensures
            text@ == self.label(),
    {
        match self {
            Mode::Dir => "Dir (Directory)".to_owned(),
            Mode::Fuzz => "Fuzz (Fuzzing)".to_owned(),
            Mode::Vhost => "VHost (Virtual Host)".to_owned(),
            Mode::DNS => "DNS (Subdomains)".to_owned(),
        }
    }

    /// Whether a list of extensions has a meaning in this mode.
    pub fn accepts_extensions(&self) -> (yes: bool)
        ensures
            yes == self.takes_extensions(),
    {
        match self {
            Mode::Dir => true,
            Mode::Fuzz => true,
            Mode::Vhost => false,
            Mode::DNS => false,
        }
    }
}

} // verus!
