//! The language version a session is pinned to: a semantic version's numeric
//! parts, with its dotted decimal notation.

use vstd::prelude::*;
use crate::dec::{dec_digits, u64_to_dec};

verus! {

/// A pinned language version: the numeric parts of a semantic version.
#[derive(Clone, Copy, Debug, PartialEq, Eq, Structural)]
pub struct LangVersion {
    /// The major version.
    pub major: u64,
    /// The minor version.
    pub minor: u64,
    /// The patch version.
    pub patch: u64,
}

/// The dotted decimal notation of a version, `major.minor.patch`.
pub open spec fn version_chars(v: LangVersion) -> Seq<char> {
    dec_digits(v.major as nat) + seq!['.'] + dec_digits(v.minor as nat) + seq!['.']
        + dec_digits(v.patch as nat)
}

/// What the external semver parser makes of a version string: `None` when the
/// string is not a valid semantic version, otherwise its numeric parts. The
/// answer is a function of the characters alone.
pub uninterp spec fn semver_parsed(s: Seq<char>) -> Option<LangVersion>;

/// Relies on semver::Version::parse: accepts exactly the valid semantic
/// version strings and yields their numeric major, minor and patch parts.
#[verifier::external_body]
pub fn parse_version_str(s: &str) -> (r: Option<LangVersion>)
    ensures
        r == semver_parsed(s@),
{
    match semver::Version::parse(s) {
        Ok(v) => Some(LangVersion { major: v.major, minor: v.minor, patch: v.patch }),
        Err(_) => None,
    }
}

impl LangVersion {
    /// Prints the version in dotted decimal notation.
    pub fn render(&self) -> (s: String)
        ensures
            s@ == version_chars(*self),
    {
        let mut s = u64_to_dec(self.major);
        s.append(".");
        let minor = u64_to_dec(self.minor);
        s.append(minor.as_str());
        s.append(".");
        let patch = u64_to_dec(self.patch);
        s.append(patch.as_str());
        proof {
            reveal_strlit(".");
            assert(s@ =~= version_chars(*self));
        }
        s
    }
}

} // verus!
