//! The migration engine's error taxonomy. Every failure of discovery,
//! sequencing, or application is reported through one of these variants;
//! nothing is logged and swallowed.

use vstd::prelude::*;
use crate::text;

verus! {

/// What can go wrong while discovering or applying migrations.
#[derive(Debug, Clone)]
pub enum Error {
    /// A backend failure: table creation, query, connection or statement.
    DriverError(String),
    /// A filesystem failure during discovery or content resolution.
    IOError(String),
    /// A leading digit run in a file name failed to parse as an ordinal.
    ParseError(String),
    /// The rendezvous between the blocking caller and the I/O side failed.
    ChannelError(String),
    /// A unit could not be described (for instance, a path with no file
    /// name component).
    VersionError(String),
    /// The discovered ordinals are not the contiguous run `1..N`: the
    /// first field is the ordinal that was expected, the second the one
    /// that was found in its place.
    SequenceError(usize, usize),
    /// Applying one unit failed inside its own transaction, which has been
    /// rolled back: ordinal, label, and cause.
    UpgradeError(usize, String, String),
}

/// The rendered text of an error, exactly as [`Error::to_string`] builds it.
pub open spec fn error_text(e: Error) -> Seq<char> {
    match e {
        Error::DriverError(m) => "Driver error: "@ + m@,
        Error::IOError(m) => m@,
        Error::ParseError(m) => m@,
        Error::ChannelError(m) => m@,
        Error::VersionError(m) => "Invalid version: "@ + m@,
        Error::SequenceError(expect, actual) => "Invalid version sequence; expected: "@
            + text::dec_digits(expect as nat) + ", found: "@ + text::dec_digits(actual as nat),
        Error::UpgradeError(version, resource, m) => "Could not upgrade to version #"@
            + text::dec_digits(version as nat) + " ["@ + resource@ + "]: "@ + m@,
    }
}

impl Error {
    /// The error rendered as one line of text.
    pub fn to_string(&self) -> (r: String)
        ensures
            r@ == error_text(*self),
    {
        match self {
            Error::DriverError(m) => {
                let mut out = String::from_str("Driver error: ");
                out.append(m.as_str());
                out
            },
            Error::IOError(m) => m.clone(),
            Error::ParseError(m) => m.clone(),
            Error::ChannelError(m) => m.clone(),
            Error::VersionError(m) => {
                let mut out = String::from_str("Invalid version: ");
                out.append(m.as_str());
                out
            },
            Error::SequenceError(expect, actual) => {
                let mut out = String::from_str("Invalid version sequence; expected: ");
                let e = text::usize_string(*expect);
                out.append(e.as_str());
                out.append(", found: ");
                let a = text::usize_string(*actual);
                out.append(a.as_str());
                proof {
                    assert(out@ =~= error_text(*self));
                }
                out
            },
            Error::UpgradeError(version, resource, m) => {
                let mut out = String::from_str("Could not upgrade to version #");
                let v = text::usize_string(*version);
                out.append(v.as_str());
                out.append(" [");
                out.append(resource.as_str());
                out.append("]: ");
                out.append(m.as_str());
                proof {
                    assert(out@ =~= error_text(*self));
                }
                out
            },
        }
    }
}

} // verus!
