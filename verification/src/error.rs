//! What can go wrong when themes are synchronised.
use vstd::prelude::*;

use crate::target::Target;
use crate::text::concat;

verus! {

broadcast use vstd::string::group_string_axioms;

/// The library's errors.
#[derive(Debug)]
pub enum Error {
    /// The theme is in no catalog.
    UnknownTheme(String),
    /// No theme has been set yet.
    MissingCurrentTheme,
    /// The theme names no theme for any supported target.
    NoSupportedTargets(String),
    /// The target's configuration file is not there.
    MissingTarget { app: Target, path: String },
    /// The target's configuration file has a layout that cannot be patched.
    UnsupportedLayout { app: Target, reason: String },
    /// The user's home directory could not be determined.
    HomeDirectoryUnknown,
}

impl Error {
    /// The text that describes the error to a user.
    pub open spec fn message_text(&self) -> Seq<char> {
        match self {
            Error::UnknownTheme(t) => "theme `"@ + t@ + "` is not configured"@,
            Error::MissingCurrentTheme => "no theme set. Run `hue set <theme>` first"@,
            Error::NoSupportedTargets(t) => "theme `"@ + t@
                + "` does not map to any supported targets"@,
            Error::MissingTarget { app, path } => "missing target config for "@ + app.label_text()
                + " at "@ + path@,
            Error::UnsupportedLayout { app, reason } => "unsupported "@ + app.label_text()
                + " config layout: "@ + reason@,
            Error::HomeDirectoryUnknown => "could not determine the user home directory"@,
        }
    }

    /// Describes the error to a user.
    pub fn message(&self) -> (m: String)
        ensures
            m@ == self.message_text(),
    {
        match self {
            Error::UnknownTheme(t) => {
                let m = concat("theme `", t.as_str());
                m.concat("` is not configured")
            },
            Error::MissingCurrentTheme => String::from_str("no theme set. Run `hue set <theme>` first"),
            Error::NoSupportedTargets(t) => {
                let m = concat("theme `", t.as_str());
                m.concat("` does not map to any supported targets")
            },
            Error::MissingTarget { app, path } => {
                let m = concat("missing target config for ", app.label());
                let m = m.concat(" at ");
                m.concat(path.as_str())
            },
            Error::UnsupportedLayout { app, reason } => {
                let m = concat("unsupported ", app.label());
                let m = m.concat(" config layout: ");
                m.concat(reason.as_str())
            },
            Error::HomeDirectoryUnknown => String::from_str("could not determine the user home directory"),
        }
    }
}

} // verus!
