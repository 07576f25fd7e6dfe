//! The failures the library reports.

use vstd::prelude::*;

verus! {

/// A failure, with the values that explain it.
#[derive(Debug, Clone, PartialEq, Eq)]
pub enum Error {
    /// No occurrence of the key in the configuration text.
    KeyNotFound { key: String },
    /// More than one occurrence of the key; the patch refuses to guess.
    AmbiguousKey { key: String, count: usize },
    /// A value that is neither a string, a boolean nor a number.
    UnsupportedValue,
    /// A configuration path without segments.
    EmptyPath,
    /// No pane matched the directory and title asked for.
    PaneNotFound { dir: Option<String>, title: Option<String> },
    /// A window was found for the directory, but no pane in it runs the driver.
    DriverPaneNotFound { directory: String },
    /// The profile name is not defined.
    ProfileNotFound { name: String },
    /// The profile order is empty.
    NoProfiles,
    /// A profile has terminal entries but no terminal settings were given.
    TerminalConfigMissing,
    /// An external command failed; its message.
    CommandFailed { message: String },
    /// The application has no window.
    WindowNotFound { app: String },
    /// Window bounds were not four integers, or do not fit.
    UnexpectedBounds { output: String },
    /// The far corner of the window bounds does not fit.
    BoundsOutOfRange,
}

} // verus!
