//! Error kinds of the library.

use vstd::prelude::*;

verus! {

/// Why interpolating a template failed.
#[derive(Debug, Clone, PartialEq, Eq)]
pub enum TemplateError {
    /// Malformed `{{ ... }}` markup.
    Syntax,
    /// The template names a colour key that the map does not hold.
    UndefinedVariable(String),
    /// A filter's input does not meet its precondition.
    Filter { filter: String, input: String },
    /// The template names a filter that does not exist.
    UnknownFilter(String),
}

/// Every failure the library reports.
#[derive(Debug, Clone, PartialEq, Eq)]
pub enum VogixError {
    /// A filesystem operation failed.
    Io(String),
    /// A file that must exist is missing.
    ConfigNotFound(String),
    /// Configuration is missing or invalid.
    Config(String),
    /// A TOML source is malformed or lacks the expected structure.
    TomlParse,
    /// A YAML source is malformed or lacks the expected structure.
    YamlParse,
    /// A theme or variant request cannot be satisfied.
    InvalidTheme(String),
    /// A theme or variant does not exist.
    ThemeNotFound(String),
    /// Switching the current-theme link failed.
    Symlink { message: String },
    /// Asking an application to reload failed.
    Reload { message: String },
    /// Rendering a template failed.
    Template(TemplateError),
}

impl VogixError {
    /// A link-switching error with the given message.
    pub fn symlink(message: String) -> (r: VogixError)
        ensures
            r matches VogixError::Symlink { message: m } && m@ == message@,
    {
        VogixError::Symlink { message }
    }

    /// A reload error with the given message.
    pub fn reload(message: String) -> (r: VogixError)
        ensures
            r matches VogixError::Reload { message: m } && m@ == message@,
    {
        VogixError::Reload { message }
    }
}

} // verus!
