//! The closed set of palette formats.

use vstd::prelude::*;
use crate::text::{owned, push_text, same_text};

verus! {

/// Palette formats: each fixes a source file extension, a parser and a key set.
#[derive(Debug, Clone, Copy, PartialEq, Eq, Hash, Structural)]
pub enum Scheme {
    /// Alacritty-style nested sections flattened to fixed names.
    Ansi16,
    /// A flat `palette` of `base00`..`base0F`.
    Base16,
    /// A flat `palette` of `base00`..`base17`.
    Base24,
    /// A flat `colors` table of `base00`..`base0F` plus semantic aliases.
    Vogix16,
}

/// Lower-case name of a scheme.
pub open spec fn scheme_name(s: Scheme) -> Seq<char> {
    match s {
        Scheme::Vogix16 => "vogix16"@,
        Scheme::Base16 => "base16"@,
        Scheme::Base24 => "base24"@,
        Scheme::Ansi16 => "ansi16"@,
    }
}

/// The scheme whose lower-case name is `name`.
pub open spec fn scheme_named(name: Seq<char>) -> Option<Scheme> {
    if name == "vogix16"@ {
        Some(Scheme::Vogix16)
    } else if name == "base16"@ {
        Some(Scheme::Base16)
    } else if name == "base24"@ {
        Some(Scheme::Base24)
    } else if name == "ansi16"@ {
        Some(Scheme::Ansi16)
    } else {
        None
    }
}

/// File extension of a scheme's palette sources.
pub open spec fn scheme_extension(s: Scheme) -> Seq<char> {
    match s {
        Scheme::Vogix16 | Scheme::Ansi16 => "toml"@,
        Scheme::Base16 | Scheme::Base24 => "yaml"@,
    }
}

/// What `str::to_lowercase` gives for a text.
pub uninterp spec fn lower_of(s: Seq<char>) -> Seq<char>;

/// Relies on `str::to_lowercase`: the result depends on the characters alone.
#[verifier::external_body]
pub(crate) fn lowercase(s: &str) -> (r: String)
    ensures
        r@ == lower_of(s@),
{
    s.to_lowercase()
}

impl Scheme {
    /// The scheme's lower-case name.
    pub fn name(&self) -> (r: &'static str)
        ensures
            r@ == scheme_name(*self),
    {
        match self {
            Scheme::Vogix16 => "vogix16",
            Scheme::Base16 => "base16",
            Scheme::Base24 => "base24",
            Scheme::Ansi16 => "ansi16",
        }
    }

    /// The scheme's lower-case name as an owned string.
    pub fn to_string(&self) -> (r: String)
        ensures
            r@ == scheme_name(*self),
    {
        owned(self.name())
    }

    /// Extension of the scheme's palette source files.
    pub fn extension(&self) -> (r: &'static str)
        ensures
            r@ == scheme_extension(*self),
    {
        match self {
            Scheme::Vogix16 | Scheme::Ansi16 => "toml",
            Scheme::Base16 | Scheme::Base24 => "yaml",
        }
    }

    /// The scheme with exactly this lower-case name.
    pub fn from_lowercase(name: &str) -> (r: Option<Scheme>)
        ensures
            r == scheme_named(name@),
    {
        if same_text(name, "vogix16") {
            Some(Scheme::Vogix16)
        } else if same_text(name, "base16") {
            Some(Scheme::Base16)
        } else if same_text(name, "base24") {
            Some(Scheme::Base24)
        } else if same_text(name, "ansi16") {
            Some(Scheme::Ansi16)
        } else {
            None
        }
    }

    /// The scheme named by `s`, compared without regard to case.
    pub fn parse(s: &str) -> (r: Result<Scheme, String>)
        ensures
            match scheme_named(lower_of(s@)) {
                Some(k) => r == Ok::<Scheme, String>(k),
                None => r is Err,
            },
    {
        let lower = lowercase(s);
        match Scheme::from_lowercase(lower.as_str()) {
            Some(k) => Ok(k),
            None => {
                let mut msg = owned("Unknown scheme: ");
                push_text(&mut msg, s);
                push_text(&mut msg, ". Valid schemes: vogix16, base16, base24, ansi16");
                Err(msg)
            },
        }
    }
}

impl Default for Scheme {
    fn default() -> (r: Scheme)
        ensures
            r == Scheme::Vogix16,
    {
        Scheme::Vogix16
    }
}

impl std::str::FromStr for Scheme {
    type Err = String;

    fn from_str(s: &str) -> Result<Scheme, String> {
        Scheme::parse(s)
    }
}

} // verus!
