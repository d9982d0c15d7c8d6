use vogix::scheme::Scheme;

fn all_schemes() -> &'static [Scheme] {
    &[Scheme::Ansi16, Scheme::Base16, Scheme::Base24, Scheme::Vogix16]
}

#[test]
fn test_scheme_display() {
    assert_eq!(Scheme::Vogix16.to_string(), "vogix16");
    assert_eq!(Scheme::Base16.to_string(), "base16");
    assert_eq!(Scheme::Base24.to_string(), "base24");
    assert_eq!(Scheme::Ansi16.to_string(), "ansi16");
}

#[test]
fn test_scheme_from_str() {
    assert_eq!("vogix16".parse::<Scheme>().unwrap(), Scheme::Vogix16);
    assert_eq!("BASE16".parse::<Scheme>().unwrap(), Scheme::Base16);
    assert_eq!("Base24".parse::<Scheme>().unwrap(), Scheme::Base24);
    assert_eq!("ANSI16".parse::<Scheme>().unwrap(), Scheme::Ansi16);
    assert!("invalid".parse::<Scheme>().is_err());
}

#[test]
fn test_scheme_all() {
    let schemes = all_schemes();
    assert_eq!(schemes.len(), 4);
    assert!(schemes.contains(&Scheme::Vogix16));
    assert!(schemes.contains(&Scheme::Base16));
    assert!(schemes.contains(&Scheme::Base24));
    assert!(schemes.contains(&Scheme::Ansi16));
}

#[test]
fn test_scheme_default() {
    assert_eq!(Scheme::default(), Scheme::Vogix16);
}

#[test]
fn scheme_extensions() {
    assert_eq!(Scheme::Vogix16.extension(), "toml");
    assert_eq!(Scheme::Ansi16.extension(), "toml");
    assert_eq!(Scheme::Base16.extension(), "yaml");
    assert_eq!(Scheme::Base24.extension(), "yaml");
}

#[test]
fn scheme_unknown_name_message() {
    let err = Scheme::parse("solarized").unwrap_err();
    assert_eq!(err, "Unknown scheme: solarized. Valid schemes: vogix16, base16, base24, ansi16");
}

#[test]
fn scheme_from_lowercase_is_exact() {
    assert_eq!(Scheme::from_lowercase("base24"), Some(Scheme::Base24));
    assert_eq!(Scheme::from_lowercase("Base24"), None);
}
