use vogix::errors::VogixError;
use vogix::scheme::Scheme;
use vogix::theme::{filter_by_scheme, get_theme, navigate_variant, parse_themes_from_manifest, resolve_variant, ThemeInfo, VariantInfo};

fn variant(name: &str, polarity: &str, order: u32) -> VariantInfo {
    VariantInfo { name: name.to_string(), polarity: polarity.to_string(), order }
}

fn two_variant_theme() -> ThemeInfo {
    ThemeInfo {
        name: "test".to_string(),
        scheme: Scheme::Vogix16,
        variants: vec![variant("light", "light", 0), variant("dark", "dark", 1)],
    }
}

fn rose_pine() -> ThemeInfo {
    ThemeInfo {
        name: "rose-pine".to_string(),
        scheme: Scheme::Base16,
        variants: vec![variant("dawn", "light", 0), variant("moon", "dark", 1), variant("base", "dark", 2)],
    }
}

fn unordered_theme() -> ThemeInfo {
    ThemeInfo {
        name: "test".to_string(),
        scheme: Scheme::Base16,
        variants: vec![variant("base", "dark", 2), variant("dawn", "light", 0), variant("moon", "dark", 1)],
    }
}

fn sample_themes() -> Vec<ThemeInfo> {
    vec![
        ThemeInfo { name: "aikido".to_string(), scheme: Scheme::Vogix16, variants: vec![variant("night", "dark", 0)] },
        ThemeInfo { name: "gruvbox".to_string(), scheme: Scheme::Base16, variants: vec![variant("dark", "dark", 0)] },
        ThemeInfo {
            name: "solarized".to_string(),
            scheme: Scheme::Base16,
            variants: vec![variant("light", "light", 0), variant("dark", "dark", 1)],
        },
    ]
}

fn get_variant<'a>(theme: &'a ThemeInfo, name: &str) -> Option<&'a VariantInfo> {
    theme.variants.iter().find(|v| v.name == name)
}

fn check_variant_info_creation() {
    let v = variant("dark", "dark", 1);
    assert_eq!(v.name, "dark");
    assert_eq!(v.order, 1);
}

fn check_navigate_multi_variant() {
    let theme = rose_pine();
    assert_eq!(theme.navigate("dawn", "darker").unwrap(), "moon");
    assert_eq!(theme.navigate("moon", "darker").unwrap(), "base");
    assert!(theme.navigate("base", "darker").is_err());
    assert_eq!(theme.navigate("base", "lighter").unwrap(), "moon");
    assert_eq!(theme.navigate("moon", "lighter").unwrap(), "dawn");
    assert!(theme.navigate("dawn", "lighter").is_err());
}

fn check_variants_by_order() {
    let theme = unordered_theme();
    let sorted = theme.variants_by_order();
    assert_eq!(sorted[0].name, "dawn");
    assert_eq!(sorted[1].name, "moon");
    assert_eq!(sorted[2].name, "base");
}

#[test]
fn theme_test_variant_info_creation() {
    check_variant_info_creation();
}

#[test]
fn types_test_variant_info_creation() {
    check_variant_info_creation();
}

#[test]
fn theme_test_theme_navigate_darker() {
    assert_eq!(two_variant_theme().navigate("light", "darker").unwrap(), "dark");
}

#[test]
fn types_test_theme_navigate_darker() {
    assert_eq!(two_variant_theme().navigate("light", "darker").unwrap(), "dark");
}

#[test]
fn theme_test_theme_navigate_lighter() {
    assert_eq!(two_variant_theme().navigate("dark", "lighter").unwrap(), "light");
}

#[test]
fn types_test_theme_navigate_lighter() {
    assert_eq!(two_variant_theme().navigate("dark", "lighter").unwrap(), "light");
}

#[test]
fn theme_test_theme_navigate_at_boundary() {
    let theme = two_variant_theme();
    assert!(theme.navigate("dark", "darker").is_err());
    assert!(theme.navigate("light", "lighter").is_err());
}

#[test]
fn types_test_theme_navigate_at_boundary() {
    let theme = two_variant_theme();
    assert!(theme.navigate("dark", "darker").is_err());
    assert!(theme.navigate("light", "lighter").is_err());
}

#[test]
fn theme_test_theme_navigate_multi_variant() {
    check_navigate_multi_variant();
}

#[test]
fn types_test_theme_navigate_multi_variant() {
    check_navigate_multi_variant();
}

#[test]
fn theme_test_variants_by_order() {
    check_variants_by_order();
}

#[test]
fn types_test_variants_by_order() {
    check_variants_by_order();
}

#[test]
fn navigate_ignores_case_and_rejects_unknowns() {
    let theme = rose_pine();
    assert_eq!(theme.navigate("DAWN", "Darker").unwrap(), "moon");
    assert!(matches!(theme.navigate("noon", "darker"), Err(VogixError::InvalidTheme(_))));
    assert!(matches!(theme.navigate("moon", "sideways"), Err(VogixError::InvalidTheme(_))));
}

#[test]
fn navigate_uses_order_not_list_position() {
    let theme = unordered_theme();
    assert_eq!(theme.navigate("dawn", "darker").unwrap(), "moon");
    assert_eq!(theme.navigate("base", "lighter").unwrap(), "moon");
}

#[test]
fn default_variant_for_polarity_picks_first_match_or_first() {
    let theme = rose_pine();
    assert_eq!(theme.default_variant_for_polarity("dark").unwrap().name, "moon");
    assert_eq!(theme.default_variant_for_polarity("light").unwrap().name, "dawn");
    assert_eq!(theme.default_variant_for_polarity("sepia").unwrap().name, "dawn");
    let empty = ThemeInfo { name: "e".to_string(), scheme: Scheme::Ansi16, variants: vec![] };
    assert!(empty.default_variant_for_polarity("dark").is_none());
}

#[test]
fn theme_test_filter_by_scheme() {
    let themes = sample_themes();
    let base16 = filter_by_scheme(&themes, &Scheme::Base16);
    assert_eq!(base16.len(), 2);
    assert!(base16.iter().any(|t| t.name == "gruvbox"));
}

#[test]
fn query_test_filter_by_scheme() {
    let themes = sample_themes();
    let base16_themes = filter_by_scheme(&themes, &Scheme::Base16);
    assert_eq!(base16_themes.len(), 2);
    assert!(base16_themes.iter().any(|t| t.name == "gruvbox"));
    assert!(base16_themes.iter().any(|t| t.name == "solarized"));
    let vogix16_themes = filter_by_scheme(&themes, &Scheme::Vogix16);
    assert_eq!(vogix16_themes.len(), 1);
    assert_eq!(vogix16_themes[0].name, "aikido");
    let ansi16_themes = filter_by_scheme(&themes, &Scheme::Ansi16);
    assert!(ansi16_themes.is_empty());
}

#[test]
fn test_get_theme() {
    let themes = sample_themes();
    let gruvbox = get_theme(&themes, "gruvbox");
    assert!(gruvbox.is_some());
    assert_eq!(gruvbox.unwrap().name, "gruvbox");
    assert!(get_theme(&themes, "nonexistent").is_none());
}

#[test]
fn test_get_theme_returns_clone() {
    let themes = sample_themes();
    let theme1 = get_theme(&themes, "aikido").unwrap();
    let theme2 = get_theme(&themes, "aikido").unwrap();
    assert_eq!(theme1.name, theme2.name);
}

#[test]
fn theme_test_parse_themes_with_variant_details() {
    let manifest = r##"
[themes.aikido]
scheme = "vogix16"
variants = ["night", "day"]
night = { polarity = "dark", order = 1 }
day = { polarity = "light", order = 0 }
"##;
    let themes = parse_themes_from_manifest(manifest).unwrap();
    assert_eq!(themes.len(), 1);
    let aikido = &themes[0];
    assert_eq!(aikido.name, "aikido");
    assert_eq!(aikido.variants.len(), 2);
    let night = get_variant(aikido, "night").unwrap();
    assert_eq!(night.polarity, "dark");
    assert_eq!(night.order, 1);
    let day = get_variant(aikido, "day").unwrap();
    assert_eq!(day.polarity, "light");
    assert_eq!(day.order, 0);
}

#[test]
fn discovery_test_parse_themes_with_variant_details() {
    theme_test_parse_themes_with_variant_details();
}

#[test]
fn test_parse_themes_infers_polarity_from_name() {
    let manifest = "\n[themes.simple]\nscheme = \"base16\"\nvariants = [\"dark\", \"light\"]\n";
    let themes = parse_themes_from_manifest(manifest).unwrap();
    assert_eq!(themes.len(), 1);
    let theme = &themes[0];
    assert_eq!(theme.scheme, Scheme::Base16);
    assert_eq!(get_variant(theme, "dark").unwrap().polarity, "dark");
    assert_eq!(get_variant(theme, "light").unwrap().polarity, "light");
}

#[test]
fn test_parse_themes_with_dawn_latte_variants() {
    let manifest = "\n[themes.catppuccin]\nscheme = \"base24\"\nvariants = [\"mocha\", \"latte\", \"dawn\"]\n";
    let themes = parse_themes_from_manifest(manifest).unwrap();
    let theme = &themes[0];
    assert_eq!(get_variant(theme, "latte").unwrap().polarity, "light");
    assert_eq!(get_variant(theme, "dawn").unwrap().polarity, "light");
    assert_eq!(get_variant(theme, "mocha").unwrap().polarity, "dark");
    assert_eq!(get_variant(theme, "mocha").unwrap().order, 0);
    assert_eq!(get_variant(theme, "dawn").unwrap().order, 2);
}

#[test]
fn discovery_test_parse_invalid_toml() {
    let result = parse_themes_from_manifest("this is not valid toml {{{");
    assert!(result.is_err());
}

#[test]
fn test_parse_empty_themes() {
    let manifest = "\n[default]\ntheme = \"aikido\"\nvariant = \"dark\"\n";
    let themes = parse_themes_from_manifest(manifest).unwrap();
    assert!(themes.is_empty());
}

#[test]
fn parsed_themes_are_sorted_and_need_variants() {
    let manifest = "[themes.zeta]\nvariants = [\"Daylight\"]\n[themes.alpha]\nscheme = \"unknown\"\nvariants = 3\n[themes.detail]\npolarity = \"dark\"\n";
    let themes = parse_themes_from_manifest(manifest).unwrap();
    assert_eq!(themes.len(), 2);
    assert_eq!(themes[0].name, "alpha");
    assert_eq!(themes[0].scheme, Scheme::Vogix16);
    assert_eq!(themes[0].variants.len(), 2);
    assert_eq!(themes[0].variants[0].name, "dark");
    assert_eq!(themes[1].name, "zeta");
    assert_eq!(themes[1].variants[0].polarity, "light");
}

#[test]
fn resolve_variant_by_name_polarity_or_single() {
    let themes = vec![rose_pine(), ThemeInfo { name: "solo".to_string(), scheme: Scheme::Base16, variants: vec![variant("only", "light", 0)] }];
    assert_eq!(resolve_variant(&themes, "rose-pine", "MOON").unwrap(), "moon");
    assert_eq!(resolve_variant(&themes, "rose-pine", "dark").unwrap(), "moon");
    assert_eq!(resolve_variant(&themes, "rose-pine", "light").unwrap(), "dawn");
    assert_eq!(resolve_variant(&themes, "solo", "dark").unwrap(), "only");
    assert!(resolve_variant(&themes, "rose-pine", "sepia").is_err());
    assert!(resolve_variant(&themes, "missing", "dark").is_err());
}

#[test]
fn navigate_variant_finds_the_theme() {
    let themes = vec![rose_pine()];
    assert_eq!(navigate_variant(&themes, "rose-pine", "moon", "darker").unwrap(), "base");
    assert!(navigate_variant(&themes, "other", "moon", "darker").is_err());
}

fn selection(theme: &str, variant: &str) -> vogix::switch::Selection {
    vogix::switch::Selection { scheme: Scheme::Vogix16, theme: theme.to_string(), variant: variant.to_string() }
}

fn request(scheme: Option<Scheme>, theme: Option<&str>, variant: Option<&str>) -> vogix::switch::ThemeRequest {
    vogix::switch::ThemeRequest { scheme, theme: theme.map(str::to_string), variant: variant.map(str::to_string) }
}

#[test]
fn theme_change_keeps_polarity_on_new_theme() {
    let themes = vec![rose_pine(), two_variant_theme()];
    let next = vogix::switch::handle_theme_change(&selection("test", "light"), &request(None, Some("rose-pine"), None), &themes).unwrap();
    assert_eq!(next.theme, "rose-pine");
    assert_eq!(next.variant, "dawn");
    let next = vogix::switch::handle_theme_change(&selection("test", "dark"), &request(None, Some("rose-pine"), None), &themes).unwrap();
    assert_eq!(next.variant, "moon");
}

#[test]
fn theme_change_navigates_and_resolves() {
    let themes = vec![rose_pine()];
    let next = vogix::switch::handle_theme_change(&selection("rose-pine", "dawn"), &request(Some(Scheme::Base16), None, Some("Darker")), &themes).unwrap();
    assert_eq!(next.scheme, Scheme::Base16);
    assert_eq!(next.variant, "moon");
    let next = vogix::switch::handle_theme_change(&selection("rose-pine", "dawn"), &request(None, None, Some("dark")), &themes).unwrap();
    assert_eq!(next.variant, "moon");
    assert!(vogix::switch::handle_theme_change(&selection("rose-pine", "base"), &request(None, None, Some("darker")), &themes).is_err());
}

#[test]
fn theme_change_without_request_keeps_selection() {
    let next = vogix::switch::handle_theme_change(&selection("aikido", "night"), &request(None, Some("aikido"), None), &[]).unwrap();
    assert_eq!(next.theme, "aikido");
    assert_eq!(next.variant, "night");
}
