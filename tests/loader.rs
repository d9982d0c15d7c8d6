use vogix::colors::ColorMap;
use vogix::errors::VogixError;
use vogix::loader::{load_theme_colors, semantic_mappings};
use vogix::scheme::Scheme;

const VOGIX16_THEME: &str = r##"polarity = "dark"

[colors]
base00 = "#262626"
base01 = "#333333"
base02 = "#3b3028"
base03 = "#54433a"
base04 = "#6c5d53"
base05 = "#a29990"
base06 = "#cbc3bc"
base07 = "#f6f5f0"
base08 = "#4d5645"
base09 = "#835538"
base0A = "#bfa46f"
base0B = "#d7503c"
base0C = "#8694a8"
base0D = "#658fbd"
base0E = "#896ea4"
base0F = "#7a5c42"
"##;

const BASE16_THEME: &str = r##"system: "base16"
name: "Test Theme"
variant: "dark"
palette:
  base00: "#1e1e2e"
  base01: "#181825"
  base02: "#313244"
  base03: "#45475a"
  base04: "#585b70"
  base05: "#cdd6f4"
  base06: "#f5e0dc"
  base07: "#b4befe"
  base08: "#f38ba8"
  base09: "#fab387"
  base0A: "#f9e2af"
  base0B: "#a6e3a1"
  base0C: "#94e2d5"
  base0D: "#89b4fa"
  base0E: "#cba6f7"
  base0F: "#f2cdcd"
"##;

const BASE24_THEME: &str = r##"system: "base24"
name: "Test Theme"
variant: "dark"
palette:
  base00: "#1e1e2e"
  base01: "#181825"
  base02: "#313244"
  base03: "#45475a"
  base04: "#585b70"
  base05: "#cdd6f4"
  base06: "#f5e0dc"
  base07: "#b4befe"
  base08: "#f38ba8"
  base09: "#fab387"
  base0A: "#f9e2af"
  base0B: "#a6e3a1"
  base0C: "#94e2d5"
  base0D: "#89b4fa"
  base0E: "#cba6f7"
  base0F: "#f2cdcd"
  base10: "#11111b"
  base11: "#1e1e2e"
  base12: "#f38ba8"
  base13: "#f9e2af"
  base14: "#a6e3a1"
  base15: "#94e2d5"
  base16: "#89b4fa"
  base17: "#cba6f7"
"##;

const ANSI16_THEME: &str = r##"[colors.primary]
background = "#282a36"
foreground = "#f8f8f2"

[colors.cursor]
cursor = "#f8f8f2"
text = "#282a36"

[colors.selection]
background = "#44475a"
text = "#ffffff"

[colors.normal]
black = "#21222c"
red = "#ff5555"
green = "#50fa7b"
yellow = "#f1fa8c"
blue = "#bd93f9"
magenta = "#ff79c6"
cyan = "#8be9fd"
white = "#f8f8f2"

[colors.bright]
black = "#6272a4"
red = "#ff6e6e"
green = "#69ff94"
yellow = "#ffffa5"
blue = "#d6acff"
magenta = "#ff92df"
cyan = "#a4ffff"
white = "#ffffff"
"##;

const ANSI16_PARTIAL: &str = r##"[colors.primary]
background = "#282a36"
foreground = "#f8f8f2"

[colors.normal]
black = "#21222c"
red = "#ff5555"
"##;

fn get(colors: &ColorMap, key: &str) -> Option<String> {
    colors.get(key).cloned()
}

#[test]
fn test_load_vogix16_theme() {
    let colors = load_theme_colors(VOGIX16_THEME, Scheme::Vogix16).unwrap();
    assert_eq!(colors.get("base00"), Some(&"#262626".to_string()));
    assert_eq!(colors.get("base05"), Some(&"#a29990".to_string()));
    assert_eq!(colors.get("base0B"), Some(&"#d7503c".to_string()));
    assert_eq!(colors.get("background"), Some(&"#262626".to_string()));
    assert_eq!(colors.get("foreground_text"), Some(&"#a29990".to_string()));
    assert_eq!(colors.get("danger"), Some(&"#d7503c".to_string()));
    assert_eq!(colors.get("success"), Some(&"#4d5645".to_string()));
}

#[test]
fn test_load_vogix16_colors() {
    let colors = load_theme_colors(VOGIX16_THEME, Scheme::Vogix16).unwrap();
    assert_eq!(colors.get("base00"), Some(&"#262626".to_string()));
    assert_eq!(colors.get("base0F"), Some(&"#7a5c42".to_string()));
    assert_eq!(colors.get("background"), Some(&"#262626".to_string()));
    assert_eq!(colors.get("foreground_text"), Some(&"#a29990".to_string()));
    assert_eq!(colors.get("danger"), Some(&"#d7503c".to_string()));
}

#[test]
fn complete_native_palette_has_32_keys_and_aliases_match() {
    let colors = load_theme_colors(VOGIX16_THEME, Scheme::Vogix16).unwrap();
    assert_eq!(colors.len(), 32);
    for (raw, alias) in semantic_mappings() {
        assert_eq!(get(&colors, raw), get(&colors, alias));
        assert!(colors.contains_key(alias));
    }
}

#[test]
fn native_palette_missing_raw_key_has_no_alias() {
    let content = "[colors]\nbase00 = \"#101010\"\nbase0D = \"#ABCDEF\"\n";
    let colors = load_theme_colors(content, Scheme::Vogix16).unwrap();
    assert_eq!(colors.len(), 4);
    assert_eq!(get(&colors, "background"), Some("#101010".to_string()));
    assert_eq!(get(&colors, "link"), Some("#ABCDEF".to_string()));
    assert_eq!(get(&colors, "danger"), None);
}

#[test]
fn native_palette_without_colors_table_is_rejected() {
    let result = load_theme_colors("polarity = \"dark\"\n", Scheme::Vogix16);
    assert!(matches!(result, Err(VogixError::TomlParse)));
}

#[test]
fn native_palette_with_non_string_colour_is_rejected() {
    let result = load_theme_colors("[colors]\nbase00 = 5\n", Scheme::Vogix16);
    assert!(matches!(result, Err(VogixError::TomlParse)));
}

#[test]
fn test_semantic_mappings_count() {
    assert_eq!(semantic_mappings().len(), 16);
}

#[test]
fn test_load_base16_theme() {
    let colors = load_theme_colors(BASE16_THEME, Scheme::Base16).unwrap();
    assert_eq!(colors.get("base00"), Some(&"#1e1e2e".to_string()));
    assert_eq!(colors.get("base05"), Some(&"#cdd6f4".to_string()));
    assert_eq!(colors.get("base08"), Some(&"#f38ba8".to_string()));
    assert_eq!(colors.get("base0D"), Some(&"#89b4fa".to_string()));
}

#[test]
fn test_load_base16_colors() {
    let colors = load_theme_colors(BASE16_THEME, Scheme::Base16).unwrap();
    assert_eq!(colors.get("base00"), Some(&"#1e1e2e".to_string()));
    assert_eq!(colors.get("base0F"), Some(&"#f2cdcd".to_string()));
    assert_eq!(colors.len(), 16);
}

#[test]
fn base16_palette_has_no_aliases() {
    let colors = load_theme_colors(BASE16_THEME, Scheme::Base16).unwrap();
    assert!(!colors.contains_key("background"));
    assert!(!colors.contains_key("danger"));
}

#[test]
fn test_load_base24_theme() {
    let colors = load_theme_colors(BASE24_THEME, Scheme::Base24).unwrap();
    assert_eq!(colors.get("base00"), Some(&"#1e1e2e".to_string()));
    assert_eq!(colors.get("base10"), Some(&"#11111b".to_string()));
    assert_eq!(colors.get("base17"), Some(&"#cba6f7".to_string()));
}

#[test]
fn test_load_base24_colors() {
    let colors = load_theme_colors(BASE24_THEME, Scheme::Base24).unwrap();
    assert_eq!(colors.get("base00"), Some(&"#1e1e2e".to_string()));
    assert_eq!(colors.get("base0F"), Some(&"#f2cdcd".to_string()));
    assert_eq!(colors.get("base10"), Some(&"#11111b".to_string()));
    assert_eq!(colors.get("base17"), Some(&"#cba6f7".to_string()));
    assert_eq!(colors.len(), 24);
}

#[test]
fn test_load_minimal() {
    let content = "palette:\n  base00: \"#000000\"\n";
    let colors = load_theme_colors(content, Scheme::Base16).unwrap();
    assert_eq!(colors.get("base00"), Some(&"#000000".to_string()));
}

#[test]
fn test_load_invalid_yaml() {
    let result = load_theme_colors("not: valid: yaml: {{", Scheme::Base16);
    assert!(result.is_err());
}

#[test]
fn test_load_invalid_base16_theme() {
    let result = load_theme_colors("this: is: not: valid: yaml: {{{{", Scheme::Base16);
    assert!(matches!(result, Err(VogixError::YamlParse)));
}

#[test]
fn test_load_invalid_vogix16_theme() {
    let result = load_theme_colors("this is not valid toml {{{{", Scheme::Vogix16);
    assert!(matches!(result, Err(VogixError::TomlParse)));
}

#[test]
fn vogix16_test_load_invalid_toml() {
    let result = load_theme_colors("not valid toml {{", Scheme::Vogix16);
    assert!(result.is_err());
}

#[test]
fn ansi16_test_load_invalid_toml() {
    let result = load_theme_colors("not valid toml {{", Scheme::Ansi16);
    assert!(result.is_err());
}

#[test]
fn test_load_ansi16_theme() {
    let colors = load_theme_colors(ANSI16_THEME, Scheme::Ansi16).unwrap();
    assert_eq!(colors.get("background"), Some(&"#282a36".to_string()));
    assert_eq!(colors.get("foreground"), Some(&"#f8f8f2".to_string()));
    assert_eq!(colors.get("cursor_bg"), Some(&"#f8f8f2".to_string()));
    assert_eq!(colors.get("cursor_fg"), Some(&"#282a36".to_string()));
    assert_eq!(colors.get("selection_bg"), Some(&"#44475a".to_string()));
    assert_eq!(colors.get("selection_fg"), Some(&"#ffffff".to_string()));
    assert_eq!(colors.get("color00"), Some(&"#21222c".to_string()));
    assert_eq!(colors.get("color01"), Some(&"#ff5555".to_string()));
    assert_eq!(colors.get("color02"), Some(&"#50fa7b".to_string()));
    assert_eq!(colors.get("color07"), Some(&"#f8f8f2".to_string()));
    assert_eq!(colors.get("color08"), Some(&"#6272a4".to_string()));
    assert_eq!(colors.get("color09"), Some(&"#ff6e6e".to_string()));
    assert_eq!(colors.get("color15"), Some(&"#ffffff".to_string()));
}

#[test]
fn test_load_full_theme() {
    let colors = load_theme_colors(ANSI16_THEME, Scheme::Ansi16).unwrap();
    assert_eq!(colors.get("background"), Some(&"#282a36".to_string()));
    assert_eq!(colors.get("foreground"), Some(&"#f8f8f2".to_string()));
    assert_eq!(colors.get("cursor_bg"), Some(&"#f8f8f2".to_string()));
    assert_eq!(colors.get("cursor_fg"), Some(&"#282a36".to_string()));
    assert_eq!(colors.get("selection_bg"), Some(&"#44475a".to_string()));
    assert_eq!(colors.get("selection_fg"), Some(&"#ffffff".to_string()));
    assert_eq!(colors.get("color00"), Some(&"#21222c".to_string()));
    assert_eq!(colors.get("color07"), Some(&"#f8f8f2".to_string()));
    assert_eq!(colors.get("color08"), Some(&"#6272a4".to_string()));
    assert_eq!(colors.get("color15"), Some(&"#ffffff".to_string()));
    assert_eq!(colors.len(), 22);
}

#[test]
fn test_load_ansi16_partial_colors() {
    let colors = load_theme_colors(ANSI16_PARTIAL, Scheme::Ansi16).unwrap();
    assert_eq!(colors.get("background"), Some(&"#282a36".to_string()));
    assert_eq!(colors.get("color00"), Some(&"#21222c".to_string()));
    assert_eq!(colors.get("color01"), Some(&"#ff5555".to_string()));
    assert!(colors.get("color02").is_none());
    assert!(colors.get("cursor_bg").is_none());
}

#[test]
fn test_load_partial_theme() {
    let colors = load_theme_colors(ANSI16_PARTIAL, Scheme::Ansi16).unwrap();
    assert_eq!(colors.get("background"), Some(&"#282a36".to_string()));
    assert_eq!(colors.get("color00"), Some(&"#21222c".to_string()));
    assert_eq!(colors.get("color01"), Some(&"#ff5555".to_string()));
    assert!(colors.get("color02").is_none());
    assert!(colors.get("cursor_bg").is_none());
}

#[test]
fn ansi16_missing_sections_are_omitted() {
    let colors = load_theme_colors(ANSI16_PARTIAL, Scheme::Ansi16).unwrap();
    assert_eq!(colors.len(), 4);
    for key in ["cursor_bg", "cursor_fg", "selection_bg", "selection_fg", "color08", "color15"] {
        assert!(!colors.contains_key(key));
    }
}

#[test]
fn ansi16_section_of_wrong_kind_is_rejected() {
    let result = load_theme_colors("[colors]\nprimary = \"#000000\"\n", Scheme::Ansi16);
    assert!(matches!(result, Err(VogixError::TomlParse)));
}

#[test]
fn ansi16_without_colors_is_rejected() {
    let result = load_theme_colors("[primary]\nbackground = \"#000000\"\n", Scheme::Ansi16);
    assert!(matches!(result, Err(VogixError::TomlParse)));
}

#[test]
fn color_values_keep_their_case() {
    let colors = load_theme_colors("[colors]\nbase00 = \"#AbCdEf\"\n", Scheme::Vogix16).unwrap();
    assert_eq!(get(&colors, "background"), Some("#AbCdEf".to_string()));
}

#[test]
fn color_map_insert_replaces() {
    let mut m = ColorMap::new();
    assert!(m.is_empty());
    m.insert("a".to_string(), "1".to_string());
    m.insert("b".to_string(), "2".to_string());
    m.insert("a".to_string(), "3".to_string());
    assert_eq!(m.len(), 2);
    assert_eq!(get(&m, "a"), Some("3".to_string()));
}

#[test]
fn native_palette_with_extra_keys_keeps_alias_values() {
    let content = format!("{}extra = \"#123456\"\n", VOGIX16_THEME);
    let colors = load_theme_colors(&content, Scheme::Vogix16).unwrap();
    assert_eq!(colors.len(), 33);
    assert_eq!(get(&colors, "special"), Some("#7a5c42".to_string()));
    assert_eq!(get(&colors, "extra"), Some("#123456".to_string()));
}

#[test]
fn ansi16_fields_of_present_sections_all_appear() {
    let content = "[colors.cursor]\ncursor = \"#111111\"\n[colors.bright]\nwhite = \"#eeeeee\"\n";
    let colors = load_theme_colors(content, Scheme::Ansi16).unwrap();
    assert_eq!(colors.len(), 2);
    assert_eq!(get(&colors, "cursor_bg"), Some("#111111".to_string()));
    assert_eq!(get(&colors, "color15"), Some("#eeeeee".to_string()));
}
