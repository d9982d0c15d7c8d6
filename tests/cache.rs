use vogix::cache::{template_output_name, theme_source_path, theme_variant_path, variant_cache_path, CacheStep, ThemeCache};
use vogix::config::{Config, TemplatesConfig, ThemeSourcesConfig};
use vogix::errors::VogixError;
use vogix::scheme::Scheme;
use std::path::PathBuf;

const TEST_THEME_TOML: &str = r##"polarity = "dark"

[colors]
base00 = "#000000"
base01 = "#111111"
base02 = "#222222"
base03 = "#333333"
base04 = "#444444"
base05 = "#555555"
base06 = "#666666"
base07 = "#777777"
base08 = "#ff0000"
base09 = "#ff8800"
base0A = "#ffff00"
base0B = "#00ff00"
base0C = "#00ffff"
base0D = "#0000ff"
base0E = "#ff00ff"
base0F = "#888888"
"##;

fn sources(root: &str) -> ThemeSourcesConfig {
    ThemeSourcesConfig {
        vogix16: root.to_string(),
        base16: root.to_string(),
        base24: root.to_string(),
        ansi16: root.to_string(),
    }
}

fn create_test_config() -> Config {
    let mut config = Config::default();
    config.default_theme = "test-theme".to_string();
    config.templates = Some(TemplatesConfig { path: "/tmp/t/templates".to_string(), hash: "test-hash-123".to_string() });
    config.theme_sources = Some(sources("/tmp/t/themes"));
    config
}

fn create_test_cache() -> ThemeCache {
    ThemeCache::from_config_with_cache_dir(&create_test_config(), "/tmp/t/cache/vogix/themes".to_string()).unwrap()
}

fn simple_templates() -> Vec<(String, String)> {
    vec![("test.toml.vogix".to_string(), "background = \"{{ colors.background }}\"".to_string())]
}

fn multi_templates() -> Vec<(String, String)> {
    vec![
        (
            "alacritty.toml.vogix".to_string(),
            "[colors.primary]\nbackground = \"{{ colors.background }}\"\nforeground = \"{{ colors.foreground_text }}\"\n\n[colors.normal]\nred = \"{{ colors.danger }}\"\ngreen = \"{{ colors.success }}\"\n".to_string(),
        ),
        (
            "btop.theme.vogix".to_string(),
            "theme[main_bg]=\"{{ colors.background }}\"\ntheme[main_fg]=\"{{ colors.foreground_text }}\"\ntheme[temp_end]=\"{{ colors.danger }}\"\n".to_string(),
        ),
        (
            "ripgrep.conf.vogix".to_string(),
            "--colors=path:fg:{{ colors.foreground_text | hex_to_rgb }}\n--colors=match:fg:{{ colors.active | hex_to_rgb }}\n".to_string(),
        ),
        ("README.md".to_string(), "not a template {{".to_string()),
    ]
}

fn file<'a>(files: &'a [(String, String)], name: &str) -> Option<&'a String> {
    files.iter().find(|(n, _)| n == name).map(|(_, t)| t)
}

#[test]
fn test_variant_cache_path_structure() {
    let path = variant_cache_path("/cache", "abc123", &Scheme::Vogix16, "aikido", "night");
    assert_eq!(PathBuf::from(path), PathBuf::from("/cache/abc123/vogix16/aikido/night"));
}

#[test]
fn test_theme_source_path_vogix16() {
    let sources = ThemeSourcesConfig {
        vogix16: "/themes/vogix16".to_string(),
        base16: "/themes/base16".to_string(),
        base24: "/themes/base24".to_string(),
        ansi16: "/themes/ansi16".to_string(),
    };
    assert_eq!(PathBuf::from(theme_source_path(&sources, &Scheme::Vogix16)), PathBuf::from("/themes/vogix16"));
}

#[test]
fn test_theme_variant_path_toml_extension() {
    let sources = ThemeSourcesConfig {
        vogix16: "/themes/vogix16".to_string(),
        base16: "/themes/base16".to_string(),
        base24: "/themes/base24".to_string(),
        ansi16: "/themes/ansi16".to_string(),
    };
    let path = theme_variant_path(&sources, &Scheme::Vogix16, "aikido", "night");
    assert_eq!(PathBuf::from(path), PathBuf::from("/themes/vogix16/aikido/night.toml"));
}

#[test]
fn test_theme_variant_path_yaml_extension() {
    let sources = ThemeSourcesConfig {
        vogix16: "/themes/vogix16".to_string(),
        base16: "/themes/base16".to_string(),
        base24: "/themes/base24".to_string(),
        ansi16: "/themes/ansi16".to_string(),
    };
    let path = theme_variant_path(&sources, &Scheme::Base16, "dracula", "default");
    assert_eq!(PathBuf::from(path), PathBuf::from("/themes/base16/dracula/default.yaml"));
}

#[test]
fn paths_join_like_path_join() {
    assert_eq!(variant_cache_path("/cache/", "h", &Scheme::Ansi16, "t", "v"), "/cache/h/ansi16/t/v");
    assert_eq!(variant_cache_path("", "h", &Scheme::Base24, "t", "v"), "h/base24/t/v");
}

#[test]
fn test_variant_cache_path() {
    let config = create_test_config();
    let cache = ThemeCache::from_config_with_cache_dir(&config, "/x/cache".to_string()).unwrap();
    let path = cache.variant_cache_path(&Scheme::Vogix16, "aikido", "night");
    assert!(path.contains("test-hash-123"));
    assert!(path.contains("vogix16"));
    assert!(path.contains("aikido"));
    assert!(path.contains("night"));
    assert_eq!(path, "/x/cache/test-hash-123/vogix16/aikido/night");
}

#[test]
fn test_from_config_fails_without_templates() {
    let config = Config::default();
    let result = ThemeCache::from_config(&config);
    assert!(result.is_err());
}

#[test]
fn from_config_without_sources_fails() {
    let mut config = create_test_config();
    config.theme_sources = None;
    let result = ThemeCache::from_config_with_cache_dir(&config, "/c".to_string());
    assert!(matches!(result, Err(VogixError::Config(_))));
}

#[test]
fn template_marker_is_stripped() {
    assert_eq!(template_output_name("test.toml.vogix"), Some("test.toml".to_string()));
    assert_eq!(template_output_name("btop.theme.vogix"), Some("btop.theme".to_string()));
    assert_eq!(template_output_name(".vogix"), None);
    assert_eq!(template_output_name("notes.txt"), None);
    assert_eq!(template_output_name("x.vogixx"), None);
}

#[test]
fn test_render_variant_creates_output_file() {
    let cache = create_test_cache();
    let (path, files) = cache.render_variant(&Scheme::Vogix16, "test-theme", "dark", TEST_THEME_TOML, &simple_templates()).unwrap();
    assert_eq!(path, cache.variant_cache_path(&Scheme::Vogix16, "test-theme", "dark"));
    assert!(file(&files, "test.toml").is_some());
}

#[test]
fn test_render_variant_substitutes_colors() {
    let cache = create_test_cache();
    let (_, files) = cache.render_variant(&Scheme::Vogix16, "test-theme", "dark", TEST_THEME_TOML, &simple_templates()).unwrap();
    assert_eq!(file(&files, "test.toml").unwrap(), "background = \"#000000\"");
}

#[test]
fn test_render_to_cache_substitutes_colors() {
    let files = vogix::cache::render_variant_files(&Scheme::Vogix16, TEST_THEME_TOML, &simple_templates()).unwrap();
    assert_eq!(files, vec![("test.toml".to_string(), "background = \"#000000\"".to_string())]);
}

#[test]
fn end_to_end_native_palette_render() {
    let palette = "[colors]\nbase00 = \"#000000\"\n";
    let files = vogix::cache::render_variant_files(&Scheme::Vogix16, palette, &simple_templates()).unwrap();
    assert_eq!(files, vec![("test.toml".to_string(), "background = \"#000000\"".to_string())]);
}

#[test]
fn test_render_variant_multiple_templates() {
    let cache = create_test_cache();
    let (_, files) = cache.render_variant(&Scheme::Vogix16, "test-theme", "dark", TEST_THEME_TOML, &multi_templates()).unwrap();
    assert!(file(&files, "alacritty.toml").is_some());
    assert!(file(&files, "btop.theme").is_some());
    assert!(file(&files, "ripgrep.conf").is_some());
    assert_eq!(files.len(), 3);
}

#[test]
fn test_render_variant_alacritty_content() {
    let cache = create_test_cache();
    let (_, files) = cache.render_variant(&Scheme::Vogix16, "test-theme", "dark", TEST_THEME_TOML, &multi_templates()).unwrap();
    let content = file(&files, "alacritty.toml").unwrap();
    assert!(content.contains("background = \"#000000\""));
    assert!(content.contains("foreground = \"#555555\""));
    assert!(content.contains("red = \"#00ff00\""));
    assert!(content.contains("green = \"#ff0000\""));
}

#[test]
fn test_render_variant_btop_content() {
    let cache = create_test_cache();
    let (_, files) = cache.render_variant(&Scheme::Vogix16, "test-theme", "dark", TEST_THEME_TOML, &multi_templates()).unwrap();
    let content = file(&files, "btop.theme").unwrap();
    assert!(content.contains("theme[main_bg]=\"#000000\""));
    assert!(content.contains("theme[main_fg]=\"#555555\""));
    assert!(content.contains("theme[temp_end]=\"#00ff00\""));
}

#[test]
fn test_render_variant_ripgrep_with_hex_to_rgb_filter() {
    let cache = create_test_cache();
    let (_, files) = cache.render_variant(&Scheme::Vogix16, "test-theme", "dark", TEST_THEME_TOML, &multi_templates()).unwrap();
    let content = file(&files, "ripgrep.conf").unwrap();
    assert!(content.contains("--colors=path:fg:0x55,0x55,0x55"));
    assert!(content.contains("--colors=match:fg:0x00,0xff,0xff"));
}

#[test]
fn render_variant_stops_at_first_failing_template() {
    let cache = create_test_cache();
    let templates = vec![
        ("a.vogix".to_string(), "{{ colors.missing }}".to_string()),
        ("b.vogix".to_string(), "{{ colors.base00 }".to_string()),
    ];
    let result = cache.render_variant(&Scheme::Vogix16, "t", "v", TEST_THEME_TOML, &templates);
    assert!(matches!(result, Err(VogixError::Template(vogix::errors::TemplateError::UndefinedVariable(_)))));
}

#[test]
fn render_variant_with_bad_palette_fails_to_parse() {
    let cache = create_test_cache();
    let result = cache.render_variant(&Scheme::Base16, "t", "v", "not: valid: yaml: {{", &simple_templates());
    assert!(matches!(result, Err(VogixError::YamlParse)));
}

#[test]
fn test_render_variant_uses_cache() {
    let cache = create_test_cache();
    match cache.get_or_render(&Scheme::Vogix16, "test-theme", "dark", true) {
        CacheStep::Hit { path } => assert_eq!(path, cache.variant_cache_path(&Scheme::Vogix16, "test-theme", "dark")),
        other => panic!("expected a hit, got {:?}", other),
    }
}

#[test]
fn test_get_or_render_returns_same_as_render_variant() {
    let cache = create_test_cache();
    let first = match cache.get_or_render(&Scheme::Vogix16, "test-theme", "dark", false) {
        CacheStep::Render { path, source, templates_dir } => {
            assert_eq!(source, "/tmp/t/themes/test-theme/dark.toml");
            assert_eq!(templates_dir, "/tmp/t/templates/vogix16");
            path
        },
        other => panic!("expected a render, got {:?}", other),
    };
    let (rendered_path, _) = cache.render_variant(&Scheme::Vogix16, "test-theme", "dark", TEST_THEME_TOML, &simple_templates()).unwrap();
    assert_eq!(first, rendered_path);
    match cache.get_or_render(&Scheme::Vogix16, "test-theme", "dark", true) {
        CacheStep::Hit { path } => assert_eq!(path, first),
        other => panic!("expected a hit, got {:?}", other),
    }
}

#[test]
fn test_clean_stale_removes_old_hashes() {
    let cache = create_test_cache();
    let removed = cache.clean_stale(&vec!["old-hash-999".to_string()]);
    assert_eq!(removed, vec!["old-hash-999".to_string()]);
    assert_eq!(removed.len(), 1);
}

#[test]
fn test_clean_stale_keeps_current_hash() {
    let cache = create_test_cache();
    let (path, _) = cache.render_variant(&Scheme::Vogix16, "test-theme", "dark", TEST_THEME_TOML, &simple_templates()).unwrap();
    assert!(path.contains("test-hash-123"));
    let removed = cache.clean_stale(&vec!["test-hash-123".to_string()]);
    assert_eq!(removed.len(), 0);
    assert!(!removed.contains(&"test-hash-123".to_string()));
}

#[test]
fn clean_stale_removes_every_stale_partition_and_keeps_current() {
    let cache = create_test_cache();
    let removed = cache.clean_stale(&vec!["a".to_string(), "test-hash-123".to_string(), "b".to_string(), "c".to_string()]);
    assert_eq!(removed, vec!["a".to_string(), "b".to_string(), "c".to_string()]);
    assert!(!removed.contains(&"test-hash-123".to_string()));
}

#[test]
fn clean_stale_with_nothing_stale() {
    let cache = create_test_cache();
    assert!(cache.clean_stale(&vec![]).is_empty());
}
