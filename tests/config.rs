use vogix::config::{AppMetadata, Config};
use vogix::errors::VogixError;
use vogix::tree::Tree;

fn text(s: &str) -> Tree {
    Tree::Text(s.to_string())
}

fn table(entries: Vec<(&str, Tree)>) -> Tree {
    Tree::Table(entries.into_iter().map(|(k, v)| (Some(k.to_string()), v)).collect())
}

fn defaults() -> Tree {
    table(vec![("theme", text("aikido")), ("variant", text("dark"))])
}

fn app<'a>(apps: &'a [(String, AppMetadata)], name: &str) -> Option<&'a AppMetadata> {
    apps.iter().find(|(n, _)| n == name).map(|(_, a)| a)
}

#[test]
fn config_test_default_config() {
    let config = Config::default();
    assert_eq!(config.default_theme, "aikido");
    assert_eq!(config.default_variant, "dark");
}

#[test]
fn tests_test_default_config() {
    let config = Config::default();
    assert_eq!(config.default_theme, "aikido");
    assert_eq!(config.default_variant, "dark");
}

#[test]
fn test_default_config_has_no_templates() {
    let config = Config::default();
    assert!(config.templates.is_none());
    assert!(config.theme_sources.is_none());
}

#[test]
fn test_parse_valid_manifest() {
    let manifest = r##"
[default]
theme = "nordic"
variant = "light"

[apps.alacritty]
config_path = "/home/user/.config/alacritty/alacritty.toml"
reload_method = "touch"

[apps.btop]
config_path = "/home/user/.config/btop/btop.conf"
reload_method = "signal"
reload_signal = "USR1"
process_name = "btop"
"##;
    let config = Config::from_manifest(manifest).unwrap();
    assert_eq!(config.default_theme, "nordic");
    assert_eq!(config.default_variant, "light");
    assert!(app(&config.apps, "alacritty").is_some());
    assert!(app(&config.apps, "btop").is_some());
}

#[test]
fn test_parse_manifest_with_missing_defaults() {
    let manifest = r##"
[apps.alacritty]
config_path = "/home/user/.config/alacritty/alacritty.toml"
reload_method = "touch"
"##;
    let config = Config::from_manifest(manifest).unwrap();
    assert_eq!(config.default_theme, "aikido");
    assert_eq!(config.default_variant, "dark");
}

#[test]
fn tests_test_parse_invalid_toml() {
    let result = Config::from_manifest("this is not valid toml {{{");
    assert!(matches!(result, Err(VogixError::TomlParse)));
}

#[test]
fn test_parse_templates_config() {
    let doc = table(vec![
        ("default", defaults()),
        ("templates", table(vec![("path", text("/nix/store/abc123-vogix-templates")), ("hash", text("sha256-abcdef123456"))])),
    ]);
    let templates = Config::parse_templates(&doc);
    assert!(templates.is_some());
    let templates = templates.unwrap();
    assert_eq!(templates.path, "/nix/store/abc123-vogix-templates");
    assert_eq!(templates.hash, "sha256-abcdef123456");
}

#[test]
fn test_parse_theme_sources_config() {
    let doc = table(vec![
        ("default", defaults()),
        (
            "theme_sources",
            table(vec![
                ("vogix16", text("/nix/store/vogix16-themes")),
                ("base16", text("/nix/store/tinted-schemes/base16")),
                ("base24", text("/nix/store/tinted-schemes/base24")),
                ("ansi16", text("/nix/store/iterm2-schemes/ansi16")),
            ]),
        ),
    ]);
    let theme_sources = Config::parse_theme_sources(&doc);
    assert!(theme_sources.is_some());
    let theme_sources = theme_sources.unwrap();
    assert_eq!(theme_sources.vogix16, "/nix/store/vogix16-themes");
    assert_eq!(theme_sources.base16, "/nix/store/tinted-schemes/base16");
}

#[test]
fn theme_sources_need_all_four() {
    let doc = table(vec![("theme_sources", table(vec![("vogix16", text("/a")), ("base16", text("/b"))]))]);
    assert!(Config::parse_theme_sources(&doc).is_none());
    let doc = table(vec![("templates", table(vec![("path", text("/a"))]))]);
    assert!(Config::parse_templates(&doc).is_none());
    let doc = table(vec![("templates", table(vec![("path", text("/a")), ("hash", Tree::Integer(3))]))]);
    assert!(Config::parse_templates(&doc).is_none());
}

#[test]
fn test_parse_apps() {
    let manifest = r##"
[apps.alacritty]
config_path = "/home/user/.config/alacritty/alacritty.toml"
reload_method = "touch"

[apps.btop]
config_path = "/home/user/.config/btop/btop.conf"
reload_method = "signal"
reload_signal = "USR1"
process_name = "btop"

[apps.polybar]
config_path = "/home/user/.config/polybar/config.ini"
reload_method = "command"
reload_command = "polybar-msg cmd restart"
"##;
    let apps = Config::from_manifest(manifest).unwrap().apps;
    assert_eq!(apps.len(), 3);
    let alacritty = app(&apps, "alacritty").unwrap();
    assert_eq!(alacritty.reload_method, "touch");
    assert!(alacritty.reload_signal.is_none());
    let btop = app(&apps, "btop").unwrap();
    assert_eq!(btop.reload_method, "signal");
    assert_eq!(btop.reload_signal.as_deref(), Some("USR1"));
    assert_eq!(btop.process_name.as_deref(), Some("btop"));
    let polybar = app(&apps, "polybar").unwrap();
    assert_eq!(polybar.reload_method, "command");
    assert_eq!(polybar.reload_command.as_deref(), Some("polybar-msg cmd restart"));
}

#[test]
fn apps_missing_required_fields_are_skipped() {
    let doc = table(vec![(
        "apps",
        table(vec![
            ("x", table(vec![("reload_method", text("touch"))])),
            ("y", table(vec![("config_path", text("/c")), ("reload_method", text("none"))])),
        ]),
    )]);
    let apps = Config::parse_apps(&doc);
    assert_eq!(apps.len(), 1);
    assert_eq!(apps[0].0, "y");
}
