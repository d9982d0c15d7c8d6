//! Configuration: where templates and palette sources live, and how each
//! themed application is reloaded, read from a TOML manifest.

use vstd::prelude::*;
use crate::errors::VogixError;
use crate::tree::{Tree, field, text_field, get_field, get_text, parse_toml, toml_document};
use crate::text::owned;

verus! {

/// Where the templates live and the fingerprint of that template bundle.
#[derive(Debug, Clone)]
pub struct TemplatesConfig {
    pub path: String,
    pub hash: String,
}

/// The palette source directory of each scheme.
#[derive(Debug, Clone)]
pub struct ThemeSourcesConfig {
    pub vogix16: String,
    pub base16: String,
    pub base24: String,
    pub ansi16: String,
}

/// How an application is told to pick up a new theme.
#[derive(Debug, Clone)]
pub struct AppMetadata {
    pub config_path: String,
    pub reload_method: String,
    pub reload_signal: Option<String>,
    pub process_name: Option<String>,
    pub reload_command: Option<String>,
}

/// The configuration of one user.
#[derive(Debug, Clone)]
pub struct Config {
    pub default_theme: String,
    pub default_variant: String,
    pub apps: Vec<(String, AppMetadata)>,
    pub templates: Option<TemplatesConfig>,
    pub theme_sources: Option<ThemeSourcesConfig>,
}

/// Plain view of an optional string.
pub open spec fn opt_view(o: Option<String>) -> Option<Seq<char>> {
    match o {
        Some(s) => Some(s@),
        None => None,
    }
}

/// The `[templates]` section: `path` and `hash`, both strings.
pub open spec fn templates_of(doc: Tree) -> Option<(Seq<char>, Seq<char>)> {
    match field(doc, "templates"@) {
        Some(t) => if t is Table && text_field(t, "path"@) is Some && text_field(t, "hash"@) is Some {
            Some((text_field(t, "path"@)->Some_0, text_field(t, "hash"@)->Some_0))
        } else {
            None
        },
        None => None,
    }
}

/// The `[theme_sources]` section: a directory for each of the four schemes.
pub open spec fn sources_of(doc: Tree) -> Option<(Seq<char>, Seq<char>, Seq<char>, Seq<char>)> {
    match field(doc, "theme_sources"@) {
        Some(t) => if text_field(t, "vogix16"@) is Some && text_field(t, "base16"@) is Some
            && text_field(t, "base24"@) is Some && text_field(t, "ansi16"@) is Some {
            Some((text_field(t, "vogix16"@)->Some_0, text_field(t, "base16"@)->Some_0,
                text_field(t, "base24"@)->Some_0, text_field(t, "ansi16"@)->Some_0))
        } else {
            None
        },
        None => None,
    }
}

/// An application entry: `config_path` and `reload_method` are required
/// strings, the other three optional strings.
pub open spec fn app_of(t: Tree) -> Option<(Seq<char>, Seq<char>, Option<Seq<char>>, Option<Seq<char>>, Option<Seq<char>>)> {
    if text_field(t, "config_path"@) is Some && text_field(t, "reload_method"@) is Some {
        Some((text_field(t, "config_path"@)->Some_0, text_field(t, "reload_method"@)->Some_0,
            text_field(t, "reload_signal"@), text_field(t, "process_name"@), text_field(t, "reload_command"@)))
    } else {
        None
    }
}

impl AppMetadata {
    pub open spec fn view_tuple(&self) -> (Seq<char>, Seq<char>, Option<Seq<char>>, Option<Seq<char>>, Option<Seq<char>>) {
        (self.config_path@, self.reload_method@, opt_view(self.reload_signal), opt_view(self.process_name), opt_view(self.reload_command))
    }
}

/// The applications of an `[apps]` table, in order: every entry with a
/// string name whose fields make an application.
pub open spec fn apps_of(es: Seq<(Option<String>, Tree)>) -> Seq<(Seq<char>, (Seq<char>, Seq<char>, Option<Seq<char>>, Option<Seq<char>>, Option<Seq<char>>))>
    decreases es.len(),
{
    if es.len() == 0 {
        Seq::empty()
    } else {
        let s = apps_of(es.drop_last());
        match (es.last().0, app_of(es.last().1)) {
            (Some(name), Some(a)) => s.push((name@, a)),
            _ => s,
        }
    }
}

fn text_copy(t: &Tree, key: &str) -> (r: Option<String>)
    ensures
        opt_view(r) == text_field(*t, key@),
{
    match get_text(t, key) {
        Some(s) => Some(owned(s.as_str())),
        None => None,
    }
}

impl Config {
    /// The applications of the manifest's `[apps]` table.
    pub fn parse_apps(manifest: &Tree) -> (r: Vec<(String, AppMetadata)>)
        ensures
            match field(*manifest, "apps"@) {
                Some(Tree::Table(es)) => r@.len() == apps_of(es@).len() && forall|i: int| 0 <= i < r@.len() ==>
                    (#[trigger] r@[i]).0@ == apps_of(es@)[i].0 && r@[i].1.view_tuple() == apps_of(es@)[i].1,
                _ => r@.len() == 0,
            },
    {
        let mut r: Vec<(String, AppMetadata)> = Vec::new();
        match get_field(manifest, "apps") {
            Some(Tree::Table(es)) => {
                let mut i: usize = 0;
                while i < es.len()
                    invariant
                        i <= es@.len(),
                        r@.len() == apps_of(es@.subrange(0, i as int)).len(),
                        forall|j: int| 0 <= j < r@.len() ==> (#[trigger] r@[j]).0@ == apps_of(es@.subrange(0, i as int))[j].0
                            && r@[j].1.view_tuple() == apps_of(es@.subrange(0, i as int))[j].1,
                    decreases es.len() - i,
                {
                    assert(es@.subrange(0, i + 1).drop_last() =~= es@.subrange(0, i as int));
                    let ghost before = apps_of(es@.subrange(0, i as int));
                    let (name, t) = (&es[i].0, &es[i].1);
                    match (name, get_text(t, "config_path"), get_text(t, "reload_method")) {
                        (Some(n), Some(cp), Some(rm)) => {
                            let app = AppMetadata {
                                config_path: owned(cp.as_str()),
                                reload_method: owned(rm.as_str()),
                                reload_signal: text_copy(t, "reload_signal"),
                                process_name: text_copy(t, "process_name"),
                                reload_command: text_copy(t, "reload_command"),
                            };
                            r.push((owned(n.as_str()), app));
                        },
                        _ => {},
                    }
                    i = i + 1;
                    assert forall|j: int| 0 <= j < r@.len() implies (#[trigger] r@[j]).0@ == apps_of(es@.subrange(0, i as int))[j].0
                        && r@[j].1.view_tuple() == apps_of(es@.subrange(0, i as int))[j].1 by {
                        if j < before.len() {
                        }
                    }
                }
                assert(es@.subrange(0, es@.len() as int) =~= es@);
            },
            _ => {},
        }
        r
    }

    /// The manifest's `[templates]` section.
    pub fn parse_templates(manifest: &Tree) -> (r: Option<TemplatesConfig>)
        ensures
            match templates_of(*manifest) {
                Some((p, h)) => r matches Some(t) && t.path@ == p && t.hash@ == h,
                None => r is None,
            },
    {
        match get_field(manifest, "templates") {
            Some(t) => {
                match t {
                    Tree::Table(_) => {},
                    _ => {
                        return None;
                    },
                }
                match (get_text(t, "path"), get_text(t, "hash")) {
                    (Some(p), Some(h)) => Some(TemplatesConfig { path: owned(p.as_str()), hash: owned(h.as_str()) }),
                    _ => None,
                }
            },
            None => None,
        }
    }

    /// The manifest's `[theme_sources]` section.
    pub fn parse_theme_sources(manifest: &Tree) -> (r: Option<ThemeSourcesConfig>)
        ensures
            match sources_of(*manifest) {
                Some((v, b16, b24, a)) => r matches Some(t) && t.vogix16@ == v && t.base16@ == b16
                    && t.base24@ == b24 && t.ansi16@ == a,
                None => r is None,
            },
    {
        match get_field(manifest, "theme_sources") {
            Some(t) => match (get_text(t, "vogix16"), get_text(t, "base16"), get_text(t, "base24"), get_text(t, "ansi16")) {
                (Some(v), Some(b16), Some(b24), Some(a)) => Some(ThemeSourcesConfig {
                    vogix16: owned(v.as_str()),
                    base16: owned(b16.as_str()),
                    base24: owned(b24.as_str()),
                    ansi16: owned(a.as_str()),
                }),
                _ => None,
            },
            None => None,
        }
    }

    /// The configuration a manifest describes; missing defaults fall back
    /// to `aikido` and `dark`.
    pub fn from_manifest(content: &str) -> (r: Result<Config, VogixError>)
        ensures
            match toml_document(content@) {
                None => r == Err::<Config, VogixError>(VogixError::TomlParse),
                Some(doc) => r matches Ok(c)
                    && c.default_theme@ == (match field(doc, "default"@) {
                        Some(d) => match text_field(d, "theme"@) { Some(s) => s, None => "aikido"@ },
                        None => "aikido"@,
                    })
                    && c.default_variant@ == (match field(doc, "default"@) {
                        Some(d) => match text_field(d, "variant"@) { Some(s) => s, None => "dark"@ },
                        None => "dark"@,
                    })
                    && (match templates_of(doc) {
                        Some((p, h)) => c.templates matches Some(t) && t.path@ == p && t.hash@ == h,
                        None => c.templates is None,
                    })
                    && (match sources_of(doc) {
                        Some((v, b16, b24, a)) => c.theme_sources matches Some(t) && t.vogix16@ == v
                            && t.base16@ == b16 && t.base24@ == b24 && t.ansi16@ == a,
                        None => c.theme_sources is None,
                    })
                    && (match field(doc, "apps"@) {
                        Some(Tree::Table(es)) => c.apps@.len() == apps_of(es@).len() && forall|i: int| 0 <= i < c.apps@.len() ==>
                            (#[trigger] c.apps@[i]).0@ == apps_of(es@)[i].0 && c.apps@[i].1.view_tuple() == apps_of(es@)[i].1,
                        _ => c.apps@.len() == 0,
                    }),
            },
    {
        let doc = match parse_toml(content) {
            Some(d) => d,
            None => {
                return Err(VogixError::TomlParse);
            },
        };
        let default_theme = match get_field(&doc, "default") {
            Some(d) => match get_text(d, "theme") {
                Some(s) => owned(s.as_str()),
                None => owned("aikido"),
            },
            None => owned("aikido"),
        };
        let default_variant = match get_field(&doc, "default") {
            Some(d) => match get_text(d, "variant") {
                Some(s) => owned(s.as_str()),
                None => owned("dark"),
            },
            None => owned("dark"),
        };
        let apps = Config::parse_apps(&doc);
        let templates = Config::parse_templates(&doc);
        let theme_sources = Config::parse_theme_sources(&doc);
        Ok(Config { default_theme, default_variant, apps, templates, theme_sources })
    }
}

impl Config {
    /// The configuration is read-only: it comes from the manifest, so saving always fails.
    pub fn save(&self) -> (r: Result<(), VogixError>)
        ensures
            r matches Err(VogixError::InvalidTheme(_)),
    {
        Err(VogixError::InvalidTheme(owned("Config is read-only from manifest. Use state file for runtime changes.")))
    }
}

impl Default for Config {
    fn default() -> (r: Config)
        ensures
            r.default_theme@ == "aikido"@,
            r.default_variant@ == "dark"@,
            r.apps@.len() == 0,
            r.templates is None,
            r.theme_sources is None,
    {
        Config {
            default_theme: owned("aikido"),
            default_variant: owned("dark"),
            apps: Vec::new(),
            templates: None,
            theme_sources: None,
        }
    }
}

} // verus!
