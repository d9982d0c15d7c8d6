//! The rendered-output cache: where each theme variant's files go, which
//! templates qualify, what a render produces, and which fingerprint
//! partitions are stale. Touching the disk is left to the caller, which
//! hands in what it found and carries out what it is told.

use vstd::prelude::*;
use crate::colors::ColorMap;
use crate::config::{Config, TemplatesConfig, ThemeSourcesConfig};
use crate::errors::VogixError;
use crate::loader::{load_theme_colors, parse_error, theme_colors, string_table, lemma_alias_value, semantic_table};
use crate::tree::toml_document;
use crate::paths::{join, join_path};
use crate::scheme::{Scheme, scheme_extension, scheme_name};
use crate::template::{Fault, render, render_template_string, tag_of, is_ident, is_ident_char, lemma_tag_between};
use crate::text::{chars_of, names_view, owned, push_text, same_text};

verus! {

/// `{cache_dir}/{hash}/{scheme}/{theme}/{variant}`.
pub open spec fn cache_path_of(cache_dir: Seq<char>, hash: Seq<char>, scheme: Scheme, theme: Seq<char>, variant: Seq<char>) -> Seq<char> {
    join(join(join(join(cache_dir, hash), scheme_name(scheme)), theme), variant)
}

/// The palette source directory configured for a scheme.
pub open spec fn source_dir_of(sources: ThemeSourcesConfig, scheme: Scheme) -> Seq<char> {
    match scheme {
        Scheme::Vogix16 => sources.vogix16@,
        Scheme::Base16 => sources.base16@,
        Scheme::Base24 => sources.base24@,
        Scheme::Ansi16 => sources.ansi16@,
    }
}

/// `{source_dir}/{theme}/{variant}.{extension}`.
pub open spec fn variant_path_of(sources: ThemeSourcesConfig, scheme: Scheme, theme: Seq<char>, variant: Seq<char>) -> Seq<char> {
    join(join(source_dir_of(sources, scheme), theme), variant + seq!['.'] + scheme_extension(scheme))
}

/// Builds the cache path of a theme variant.
pub fn variant_cache_path(cache_dir: &str, templates_hash: &str, scheme: &Scheme, theme: &str, variant: &str) -> (r: String)
    ensures
        r@ == cache_path_of(cache_dir@, templates_hash@, *scheme, theme@, variant@),
{
    let a = join_path(cache_dir, templates_hash);
    let b = join_path(a.as_str(), scheme.name());
    let c = join_path(b.as_str(), theme);
    join_path(c.as_str(), variant)
}

/// The palette source directory of a scheme.
pub fn theme_source_path<'a>(theme_sources: &'a ThemeSourcesConfig, scheme: &Scheme) -> (r: &'a String)
    ensures
        r@ == source_dir_of(*theme_sources, *scheme),
{
    match scheme {
        Scheme::Vogix16 => &theme_sources.vogix16,
        Scheme::Base16 => &theme_sources.base16,
        Scheme::Base24 => &theme_sources.base24,
        Scheme::Ansi16 => &theme_sources.ansi16,
    }
}

/// The path of a theme variant's palette source file.
pub fn theme_variant_path(theme_sources: &ThemeSourcesConfig, scheme: &Scheme, theme: &str, variant: &str) -> (r: String)
    ensures
        r@ == variant_path_of(*theme_sources, *scheme, theme@, variant@),
{
    let source = theme_source_path(theme_sources, scheme);
    let dir = join_path(source.as_str(), theme);
    let mut file = owned(variant);
    push_text(&mut file, ".");
    push_text(&mut file, scheme.extension());
    proof {
        reveal_strlit(".");
    }
    assert(file@ =~= variant@ + seq!['.'] + scheme_extension(*scheme));
    join_path(dir.as_str(), file.as_str())
}

/// The output name of a template file: its name without the `.vogix`
/// marker; `None` for a file that does not carry the marker after a
/// non-empty stem.
pub open spec fn template_output(name: Seq<char>) -> Option<Seq<char>> {
    if name.len() > 6 && name.subrange(name.len() - 6, name.len() as int) == ".vogix"@ {
        Some(name.subrange(0, name.len() - 6))
    } else {
        None
    }
}

/// The output name of a template file, if it is one.
pub fn template_output_name(name: &str) -> (r: Option<String>)
    ensures
        match template_output(name@) {
            Some(o) => r matches Some(s) && s@ == o,
            None => r is None,
        },
{
    let cs = chars_of(name);
    let marker = chars_of(".vogix");
    proof {
        reveal_strlit(".vogix");
    }
    if cs.len() <= 6 {
        return None;
    }
    let start = cs.len() - 6;
    let mut j: usize = 0;
    while j < 6
        invariant
            marker@ == ".vogix"@,
            marker@.len() == 6,
            cs@ == name@,
            start + 6 == cs.len(),
            j <= 6,
            forall|m: int| 0 <= m < j ==> cs@[start + m] == marker@[m],
        decreases 6 - j,
    {
        if cs[start + j] != marker[j] {
            assert(cs@.subrange(start as int, cs@.len() as int)[j as int] != ".vogix"@[j as int]);
            return None;
        }
        j = j + 1;
    }
    assert(cs@.subrange(start as int, cs@.len() as int) =~= ".vogix"@);
    let mut out = String::new();
    crate::text::push_chars(&mut out, &cs, 0, start);
    assert(out@ =~= name@.subrange(0, start as int));
    Some(out)
}

/// Plain view of a list of (name, text) files.
pub open spec fn files_view(s: Seq<(String, String)>) -> Seq<(Seq<char>, Seq<char>)> {
    s.map_values(|f: (String, String)| (f.0@, f.1@))
}

/// The files that a set of templates renders to, in order: one per
/// qualifying template, named by its output name; the first failure in
/// order decides the error.
pub open spec fn rendered_files(templates: Seq<(Seq<char>, Seq<char>)>, colors: Map<Seq<char>, Seq<char>>) -> Result<Seq<(Seq<char>, Seq<char>)>, Fault>
    decreases templates.len(),
{
    if templates.len() == 0 {
        Ok(Seq::empty())
    } else {
        match rendered_files(templates.drop_last(), colors) {
            Err(e) => Err(e),
            Ok(out) => match template_output(templates.last().0) {
                None => Ok(out),
                Some(o) => match render(templates.last().1, colors) {
                    Ok(t) => Ok(out.push((o, t))),
                    Err(e) => Err(e),
                },
            },
        }
    }
}

/// Once rendering a prefix of the templates fails, every longer prefix
/// fails the same way.
pub proof fn lemma_rendered_err_extends(t: Seq<(Seq<char>, Seq<char>)>, k: int, m: int, colors: Map<Seq<char>, Seq<char>>)
    requires
        0 <= k <= m <= t.len(),
        rendered_files(t.subrange(0, k), colors) is Err,
    ensures
        rendered_files(t.subrange(0, m), colors) == rendered_files(t.subrange(0, k), colors),
    decreases m - k,
{
    if m > k {
        lemma_rendered_err_extends(t, k, m - 1, colors);
        assert(t.subrange(0, m).drop_last() =~= t.subrange(0, m - 1));
    }
}

/// Renders every qualifying template of a scheme's template directory.
pub fn render_templates(templates: &Vec<(String, String)>, colors: &ColorMap) -> (r: Result<Vec<(String, String)>, VogixError>)
    requires
        colors.wf(),
    ensures
        match rendered_files(files_view(templates@), colors@) {
            Ok(fs) => r matches Ok(v) && files_view(v@) == fs,
            Err(f) => r matches Err(VogixError::Template(e)) && e@ == f,
        },
{
    let mut out: Vec<(String, String)> = Vec::new();
    let mut i: usize = 0;
    assert(files_view(templates@).subrange(0, 0) =~= Seq::<(Seq<char>, Seq<char>)>::empty());
    assert(files_view(out@) =~= Seq::<(Seq<char>, Seq<char>)>::empty());
    while i < templates.len()
        invariant
            colors.wf(),
            i <= templates@.len(),
            rendered_files(files_view(templates@).subrange(0, i as int), colors@) == Ok::<Seq<(Seq<char>, Seq<char>)>, Fault>(files_view(out@)),
        decreases templates.len() - i,
    {
        let ghost pre = files_view(templates@).subrange(0, i + 1);
        assert(pre.drop_last() =~= files_view(templates@).subrange(0, i as int));
        assert(pre.last() == (templates@[i as int].0@, templates@[i as int].1@));
        match template_output_name(templates[i].0.as_str()) {
            None => {},
            Some(name) => {
                match render_template_string(templates[i].1.as_str(), colors) {
                    Ok(text) => {
                        let ghost before = out@;
                        out.push((name, text));
                        assert(files_view(out@) =~= files_view(before).push((name@, text@)));
                    },
                    Err(e) => {
                        proof {
                            lemma_rendered_err_extends(files_view(templates@), i + 1, templates@.len() as int, colors@);
                            assert(files_view(templates@).subrange(0, templates@.len() as int) =~= files_view(templates@));
                        }
                        return Err(e);
                    },
                }
            },
        }
        i = i + 1;
    }
    assert(files_view(templates@).subrange(0, templates@.len() as int) =~= files_view(templates@));
    Ok(out)
}

/// The rendering pipeline of one theme variant: the palette source read with
/// its scheme's parser, then every qualifying template rendered against it.
pub fn render_variant_files(scheme: &Scheme, palette: &str, templates: &Vec<(String, String)>) -> (r: Result<Vec<(String, String)>, VogixError>)
    ensures
        match theme_colors(*scheme, palette@) {
            None => r == Err::<Vec<(String, String)>, VogixError>(parse_error(*scheme)),
            Some(c) => match rendered_files(files_view(templates@), c) {
                Ok(fs) => r matches Ok(v) && files_view(v@) == fs,
                Err(f) => r matches Err(VogixError::Template(e)) && e@ == f,
            },
        },
{
    let colors = load_theme_colors(palette, *scheme)?;
    render_templates(templates, &colors)
}

/// Relies on `dirs::cache_dir`: the user's cache directory (`$XDG_CACHE_HOME`
/// when it is an absolute path, else `.cache` under the home directory), if
/// one can be found and is valid Unicode. It depends on the environment, so
/// nothing is stated of it.
#[verifier::external_body]
fn user_cache_dir() -> (r: Option<String>) {
    dirs::cache_dir().and_then(|p| p.into_os_string().into_string().ok())
}

/// What the caller does for a request: use the existing directory, or render
/// into it from the palette source and the scheme's template directory.
#[derive(Debug)]
pub enum CacheStep {
    Hit { path: String },
    Render { path: String, source: String, templates_dir: String },
}

/// Plain view of a `CacheStep`.
pub enum Step {
    Hit(Seq<char>),
    Render(Seq<char>, Seq<char>, Seq<char>),
}

impl View for CacheStep {
    type V = Step;

    open spec fn view(&self) -> Step {
        match self {
            CacheStep::Hit { path } => Step::Hit(path@),
            CacheStep::Render { path, source, templates_dir } => Step::Render(path@, source@, templates_dir@),
        }
    }
}

/// The cache of rendered theme variants under one root, for one template
/// bundle.
pub struct ThemeCache {
    pub cache_dir: String,
    pub templates: TemplatesConfig,
    pub theme_sources: ThemeSourcesConfig,
}

/// The names other than `current`, in order.
pub open spec fn stale_of(names: Seq<Seq<char>>, current: Seq<char>) -> Seq<Seq<char>>
    decreases names.len(),
{
    if names.len() == 0 {
        Seq::empty()
    } else {
        let s = stale_of(names.drop_last(), current);
        if names.last() == current {
            s
        } else {
            s.push(names.last())
        }
    }
}

fn copy_sources(s: &ThemeSourcesConfig) -> (r: ThemeSourcesConfig)
    ensures
        r.vogix16@ == s.vogix16@,
        r.base16@ == s.base16@,
        r.base24@ == s.base24@,
        r.ansi16@ == s.ansi16@,
{
    ThemeSourcesConfig {
        vogix16: owned(s.vogix16.as_str()),
        base16: owned(s.base16.as_str()),
        base24: owned(s.base24.as_str()),
        ansi16: owned(s.ansi16.as_str()),
    }
}

impl ThemeCache {
    /// The cache path of a theme variant under this cache.
    pub open spec fn path_of(&self, scheme: Scheme, theme: Seq<char>, variant: Seq<char>) -> Seq<char> {
        cache_path_of(self.cache_dir@, self.templates.hash@, scheme, theme, variant)
    }

    /// What a request for a theme variant asks of the caller, given whether
    /// its cache directory exists.
    pub open spec fn step(&self, scheme: Scheme, theme: Seq<char>, variant: Seq<char>, cached: bool) -> Step {
        if cached {
            Step::Hit(self.path_of(scheme, theme, variant))
        } else {
            Step::Render(
                self.path_of(scheme, theme, variant),
                variant_path_of(self.theme_sources, scheme, theme, variant),
                join(self.templates.path@, scheme_name(scheme)),
            )
        }
    }

    /// A cache rooted at `cache_dir`; fails unless the configuration names
    /// both the templates and the palette sources.
    pub fn from_config_with_cache_dir(config: &Config, cache_dir: String) -> (r: Result<ThemeCache, VogixError>)
        ensures
            (config.templates is None || config.theme_sources is None) <==> r is Err,
            r is Err ==> r matches Err(VogixError::Config(_)),
            r matches Ok(c) ==> c.cache_dir@ == cache_dir@
                && c.templates.path@ == config.templates->Some_0.path@
                && c.templates.hash@ == config.templates->Some_0.hash@
                && c.theme_sources.vogix16@ == config.theme_sources->Some_0.vogix16@
                && c.theme_sources.base16@ == config.theme_sources->Some_0.base16@
                && c.theme_sources.base24@ == config.theme_sources->Some_0.base24@
                && c.theme_sources.ansi16@ == config.theme_sources->Some_0.ansi16@,
    {
        let templates = match &config.templates {
            Some(t) => TemplatesConfig { path: owned(t.path.as_str()), hash: owned(t.hash.as_str()) },
            None => {
                return Err(VogixError::Config(owned("no templates configuration found")));
            },
        };
        let theme_sources = match &config.theme_sources {
            Some(s) => copy_sources(s),
            None => {
                return Err(VogixError::Config(owned("no theme_sources configuration found")));
            },
        };
        Ok(ThemeCache { cache_dir, templates, theme_sources })
    }

    /// A cache rooted at `vogix/themes` under the user's cache directory.
    pub fn from_config(config: &Config) -> (r: Result<ThemeCache, VogixError>)
        ensures
            (config.templates is None || config.theme_sources is None) ==> r matches Err(VogixError::Config(_)),
            r matches Ok(c) ==> c.templates.hash@ == config.templates->Some_0.hash@
                && c.templates.path@ == config.templates->Some_0.path@
                && c.theme_sources.vogix16@ == config.theme_sources->Some_0.vogix16@
                && c.theme_sources.base16@ == config.theme_sources->Some_0.base16@
                && c.theme_sources.base24@ == config.theme_sources->Some_0.base24@
                && c.theme_sources.ansi16@ == config.theme_sources->Some_0.ansi16@
                && exists|base: Seq<char>| c.cache_dir@ == join(join(base, "vogix"@), "themes"@),
    {
        match user_cache_dir() {
            None => Err(VogixError::Config(owned("HOME not set"))),
            Some(base) => {
                let dir = join_path(base.as_str(), "vogix");
                let themes = join_path(dir.as_str(), "themes");
                let r = ThemeCache::from_config_with_cache_dir(config, themes);
                assert(r matches Ok(c) ==> c.cache_dir@ == join(join(base@, "vogix"@), "themes"@));
                r
            },
        }
    }

    /// The cache path of a theme variant:
    /// `{cache_dir}/{fingerprint}/{scheme}/{theme}/{variant}`.
    pub fn variant_cache_path(&self, scheme: &Scheme, theme: &str, variant: &str) -> (r: String)
        ensures
            r@ == self.path_of(*scheme, theme@, variant@),
    {
        variant_cache_path(self.cache_dir.as_str(), self.templates.hash.as_str(), scheme, theme, variant)
    }

    /// Cache-through lookup: an existing directory is used as it is, with no
    /// re-render and no freshness check; otherwise the caller renders into it.
    pub fn get_or_render(&self, scheme: &Scheme, theme: &str, variant: &str, cached: bool) -> (r: CacheStep)
        ensures
            r@ == self.step(*scheme, theme@, variant@, cached),
    {
        let path = self.variant_cache_path(scheme, theme, variant);
        if cached {
            CacheStep::Hit { path }
        } else {
            let source = theme_variant_path(&self.theme_sources, scheme, theme, variant);
            let templates_dir = join_path(self.templates.path.as_str(), scheme.name());
            CacheStep::Render { path, source, templates_dir }
        }
    }

    /// The files to write into a theme variant's cache directory, with that
    /// directory's path.
    pub fn render_variant(&self, scheme: &Scheme, theme: &str, variant: &str, palette: &str, templates: &Vec<(String, String)>) -> (r: Result<(String, Vec<(String, String)>), VogixError>)
        ensures
            match theme_colors(*scheme, palette@) {
                None => r == Err::<(String, Vec<(String, String)>), VogixError>(parse_error(*scheme)),
                Some(c) => match rendered_files(files_view(templates@), c) {
                    Ok(fs) => r matches Ok((p, v)) && p@ == self.path_of(*scheme, theme@, variant@) && files_view(v@) == fs,
                    Err(f) => r matches Err(VogixError::Template(e)) && e@ == f,
                },
            },
    {
        let files = render_variant_files(scheme, palette, templates)?;
        Ok((self.variant_cache_path(scheme, theme, variant), files))
    }

    /// The fingerprint partitions to remove: every one but the current.
    pub fn clean_stale(&self, partitions: &Vec<String>) -> (r: Vec<String>)
        ensures
            names_view(r@) == stale_of(names_view(partitions@), self.templates.hash@),
    {
        let mut r: Vec<String> = Vec::new();
        let mut i: usize = 0;
        assert(names_view(partitions@).subrange(0, 0) =~= Seq::<Seq<char>>::empty());
        assert(names_view(r@) =~= Seq::<Seq<char>>::empty());
        while i < partitions.len()
            invariant
                i <= partitions@.len(),
                names_view(r@) == stale_of(names_view(partitions@).subrange(0, i as int), self.templates.hash@),
            decreases partitions.len() - i,
        {
            let ghost pre = names_view(partitions@).subrange(0, i + 1);
            assert(pre.drop_last() =~= names_view(partitions@).subrange(0, i as int));
            if !same_text(partitions[i].as_str(), self.templates.hash.as_str()) {
                let ghost before = r@;
                r.push(owned(partitions[i].as_str()));
                assert(names_view(r@) =~= names_view(before).push(partitions@[i as int]@));
            }
            i = i + 1;
        }
        assert(names_view(partitions@).subrange(0, partitions@.len() as int) =~= names_view(partitions@));
        r
    }
}

/// Cache-through is idempotent: once a theme variant's directory exists, a
/// request for it gives the very path that the first request rendered into,
/// and renders nothing.
pub proof fn lemma_get_or_render_idempotent(cache: ThemeCache, scheme: Scheme, theme: Seq<char>, variant: Seq<char>)
    ensures
        cache.step(scheme, theme, variant, false) matches Step::Render(p, _, _)
            && cache.step(scheme, theme, variant, true) == Step::Hit(p),
{
}

/// A name is kept exactly when it is listed and is not the current one.
pub proof fn lemma_stale_contains(names: Seq<Seq<char>>, current: Seq<char>, x: Seq<char>)
    ensures
        stale_of(names, current).contains(x) <==> (names.contains(x) && x != current),
    decreases names.len(),
{
    if names.len() > 0 {
        let t = names.drop_last();
        let st = stale_of(t, current);
        let s = stale_of(names, current);
        lemma_stale_contains(t, current, x);
        assert(names.contains(x) <==> (t.contains(x) || names.last() == x)) by {
            if names.contains(x) && names.last() != x {
                let i = choose|i: int| 0 <= i < names.len() && names[i] == x;
                assert(t[i] == x);
            }
            if t.contains(x) {
                let i = choose|i: int| 0 <= i < t.len() && t[i] == x;
                assert(names[i] == x);
            }
            if names.last() == x {
                assert(names[names.len() - 1] == x);
            }
        }
        if names.last() != current {
            assert(s == st.push(names.last()));
            assert(s.contains(x) <==> (st.contains(x) || names.last() == x)) by {
                if s.contains(x) && names.last() != x {
                    let i = choose|i: int| 0 <= i < s.len() && s[i] == x;
                    assert(st[i] == x);
                }
                if st.contains(x) {
                    let i = choose|i: int| 0 <= i < st.len() && st[i] == x;
                    assert(s[i] == x);
                }
                if names.last() == x {
                    assert(s[s.len() - 1] == x);
                }
            }
        }
    }
}

/// Without repeated names, cleaning removes one name fewer than are listed
/// when the current one is among them, and all of them otherwise.
pub proof fn lemma_stale_len(names: Seq<Seq<char>>, current: Seq<char>)
    requires
        names.no_duplicates(),
    ensures
        stale_of(names, current).len() == names.len() - (if names.contains(current) { 1int } else { 0int }),
    decreases names.len(),
{
    if names.len() > 0 {
        let t = names.drop_last();
        assert(t.no_duplicates());
        lemma_stale_len(t, current);
        if names.last() == current {
            if t.contains(current) {
                let i = choose|i: int| 0 <= i < t.len() && t[i] == current;
                assert(names[i] == names[names.len() - 1]);
            }
            assert(names.contains(current)) by {
                assert(names[names.len() - 1] == current);
            }
        } else {
            if names.contains(current) {
                let i = choose|i: int| 0 <= i < names.len() && names[i] == current;
                assert(t[i] == current);
            }
            if t.contains(current) {
                let i = choose|i: int| 0 <= i < t.len() && t[i] == current;
                assert(names[i] == current);
            }
        }
    }
}

/// With N stale partitions and the current one, cleaning removes exactly
/// the N stale ones and never the current one.
pub proof fn lemma_clean_stale_exact(names: Seq<Seq<char>>, current: Seq<char>)
    requires
        names.no_duplicates(),
        names.contains(current),
    ensures
        stale_of(names, current).len() == names.len() - 1,
        !stale_of(names, current).contains(current),
        forall|i: int| 0 <= i < names.len() && names[i] != current ==> stale_of(names, current).contains(#[trigger] names[i]),
{
    lemma_stale_len(names, current);
    lemma_stale_contains(names, current, current);
    assert forall|i: int| 0 <= i < names.len() && names[i] != current implies stale_of(names, current).contains(#[trigger] names[i]) by {
        lemma_stale_contains(names, current, names[i]);
    }
}

/// End to end: a native palette source whose `colors` table gives `base00`
/// a value, rendered through the one template `test.toml.vogix` holding
/// `background = "{{ colors.background }}"`, gives exactly one file,
/// `test.toml`, holding `background = "` followed by that value and `"`.
pub proof fn lemma_end_to_end_native(palette: Seq<char>)
    requires
        toml_document(palette) matches Some(d) && string_table(d, "colors"@) matches Some(raw) && raw.contains_key("base00"@),
    ensures
        theme_colors(Scheme::Vogix16, palette) matches Some(c) && rendered_files(
            seq![("test.toml.vogix"@, "background = \"{{ colors.background }}\""@)],
            c,
        ) == Ok::<Seq<(Seq<char>, Seq<char>)>, Fault>(seq![(
            "test.toml"@,
            "background = \""@ + string_table(toml_document(palette)->Some_0, "colors"@)->Some_0["base00"@] + "\""@,
        )]),
{
    let raw = string_table(toml_document(palette)->Some_0, "colors"@)->Some_0;
    let c = crate::loader::vogix16_map(raw);
    assert(semantic_table()[0].0@ == "base00"@ && semantic_table()[0].1@ == "background"@);
    lemma_alias_value(raw, 0);
    reveal_strlit("background");
    let key = "background"@;
    assert forall|i: int| 0 <= i < key.len() implies is_ident_char(#[trigger] key[i]) by {
        if i == 0 {
            assert(is_ident_char(key[0]));
        } else if i == 1 {
            assert(is_ident_char(key[1]));
        } else if i == 2 {
            assert(is_ident_char(key[2]));
        } else if i == 3 {
            assert(is_ident_char(key[3]));
        } else if i == 4 {
            assert(is_ident_char(key[4]));
        } else if i == 5 {
            assert(is_ident_char(key[5]));
        } else if i == 6 {
            assert(is_ident_char(key[6]));
        } else if i == 7 {
            assert(is_ident_char(key[7]));
        } else if i == 8 {
            assert(is_ident_char(key[8]));
        } else {
            assert(is_ident_char(key[9]));
        }
    }
    assert(is_ident(key));
    reveal_strlit("background = \"");
    reveal_strlit("\"");
    reveal_strlit("colors.");
    reveal_strlit("background = \"{{ colors.background }}\"");
    let p = "background = \""@;
    let q = "\""@;
    assert forall|t: int| 0 <= t < p.len() implies p[t] != '{' by {
        if t == 0 {
            assert(p[0] != '{');
        } else if t == 1 {
            assert(p[1] != '{');
        } else if t == 2 {
            assert(p[2] != '{');
        } else if t == 3 {
            assert(p[3] != '{');
        } else if t == 4 {
            assert(p[4] != '{');
        } else if t == 5 {
            assert(p[5] != '{');
        } else if t == 6 {
            assert(p[6] != '{');
        } else if t == 7 {
            assert(p[7] != '{');
        } else if t == 8 {
            assert(p[8] != '{');
        } else if t == 9 {
            assert(p[9] != '{');
        } else if t == 10 {
            assert(p[10] != '{');
        } else if t == 11 {
            assert(p[11] != '{');
        } else if t == 12 {
            assert(p[12] != '{');
        } else {
            assert(p[13] != '{');
        }
    }
    assert(q[0] != '{');
    lemma_tag_between(p, key, q, c);
    assert("background = \"{{ colors.background }}\""@ =~= p + tag_of(key) + q);
    reveal_strlit("test.toml.vogix");
    reveal_strlit("test.toml");
    reveal_strlit(".vogix");
    let name = "test.toml.vogix"@;
    assert(name.subrange(name.len() - 6, name.len() as int) =~= ".vogix"@);
    assert(name.subrange(0, name.len() - 6) =~= "test.toml"@);
    assert(template_output(name) == Some("test.toml"@));
    let tmpl = "background = \"{{ colors.background }}\""@;
    assert(theme_colors(Scheme::Vogix16, palette) == Some(c));
    assert(render(tmpl, c) == Ok::<Seq<char>, Fault>(p + c[key] + q));
    assert(c[key] == raw["base00"@]);
    let ts = seq![(name, tmpl)];
    assert(ts.drop_last() =~= Seq::<(Seq<char>, Seq<char>)>::empty());
    assert(ts.last() == (name, tmpl));
    assert(rendered_files(ts.drop_last(), c) == Ok::<Seq<(Seq<char>, Seq<char>)>, Fault>(Seq::empty()));
    assert(Seq::<(Seq<char>, Seq<char>)>::empty().push(("test.toml"@, p + raw["base00"@] + q)) =~= seq![("test.toml"@, p + raw["base00"@] + q)]);
    assert(rendered_files(ts, c) == Ok::<Seq<(Seq<char>, Seq<char>)>, Fault>(seq![("test.toml"@, p + raw["base00"@] + q)]));
}

} // verus!
