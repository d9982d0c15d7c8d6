//! Choosing the next scheme, theme and variant from a request.

use vstd::prelude::*;
use crate::errors::VogixError;
use crate::scheme::{Scheme, lower_of, lowercase};
use crate::text::{owned, same_text};
use crate::theme::{ThemeInfo, VariantInfo, find_theme, first_theme, is_stable_order, navigate_to, navigate_variant,
    polarity_pick, resolve_variant, resolved_variant};

verus! {

/// What the user asked to change.
#[derive(Debug, Clone)]
pub struct ThemeRequest {
    pub scheme: Option<Scheme>,
    pub theme: Option<String>,
    pub variant: Option<String>,
}

/// A scheme, theme and variant.
#[derive(Debug, Clone)]
pub struct Selection {
    pub scheme: Scheme,
    pub theme: String,
    pub variant: String,
}

/// A variant request that asks to move rather than to name a variant.
pub open spec fn is_navigation(v: Seq<char>) -> bool {
    lower_of(v) == "darker"@ || lower_of(v) == "lighter"@
}

/// The theme a request leaves selected.
pub open spec fn requested_theme(current: Selection, request: ThemeRequest) -> Seq<char> {
    match request.theme {
        Some(t) => t@,
        None => current.theme@,
    }
}

/// Index of the first variant from `from` on named exactly `name`; -1 if none.
pub open spec fn first_variant_exact(vs: Seq<VariantInfo>, name: Seq<char>, from: int) -> int
    decreases vs.len() - from,
{
    if from < 0 || from >= vs.len() {
        -1
    } else if vs[from].name@ == name {
        from
    } else {
        first_variant_exact(vs, name, from + 1)
    }
}

/// The polarity of the current variant of the current theme, or dark where
/// either is unknown.
pub open spec fn current_polarity(themes: Seq<ThemeInfo>, current: Selection) -> Seq<char> {
    let j = first_theme(themes, current.theme@, 0);
    if j < 0 {
        "dark"@
    } else {
        let k = first_variant_exact(themes[j].variants@, current.variant@, 0);
        if k < 0 {
            "dark"@
        } else {
            themes[j].variants@[k].polarity@
        }
    }
}

/// After a change of theme with no variant named: the new theme's default
/// variant for the current polarity, or the current variant where the new
/// theme is unknown or has no variants.
pub open spec fn followed_variant(themes: Seq<ThemeInfo>, current: Selection, theme: Seq<char>) -> Seq<char> {
    let i = first_theme(themes, theme, 0);
    if i < 0 {
        current.variant@
    } else {
        let pick = polarity_pick(themes[i].variants@, current_polarity(themes, current));
        if pick < 0 {
            current.variant@
        } else {
            themes[i].variants@[pick].name@
        }
    }
}

fn find_variant_exact(vs: &Vec<VariantInfo>, name: &str) -> (r: Option<usize>)
    ensures
        match r {
            Some(k) => k < vs@.len() && k as int == first_variant_exact(vs@, name@, 0),
            None => first_variant_exact(vs@, name@, 0) == -1,
        },
{
    let mut k: usize = 0;
    while k < vs.len()
        invariant
            k <= vs@.len(),
            first_variant_exact(vs@, name@, 0) == first_variant_exact(vs@, name@, k as int),
        decreases vs.len() - k,
    {
        if same_text(vs[k].name.as_str(), name) {
            return Some(k);
        }
        k = k + 1;
    }
    None
}

fn polarity_of_current(themes: &[ThemeInfo], current: &Selection) -> (r: String)
    ensures
        r@ == current_polarity(themes@, *current),
{
    match find_theme(themes, current.theme.as_str()) {
        None => owned("dark"),
        Some(j) => match find_variant_exact(&themes[j].variants, current.variant.as_str()) {
            None => owned("dark"),
            Some(k) => owned(themes[j].variants[k].polarity.as_str()),
        },
    }
}

/// The selection a request leads to: the requested scheme and theme (or the
/// current ones); a variant that is named, resolved, or reached by moving
/// darker or lighter; after a change of theme with no variant named, the
/// new theme's default variant for the current polarity.
pub fn handle_theme_change(current: &Selection, request: &ThemeRequest, themes: &[ThemeInfo]) -> (r: Result<Selection, VogixError>)
    ensures
        r matches Ok(s) ==> s.scheme == (match request.scheme {
            Some(k) => k,
            None => current.scheme,
        }) && s.theme@ == requested_theme(*current, *request),
        match request.variant {
            Some(v) => if is_navigation(v@) {
                let i = first_theme(themes@, requested_theme(*current, *request), 0);
                (i == -1 ==> r is Err) && (i >= 0 ==> forall|p: Seq<int>| #[trigger] is_stable_order(themes@[i].variants@, p) ==>
                    match navigate_to(themes@[i].variants@, p, current.variant@, v@) {
                        Some(n) => r matches Ok(s) && s.variant@ == n,
                        None => r is Err,
                    })
            } else {
                match resolved_variant(themes@, requested_theme(*current, *request), v@) {
                    Some(n) => r matches Ok(s) && s.variant@ == n,
                    None => r is Err,
                }
            },
            None => if request.theme matches Some(t) && t@ != current.theme@ {
                r matches Ok(s) && s.variant@ == followed_variant(themes@, *current, requested_theme(*current, *request))
            } else {
                r matches Ok(s) && s.variant@ == current.variant@
            },
        },
{
    let scheme = match request.scheme {
        Some(k) => k,
        None => current.scheme,
    };
    let theme_changed = match &request.theme {
        Some(t) => !same_text(t.as_str(), current.theme.as_str()),
        None => false,
    };
    let theme = match &request.theme {
        Some(t) => owned(t.as_str()),
        None => owned(current.theme.as_str()),
    };
    let variant = match &request.variant {
        Some(v) => {
            let l = lowercase(v.as_str());
            if same_text(l.as_str(), "darker") || same_text(l.as_str(), "lighter") {
                navigate_variant(themes, theme.as_str(), current.variant.as_str(), v.as_str())?
            } else {
                resolve_variant(themes, theme.as_str(), v.as_str())?
            }
        },
        None => {
            if theme_changed {
                match find_theme(themes, theme.as_str()) {
                    None => owned(current.variant.as_str()),
                    Some(i) => {
                        let polarity = polarity_of_current(themes, current);
                        match themes[i].default_variant_for_polarity(polarity.as_str()) {
                            Some(v) => owned(v.name.as_str()),
                            None => owned(current.variant.as_str()),
                        }
                    },
                }
            } else {
                owned(current.variant.as_str())
            }
        },
    };
    Ok(Selection { scheme, theme, variant })
}

} // verus!
