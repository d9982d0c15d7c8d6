//! Themes and their variants: ordering from lightest to darkest, moving
//! between neighbours, and looking themes up.

use vstd::prelude::*;
use crate::errors::VogixError;
use crate::scheme::{Scheme, lower_of, lowercase};
use crate::text::{contains_text, find_text, names_view, owned, push_text, same_text, text_less, text_lt, lemma_text_lt_order};
use crate::scheme::scheme_named;
use crate::tree::{Tree, field, text_field, lookup, get_field, get_text, lookup_entry, parse_toml, toml_document};

verus! {

/// One variant of a theme; `order` 0 is the lightest.
#[derive(Debug, Clone)]
pub struct VariantInfo {
    pub name: String,
    pub polarity: String,
    pub order: u32,
}

/// A theme with its scheme and variants.
#[derive(Debug, Clone)]
pub struct ThemeInfo {
    pub name: String,
    pub scheme: Scheme,
    pub variants: Vec<VariantInfo>,
}

impl View for VariantInfo {
    type V = (Seq<char>, Seq<char>, u32);

    open spec fn view(&self) -> (Seq<char>, Seq<char>, u32) {
        (self.name@, self.polarity@, self.order)
    }
}

/// Plain view of a list of variants.
pub open spec fn variants_view(vs: Seq<VariantInfo>) -> Seq<(Seq<char>, Seq<char>, u32)> {
    vs.map_values(|v: VariantInfo| v@)
}

impl View for ThemeInfo {
    type V = (Seq<char>, Scheme, Seq<(Seq<char>, Seq<char>, u32)>);

    open spec fn view(&self) -> (Seq<char>, Scheme, Seq<(Seq<char>, Seq<char>, u32)>) {
        (self.name@, self.scheme, variants_view(self.variants@))
    }
}

/// Variant `a` comes before variant `b`: lower order, or equal order and
/// listed earlier.
pub open spec fn before(vs: Seq<VariantInfo>, a: int, b: int) -> bool {
    vs[a].order < vs[b].order || (vs[a].order == vs[b].order && a < b)
}

/// `p` lists the indices of `vs` sorted by order, ties kept in list order.
pub open spec fn is_stable_order(vs: Seq<VariantInfo>, p: Seq<int>) -> bool {
    p.len() == vs.len()
        && (forall|a: int| 0 <= a < p.len() ==> 0 <= #[trigger] p[a] < vs.len())
        && (forall|a: int, b: int| 0 <= a < b < p.len() ==> before(vs, #[trigger] p[a], #[trigger] p[b]))
}

/// First position `k >= from` in the order `p` whose variant's name, lower-cased, is `target`; -1 if none.
pub open spec fn first_named(vs: Seq<VariantInfo>, p: Seq<int>, target: Seq<char>, from: int) -> int
    decreases p.len() - from,
{
    if from < 0 || from >= p.len() {
        -1
    } else if lower_of(vs[p[from]].name@) == target {
        from
    } else {
        first_named(vs, p, target, from + 1)
    }
}

/// Where `navigate` lands: the name of the neighbour in `direction`, or
/// `None` for an unknown variant, an unknown direction, or a boundary.
pub open spec fn navigate_to(vs: Seq<VariantInfo>, p: Seq<int>, current: Seq<char>, direction: Seq<char>) -> Option<Seq<char>> {
    let k = first_named(vs, p, lower_of(current), 0);
    if k < 0 {
        None
    } else if lower_of(direction) == "darker"@ {
        if k + 1 < p.len() {
            Some(vs[p[k + 1]].name@)
        } else {
            None
        }
    } else if lower_of(direction) == "lighter"@ {
        if k > 0 {
            Some(vs[p[k - 1]].name@)
        } else {
            None
        }
    } else {
        None
    }
}

/// Index of the first variant with the given polarity, else 0 when there
/// is any variant, else -1.
pub open spec fn polarity_pick(vs: Seq<VariantInfo>, polarity: Seq<char>) -> int {
    if exists|i: int| 0 <= i < vs.len() && (#[trigger] vs[i]).polarity@ == polarity {
        choose|i: int| 0 <= i < vs.len() && (#[trigger] vs[i]).polarity@ == polarity
            && forall|j: int| 0 <= j < i ==> (#[trigger] vs[j]).polarity@ != polarity
    } else if vs.len() > 0 {
        0
    } else {
        -1
    }
}

/// The indices of the variants, stably sorted by order.
fn order_indices(vs: &Vec<VariantInfo>) -> (r: Vec<usize>)
    ensures
        is_stable_order(vs@, r@.map_values(|i: usize| i as int)),
{
    let mut r: Vec<usize> = Vec::new();
    let mut i: usize = 0;
    while i < vs.len()
        invariant
            i <= vs@.len(),
            r@.len() == i,
            forall|a: int| 0 <= a < r@.len() ==> #[trigger] r@[a] < i,
            forall|a: int, b: int| 0 <= a < b < r@.len() ==> before(vs@, #[trigger] r@[a] as int, #[trigger] r@[b] as int),
        decreases vs.len() - i,
    {
        let mut p: usize = 0;
        while p < r.len() && vs[r[p]].order <= vs[i].order
            invariant
                i < vs@.len(),
                p <= r@.len(),
                forall|a: int| 0 <= a < r@.len() ==> #[trigger] r@[a] < i,
                forall|a: int| 0 <= a < p ==> vs@[#[trigger] r@[a] as int].order <= vs@[i as int].order,
            decreases r.len() - p,
        {
            p = p + 1;
        }
        let ghost old_r = r@;
        r.insert(p, i);
        assert forall|a: int, b: int| 0 <= a < b < r@.len() implies before(vs@, #[trigger] r@[a] as int, #[trigger] r@[b] as int) by {
            if b < p {
                assert(r@[a] == old_r[a] && r@[b] == old_r[b]);
            } else if b == p {
                assert(r@[a] == old_r[a]);
            } else if a == p {
                assert(r@[b] == old_r[b - 1]);
                if b - 1 == p || p < old_r.len() {
                    if p < old_r.len() {
                        assert(vs@[old_r[p as int] as int].order > vs@[i as int].order);
                        if b - 1 > p {
                            assert(before(vs@, old_r[p as int] as int, old_r[b - 1] as int));
                        }
                    }
                }
            } else if a < p {
                assert(r@[a] == old_r[a] && r@[b] == old_r[b - 1]);
            } else {
                assert(r@[a] == old_r[a - 1] && r@[b] == old_r[b - 1]);
            }
        }
        i = i + 1;
    }
    let ghost q = r@.map_values(|i: usize| i as int);
    assert forall|a: int, b: int| 0 <= a < b < q.len() implies before(vs@, #[trigger] q[a], #[trigger] q[b]) by {
        assert(before(vs@, r@[a] as int, r@[b] as int));
    }
    r
}

impl ThemeInfo {
    /// The variants sorted by order (lightest first), ties kept in list order.
    pub fn variants_by_order(&self) -> (r: Vec<&VariantInfo>)
        ensures
            exists|p: Seq<int>| is_stable_order(self.variants@, p) && r@.len() == p.len()
                && forall|a: int| 0 <= a < p.len() ==> *(#[trigger] r@[a]) == self.variants@[p[a]],
    {
        let idx = order_indices(&self.variants);
        let ghost p = idx@.map_values(|i: usize| i as int);
        let mut r: Vec<&VariantInfo> = Vec::new();
        let mut k: usize = 0;
        while k < idx.len()
            invariant
                p == idx@.map_values(|i: usize| i as int),
                is_stable_order(self.variants@, p),
                k <= idx@.len(),
                r@.len() == k,
                forall|a: int| 0 <= a < k ==> *(#[trigger] r@[a]) == self.variants@[p[a]],
            decreases idx.len() - k,
        {
            assert(0 <= p[k as int] < self.variants@.len());
            r.push(&self.variants[idx[k]]);
            k = k + 1;
        }
        r
    }

    /// The first variant with the given polarity, or else the first variant.
    pub fn default_variant_for_polarity(&self, polarity: &str) -> (r: Option<&VariantInfo>)
        ensures
            match r {
                Some(v) => polarity_pick(self.variants@, polarity@) >= 0 && *v == self.variants@[polarity_pick(self.variants@, polarity@)],
                None => polarity_pick(self.variants@, polarity@) == -1,
            },
    {
        let mut i: usize = 0;
        while i < self.variants.len()
            invariant
                i <= self.variants@.len(),
                forall|j: int| 0 <= j < i ==> (#[trigger] self.variants@[j]).polarity@ != polarity@,
            decreases self.variants.len() - i,
        {
            if same_text(self.variants[i].polarity.as_str(), polarity) {
                assert(exists|j: int| 0 <= j < self.variants@.len() && (#[trigger] self.variants@[j]).polarity@ == polarity@);
                let ghost c = polarity_pick(self.variants@, polarity@);
                assert(c == i) by {
                    if c < i {
                    } else if c > i {
                    }
                }
                return Some(&self.variants[i]);
            }
            i = i + 1;
        }
        if self.variants.len() > 0 {
            Some(&self.variants[0])
        } else {
            None
        }
    }

    /// The lighter or darker neighbour of variant `current` (both compared
    /// without regard to case); fails for an unknown variant, an unknown
    /// direction, or at the lightest or darkest variant.
    pub fn navigate(&self, current: &str, direction: &str) -> (r: Result<String, VogixError>)
        ensures
            forall|p: Seq<int>| #[trigger] is_stable_order(self.variants@, p) ==>
                match navigate_to(self.variants@, p, current@, direction@) {
                    Some(n) => r matches Ok(s) && s@ == n,
                    None => r matches Err(VogixError::InvalidTheme(_)),
                },
    {
        let sorted = self.variants_by_order();
        let ghost q = choose|p: Seq<int>| is_stable_order(self.variants@, p) && sorted@.len() == p.len()
            && forall|a: int| 0 <= a < p.len() ==> *(#[trigger] sorted@[a]) == self.variants@[p[a]];
        proof {
            lemma_stable_order_unique(self.variants@, q);
        }
        let target = lowercase(current);
        let mut k: usize = 0;
        assert(first_named(self.variants@, q, target@, 0) == first_named(self.variants@, q, target@, k as int));
        while k < sorted.len() && !same_text(lowercase(sorted[k].name.as_str()).as_str(), target.as_str())
            invariant
                is_stable_order(self.variants@, q),
                sorted@.len() == q.len(),
                forall|a: int| 0 <= a < q.len() ==> *(#[trigger] sorted@[a]) == self.variants@[q[a]],
                k <= sorted@.len(),
                target@ == lower_of(current@),
                first_named(self.variants@, q, target@, 0) == first_named(self.variants@, q, target@, k as int),
            decreases sorted.len() - k,
        {
            k = k + 1;
        }
        if k == sorted.len() {
            let mut msg = owned("Variant '");
            push_text(&mut msg, current);
            push_text(&mut msg, "' not found in theme");
            return Err(VogixError::InvalidTheme(msg));
        }
        assert(first_named(self.variants@, q, target@, 0) == k);
        let dir = lowercase(direction);
        if same_text(dir.as_str(), "darker") {
            if k + 1 >= sorted.len() {
                Err(VogixError::InvalidTheme(owned("Already at darkest variant")))
            } else {
                Ok(owned(sorted[k + 1].name.as_str()))
            }
        } else if same_text(dir.as_str(), "lighter") {
            if k == 0 {
                Err(VogixError::InvalidTheme(owned("Already at lightest variant")))
            } else {
                Ok(owned(sorted[k - 1].name.as_str()))
            }
        } else {
            let mut msg = owned("Unknown direction: ");
            push_text(&mut msg, direction);
            push_text(&mut msg, ". Use 'darker' or 'lighter'");
            Err(VogixError::InvalidTheme(msg))
        }
    }
}

/// The stable order is unique.
pub proof fn lemma_stable_order_unique(vs: Seq<VariantInfo>, p: Seq<int>)
    requires
        is_stable_order(vs, p),
    ensures
        forall|q: Seq<int>| #[trigger] is_stable_order(vs, q) ==> q == p,
{
    assert forall|q: Seq<int>| #[trigger] is_stable_order(vs, q) implies q == p by {
        lemma_orders_agree(vs, p, q);
    }
}

/// A stable order lists every index.
proof fn lemma_stable_order_covers(vs: Seq<VariantInfo>, p: Seq<int>)
    requires
        is_stable_order(vs, p),
    ensures
        p.no_duplicates(),
        forall|v: int| 0 <= v < vs.len() ==> p.contains(v),
{
    assert(p.no_duplicates()) by {
        assert forall|a: int, b: int| 0 <= a < p.len() && 0 <= b < p.len() && a != b implies p[a] != p[b] by {
            if a < b {
                assert(before(vs, p[a], p[b]));
            } else {
                assert(before(vs, p[b], p[a]));
            }
        }
    }
    p.unique_seq_to_set();
    vstd::set_lib::lemma_int_range(0, vs.len() as int);
    assert(p.to_set().subset_of(vstd::set_lib::set_int_range(0, vs.len() as int))) by {
        assert forall|v: int| p.to_set().contains(v) implies vstd::set_lib::set_int_range(0, vs.len() as int).contains(v) by {
            let a = choose|a: int| 0 <= a < p.len() && p[a] == v;
            assert(0 <= p[a] < vs.len());
        }
    }
    vstd::set_lib::lemma_subset_equality(p.to_set(), vstd::set_lib::set_int_range(0, vs.len() as int));
    assert forall|v: int| 0 <= v < vs.len() implies p.contains(v) by {
        assert(vstd::set_lib::set_int_range(0, vs.len() as int).contains(v));
        assert(p.to_set().contains(v));
    }
}

/// Two stable orders of the same variants agree: at the first position where
/// they differ, each would have to come before the other.
proof fn lemma_orders_agree(vs: Seq<VariantInfo>, p: Seq<int>, q: Seq<int>)
    requires
        is_stable_order(vs, p),
        is_stable_order(vs, q),
    ensures
        p == q,
{
    lemma_stable_order_covers(vs, p);
    lemma_stable_order_covers(vs, q);
    if p != q {
        assert(!(p =~= q));
        let a = choose|a: int| 0 <= a < p.len() && p[a] != q[a];
        lemma_first_difference(p, q, a);
        let first = choose|f: int| 0 <= f < p.len() && p[f] != q[f] && forall|g: int| 0 <= g < f ==> p[g] == q[g];
        let x = p[first];
        let y = q[first];
        assert(q.contains(x));
        let a2 = choose|k: int| 0 <= k < q.len() && q[k] == x;
        assert(p.contains(y));
        let b2 = choose|k: int| 0 <= k < p.len() && p[k] == y;
        if a2 < first {
            assert(p[a2] == q[a2]);
            assert(p[a2] == p[first]);
        }
        if b2 < first {
            assert(q[b2] == p[b2]);
            assert(q[b2] == q[first]);
        }
        assert(a2 != first && b2 != first);
        assert(before(vs, q[first], q[a2]));
        assert(before(vs, p[first], p[b2]));
    }
}

proof fn lemma_first_difference(p: Seq<int>, q: Seq<int>, a: int)
    requires
        0 <= a < p.len(),
        p.len() == q.len(),
        p[a] != q[a],
    ensures
        exists|f: int| 0 <= f < p.len() && p[f] != q[f] && forall|g: int| 0 <= g < f ==> p[g] == q[g],
    decreases a,
{
    if exists|g: int| 0 <= g < a && p[g] != q[g] {
        let g = choose|g: int| 0 <= g < a && p[g] != q[g];
        lemma_first_difference(p, q, g);
    } else {
        assert(forall|g: int| 0 <= g < a ==> p[g] == q[g]);
    }
}

/// Plain view of a list of themes.
pub open spec fn themes_view(ts: Seq<ThemeInfo>) -> Seq<(Seq<char>, Scheme, Seq<(Seq<char>, Seq<char>, u32)>)> {
    ts.map_values(|t: ThemeInfo| t@)
}

fn copy_variant(v: &VariantInfo) -> (r: VariantInfo)
    ensures
        r@ == v@,
{
    VariantInfo { name: owned(v.name.as_str()), polarity: owned(v.polarity.as_str()), order: v.order }
}

impl ThemeInfo {
    /// An independent copy of the theme.
    pub fn copy(&self) -> (r: ThemeInfo)
        ensures
            r@ == self@,
    {
        let mut variants: Vec<VariantInfo> = Vec::new();
        let mut i: usize = 0;
        while i < self.variants.len()
            invariant
                i <= self.variants@.len(),
                variants_view(variants@) == variants_view(self.variants@).subrange(0, i as int),
            decreases self.variants.len() - i,
        {
            let ghost before = variants@;
            variants.push(copy_variant(&self.variants[i]));
            assert(variants_view(variants@) =~= variants_view(before).push(self.variants@[i as int]@));
            assert(variants_view(variants@) =~= variants_view(self.variants@).subrange(0, i + 1));
            i = i + 1;
        }
        assert(variants_view(self.variants@).subrange(0, i as int) =~= variants_view(self.variants@));
        ThemeInfo { name: owned(self.name.as_str()), scheme: self.scheme, variants }
    }
}

/// The themes of a scheme, in order.
pub open spec fn of_scheme(ts: Seq<(Seq<char>, Scheme, Seq<(Seq<char>, Seq<char>, u32)>)>, scheme: Scheme) -> Seq<(Seq<char>, Scheme, Seq<(Seq<char>, Seq<char>, u32)>)>
    decreases ts.len(),
{
    if ts.len() == 0 {
        Seq::empty()
    } else {
        let s = of_scheme(ts.drop_last(), scheme);
        if ts.last().1 == scheme {
            s.push(ts.last())
        } else {
            s
        }
    }
}

/// Copies of the themes of the given scheme, in order.
pub fn filter_by_scheme(themes: &[ThemeInfo], scheme: &Scheme) -> (r: Vec<ThemeInfo>)
    ensures
        themes_view(r@) == of_scheme(themes_view(themes@), *scheme),
{
    let mut r: Vec<ThemeInfo> = Vec::new();
    let mut i: usize = 0;
    assert(themes_view(themes@).subrange(0, 0) =~= Seq::<(Seq<char>, Scheme, Seq<(Seq<char>, Seq<char>, u32)>)>::empty());
    assert(themes_view(r@) =~= Seq::<(Seq<char>, Scheme, Seq<(Seq<char>, Seq<char>, u32)>)>::empty());
    while i < themes.len()
        invariant
            i <= themes@.len(),
            themes_view(r@) == of_scheme(themes_view(themes@).subrange(0, i as int), *scheme),
        decreases themes.len() - i,
    {
        assert(themes_view(themes@).subrange(0, i + 1).drop_last() =~= themes_view(themes@).subrange(0, i as int));
        if themes[i].scheme == *scheme {
            let ghost before = r@;
            r.push(themes[i].copy());
            assert(themes_view(r@) =~= themes_view(before).push(themes@[i as int]@));
        }
        i = i + 1;
    }
    assert(themes_view(themes@).subrange(0, themes@.len() as int) =~= themes_view(themes@));
    r
}

/// A copy of the first theme with the given name.
pub fn get_theme(themes: &[ThemeInfo], name: &str) -> (r: Option<ThemeInfo>)
    ensures
        match r {
            Some(t) => exists|i: int| 0 <= i < themes@.len() && (#[trigger] themes@[i]).name@ == name@
                && t@ == themes@[i]@ && forall|j: int| 0 <= j < i ==> (#[trigger] themes@[j]).name@ != name@,
            None => forall|i: int| 0 <= i < themes@.len() ==> (#[trigger] themes@[i]).name@ != name@,
        },
{
    let mut i: usize = 0;
    while i < themes.len()
        invariant
            i <= themes@.len(),
            forall|j: int| 0 <= j < i ==> (#[trigger] themes@[j]).name@ != name@,
        decreases themes.len() - i,
    {
        if same_text(themes[i].name.as_str(), name) {
            return Some(themes[i].copy());
        }
        i = i + 1;
    }
    None
}

/// Polarity inferred from a variant's name: light for a name holding
/// `light`, or named `dawn` or `latte` (ignoring case); dark otherwise.
pub open spec fn inferred_polarity(name: Seq<char>) -> Seq<char> {
    let l = lower_of(name);
    if contains_text(l, "light"@) || l == "dawn"@ || l == "latte"@ {
        "light"@
    } else {
        "dark"@
    }
}

/// The strings of a list, in order.
pub open spec fn text_items(items: Seq<Tree>) -> Seq<Seq<char>>
    decreases items.len(),
{
    if items.len() == 0 {
        Seq::empty()
    } else {
        let s = text_items(items.drop_last());
        match items.last() {
            Tree::Text(x) => s.push(x@),
            _ => s,
        }
    }
}

/// The variant names of a theme table: the strings of its `variants` array,
/// or `dark` and `light` where `variants` is not an array.
pub open spec fn variant_names(t: Tree) -> Seq<Seq<char>> {
    match field(t, "variants"@) {
        Some(Tree::List(items)) => text_items(items@),
        _ => seq!["dark"@, "light"@],
    }
}

/// The variant `name`, listed at position `idx` of theme table `t`: its
/// details table gives polarity (default dark) and order (default `idx`);
/// without one, polarity is inferred from the name and order is `idx`.
pub open spec fn variant_of(t: Tree, name: Seq<char>, idx: int) -> (Seq<char>, Seq<char>, u32) {
    match field(t, name) {
        Some(d) => if d is Table {
            (
                name,
                match text_field(d, "polarity"@) {
                    Some(p) => p,
                    None => "dark"@,
                },
                match field(d, "order"@) {
                    Some(Tree::Integer(n)) => n as u32,
                    _ => idx as u32,
                },
            )
        } else {
            (name, inferred_polarity(name), idx as u32)
        },
        None => (name, inferred_polarity(name), idx as u32),
    }
}

/// The scheme a theme table names; vogix16 where it names none or an unknown one.
pub open spec fn scheme_of(t: Tree) -> Scheme {
    match text_field(t, "scheme"@) {
        Some(s) => match scheme_named(lower_of(s)) {
            Some(k) => k,
            None => Scheme::Vogix16,
        },
        None => Scheme::Vogix16,
    }
}

/// The theme that table `t` under `name` describes.
pub open spec fn theme_of(name: Seq<char>, t: Tree) -> (Seq<char>, Scheme, Seq<(Seq<char>, Seq<char>, u32)>) {
    let names = variant_names(t);
    (name, scheme_of(t), Seq::new(names.len(), |i: int| variant_of(t, names[i], i)))
}

/// The themes of a `[themes]` table, in order: each entry that is a table
/// with a `variants` key.
pub open spec fn themes_of(es: Seq<(Option<String>, Tree)>) -> Seq<(Seq<char>, Scheme, Seq<(Seq<char>, Seq<char>, u32)>)>
    decreases es.len(),
{
    if es.len() == 0 {
        Seq::empty()
    } else {
        let s = themes_of(es.drop_last());
        match es.last() {
            (Some(name), Tree::Table(t)) => if lookup(t@, "variants"@) is Some {
                s.push(theme_of(name@, es.last().1))
            } else {
                s
            },
            _ => s,
        }
    }
}

/// The themes a manifest document lists.
pub open spec fn manifest_themes(doc: Tree) -> Seq<(Seq<char>, Scheme, Seq<(Seq<char>, Seq<char>, u32)>)> {
    match field(doc, "themes"@) {
        Some(Tree::Table(es)) => themes_of(es@),
        _ => Seq::empty(),
    }
}

/// Polarity inferred from a variant's name.
fn infer_polarity(name: &str) -> (r: String)
    ensures
        r@ == inferred_polarity(name@),
{
    let l = lowercase(name);
    if find_text(l.as_str(), "light") || same_text(l.as_str(), "dawn") || same_text(l.as_str(), "latte") {
        owned("light")
    } else {
        owned("dark")
    }
}

fn text_items_of(items: &Vec<Tree>) -> (r: Vec<String>)
    ensures
        names_view(r@) == text_items(items@),
{
    let mut r: Vec<String> = Vec::new();
    let mut i: usize = 0;
    assert(items@.subrange(0, 0) =~= Seq::<Tree>::empty());
    assert(names_view(r@) =~= Seq::<Seq<char>>::empty());
    while i < items.len()
        invariant
            i <= items@.len(),
            names_view(r@) == text_items(items@.subrange(0, i as int)),
        decreases items.len() - i,
    {
        assert(items@.subrange(0, i + 1).drop_last() =~= items@.subrange(0, i as int));
        match &items[i] {
            Tree::Text(x) => {
                let ghost before = r@;
                r.push(owned(x.as_str()));
                assert(names_view(r@) =~= names_view(before).push(x@));
            },
            _ => {},
        }
        i = i + 1;
    }
    assert(items@.subrange(0, items@.len() as int) =~= items@);
    r
}

fn variant_names_of(t: &Tree) -> (r: Vec<String>)
    ensures
        names_view(r@) == variant_names(*t),
{
    match get_field(t, "variants") {
        Some(Tree::List(items)) => text_items_of(items),
        _ => {
            let r = vec![owned("dark"), owned("light")];
            assert(names_view(r@) =~= seq!["dark"@, "light"@]);
            r
        },
    }
}

fn make_variant(t: &Tree, name: &String, idx: usize) -> (r: VariantInfo)
    ensures
        r@ == variant_of(*t, name@, idx as int),
{
    match get_field(t, name.as_str()) {
        Some(d) => {
            match d {
                Tree::Table(_) => {
                    let polarity = match get_text(d, "polarity") {
                        Some(p) => owned(p.as_str()),
                        None => owned("dark"),
                    };
                    let order = match get_field(d, "order") {
                        Some(Tree::Integer(n)) => *n as u32,
                        _ => idx as u32,
                    };
                    VariantInfo { name: owned(name.as_str()), polarity, order }
                },
                _ => VariantInfo { name: owned(name.as_str()), polarity: infer_polarity(name.as_str()), order: idx as u32 },
            }
        },
        None => VariantInfo { name: owned(name.as_str()), polarity: infer_polarity(name.as_str()), order: idx as u32 },
    }
}

fn make_theme(name: &String, t: &Tree) -> (r: ThemeInfo)
    ensures
        r@ == theme_of(name@, *t),
{
    let scheme = match get_text(t, "scheme") {
        Some(s) => {
            let l = lowercase(s.as_str());
            match Scheme::from_lowercase(l.as_str()) {
                Some(k) => k,
                None => Scheme::Vogix16,
            }
        },
        None => Scheme::Vogix16,
    };
    let names = variant_names_of(t);
    let ghost want = theme_of(name@, *t).2;
    let mut variants: Vec<VariantInfo> = Vec::new();
    let mut i: usize = 0;
    while i < names.len()
        invariant
            names_view(names@) == variant_names(*t),
            want == theme_of(name@, *t).2,
            i <= names@.len(),
            variants_view(variants@) == want.subrange(0, i as int),
        decreases names.len() - i,
    {
        let ghost before = variants@;
        variants.push(make_variant(t, &names[i], i));
        assert(names_view(names@)[i as int] == names@[i as int]@);
        assert(want[i as int] == variant_of(*t, names@[i as int]@, i as int));
        assert(variants_view(variants@) =~= variants_view(before).push(variants@[i as int]@));
        assert(variants_view(variants@) =~= want.subrange(0, i + 1));
        i = i + 1;
    }
    assert(want.subrange(0, i as int) =~= want);
    ThemeInfo { name: owned(name.as_str()), scheme, variants }
}

/// Theme `a` sorts before theme `b`: by name, ties kept in list order.
pub open spec fn name_before(ts: Seq<(Seq<char>, Scheme, Seq<(Seq<char>, Seq<char>, u32)>)>, a: int, b: int) -> bool {
    text_lt(ts[a].0, ts[b].0) || (ts[a].0 == ts[b].0 && a < b)
}

/// `p` lists the indices of `ts` sorted by name, ties kept in list order.
pub open spec fn is_name_order(ts: Seq<(Seq<char>, Scheme, Seq<(Seq<char>, Seq<char>, u32)>)>, p: Seq<int>) -> bool {
    p.len() == ts.len()
        && (forall|a: int| 0 <= a < p.len() ==> 0 <= #[trigger] p[a] < ts.len())
        && (forall|a: int, b: int| 0 <= a < b < p.len() ==> name_before(ts, #[trigger] p[a], #[trigger] p[b]))
}

/// The indices of the themes, stably sorted by name.
fn name_order_indices(ts: &Vec<ThemeInfo>) -> (r: Vec<usize>)
    ensures
        is_name_order(themes_view(ts@), r@.map_values(|i: usize| i as int)),
{
    let ghost tv = themes_view(ts@);
    let mut r: Vec<usize> = Vec::new();
    let mut i: usize = 0;
    while i < ts.len()
        invariant
            tv == themes_view(ts@),
            i <= ts@.len(),
            r@.len() == i,
            forall|a: int| 0 <= a < r@.len() ==> #[trigger] r@[a] < i,
            forall|a: int, b: int| 0 <= a < b < r@.len() ==> name_before(tv, #[trigger] r@[a] as int, #[trigger] r@[b] as int),
        decreases ts.len() - i,
    {
        let mut p: usize = 0;
        while p < r.len() && !text_less(ts[i].name.as_str(), ts[r[p]].name.as_str())
            invariant
                tv == themes_view(ts@),
                i < ts@.len(),
                p <= r@.len(),
                forall|a: int| 0 <= a < r@.len() ==> #[trigger] r@[a] < i,
                forall|a: int| 0 <= a < p ==> !text_lt(tv[i as int].0, tv[#[trigger] r@[a] as int].0),
            decreases r.len() - p,
        {
            p = p + 1;
        }
        let ghost old_r = r@;
        r.insert(p, i);
        assert forall|a: int, b: int| 0 <= a < b < r@.len() implies name_before(tv, #[trigger] r@[a] as int, #[trigger] r@[b] as int) by {
            if b < p {
                assert(r@[a] == old_r[a] && r@[b] == old_r[b]);
            } else if b == p {
                assert(r@[a] == old_r[a]);
                lemma_text_lt_order(tv[i as int].0, tv[old_r[a] as int].0, tv[i as int].0);
            } else if a == p {
                assert(r@[b] == old_r[b - 1]);
                let x = old_r[p as int] as int;
                let y = old_r[b - 1] as int;
                assert(text_lt(tv[i as int].0, tv[x].0));
                if b - 1 > p {
                    assert(name_before(tv, x, y));
                    lemma_text_lt_order(tv[i as int].0, tv[x].0, tv[y].0);
                }
            } else if a < p {
                assert(r@[a] == old_r[a] && r@[b] == old_r[b - 1]);
            } else {
                assert(r@[a] == old_r[a - 1] && r@[b] == old_r[b - 1]);
            }
        }
        i = i + 1;
    }
    let ghost q = r@.map_values(|i: usize| i as int);
    assert forall|a: int, b: int| 0 <= a < b < q.len() implies name_before(tv, #[trigger] q[a], #[trigger] q[b]) by {
        assert(name_before(tv, r@[a] as int, r@[b] as int));
    }
    r
}

/// The themes that a TOML manifest lists under `[themes]`, sorted by name
/// (ties kept in table order).
pub fn parse_themes_from_manifest(content: &str) -> (r: Result<Vec<ThemeInfo>, VogixError>)
    ensures
        match toml_document(content@) {
            None => r == Err::<Vec<ThemeInfo>, VogixError>(VogixError::TomlParse),
            Some(doc) => r matches Ok(v) && exists|p: Seq<int>| is_name_order(manifest_themes(doc), p)
                && v@.len() == p.len() && forall|a: int| 0 <= a < p.len() ==> (#[trigger] v@[a])@ == manifest_themes(doc)[p[a]],
        },
{
    let listed = listed_themes(content)?;
    let idx = name_order_indices(&listed);
    let ghost p = idx@.map_values(|i: usize| i as int);
    let mut sorted: Vec<ThemeInfo> = Vec::new();
    let mut k: usize = 0;
    while k < idx.len()
        invariant
            p == idx@.map_values(|i: usize| i as int),
            is_name_order(themes_view(listed@), p),
            k <= idx@.len(),
            sorted@.len() == k,
            forall|a: int| 0 <= a < k ==> (#[trigger] sorted@[a])@ == themes_view(listed@)[p[a]],
        decreases idx.len() - k,
    {
        assert(0 <= p[k as int] < listed@.len());
        sorted.push(listed[idx[k]].copy());
        k = k + 1;
    }
    Ok(sorted)
}

/// The themes that a TOML manifest lists under `[themes]`, in table order.
fn listed_themes(content: &str) -> (r: Result<Vec<ThemeInfo>, VogixError>)
    ensures
        match toml_document(content@) {
            None => r == Err::<Vec<ThemeInfo>, VogixError>(VogixError::TomlParse),
            Some(doc) => r matches Ok(v) && themes_view(v@) == manifest_themes(doc),
        },
{
    let doc = match parse_toml(content) {
        Some(d) => d,
        None => {
            return Err(VogixError::TomlParse);
        },
    };
    let mut themes: Vec<ThemeInfo> = Vec::new();
    match get_field(&doc, "themes") {
        Some(Tree::Table(es)) => {
            let mut i: usize = 0;
            assert(es@.subrange(0, 0) =~= Seq::<(Option<String>, Tree)>::empty());
            assert(themes_view(themes@) =~= Seq::<(Seq<char>, Scheme, Seq<(Seq<char>, Seq<char>, u32)>)>::empty());
            while i < es.len()
                invariant
                    i <= es@.len(),
                    themes_view(themes@) == themes_of(es@.subrange(0, i as int)),
                decreases es.len() - i,
            {
                assert(es@.subrange(0, i + 1).drop_last() =~= es@.subrange(0, i as int));
                match (&es[i].0, &es[i].1) {
                    (Some(name), Tree::Table(t)) => {
                        if lookup_entry(t, "variants").is_some() {
                            let ghost before = themes@;
                            themes.push(make_theme(name, &es[i].1));
                            assert(themes_view(themes@) =~= themes_view(before).push(theme_of(name@, es@[i as int].1)));
                        }
                    },
                    _ => {},
                }
                i = i + 1;
            }
            assert(es@.subrange(0, es@.len() as int) =~= es@);
        },
        _ => {},
    }
    Ok(themes)
}

/// Index of the first theme from `from` on named `name`; -1 if none.
pub open spec fn first_theme(ts: Seq<ThemeInfo>, name: Seq<char>, from: int) -> int
    decreases ts.len() - from,
{
    if from < 0 || from >= ts.len() {
        -1
    } else if ts[from].name@ == name {
        from
    } else {
        first_theme(ts, name, from + 1)
    }
}

/// Index of the first variant from `from` on whose lower-cased name is `target`; -1 if none.
pub open spec fn first_variant_named(vs: Seq<VariantInfo>, target: Seq<char>, from: int) -> int
    decreases vs.len() - from,
{
    if from < 0 || from >= vs.len() {
        -1
    } else if lower_of(vs[from].name@) == target {
        from
    } else {
        first_variant_named(vs, target, from + 1)
    }
}

/// Index of the first variant from `from` on with the given polarity; -1 if none.
pub open spec fn first_with_polarity(vs: Seq<VariantInfo>, polarity: Seq<char>, from: int) -> int
    decreases vs.len() - from,
{
    if from < 0 || from >= vs.len() {
        -1
    } else if vs[from].polarity@ == polarity {
        from
    } else {
        first_with_polarity(vs, polarity, from + 1)
    }
}

/// The variant a request names in theme `name`: a variant of that name
/// (ignoring case); else the only variant of a single-variant theme; else,
/// for `dark` or `light`, the first variant of that polarity. `None` where
/// the theme is unknown or nothing matches.
pub open spec fn resolved_variant(ts: Seq<ThemeInfo>, name: Seq<char>, requested: Seq<char>) -> Option<Seq<char>> {
    let i = first_theme(ts, name, 0);
    if i < 0 {
        None
    } else {
        let vs = ts[i].variants@;
        let r = lower_of(requested);
        let k = first_variant_named(vs, r, 0);
        if k >= 0 {
            Some(vs[k].name@)
        } else if vs.len() == 1 {
            Some(vs[0].name@)
        } else if r == "dark"@ || r == "light"@ {
            let j = first_with_polarity(vs, r, 0);
            if j >= 0 {
                Some(vs[j].name@)
            } else {
                None
            }
        } else {
            None
        }
    }
}

/// A found theme index lies in range.
proof fn lemma_first_theme_range(ts: Seq<ThemeInfo>, name: Seq<char>, from: int)
    ensures
        first_theme(ts, name, from) == -1 || (from <= first_theme(ts, name, from) < ts.len()),
    decreases ts.len() - from,
{
    if 0 <= from < ts.len() && ts[from].name@ != name {
        lemma_first_theme_range(ts, name, from + 1);
    }
}

/// Index of the first theme named `name`.
pub fn find_theme(themes: &[ThemeInfo], name: &str) -> (r: Option<usize>)
    ensures
        match r {
            Some(i) => i as int == first_theme(themes@, name@, 0) && i < themes@.len(),
            None => first_theme(themes@, name@, 0) == -1,
        },
{
    proof {
        lemma_first_theme_range(themes@, name@, 0);
    }
    let mut i: usize = 0;
    while i < themes.len()
        invariant
            i <= themes@.len(),
            first_theme(themes@, name@, 0) == first_theme(themes@, name@, i as int),
        decreases themes.len() - i,
    {
        if same_text(themes[i].name.as_str(), name) {
            return Some(i);
        }
        i = i + 1;
    }
    None
}

/// Resolves a requested variant (a name, or `dark` / `light`) in a theme.
pub fn resolve_variant(themes: &[ThemeInfo], theme_name: &str, requested: &str) -> (r: Result<String, VogixError>)
    ensures
        match resolved_variant(themes@, theme_name@, requested@) {
            Some(n) => r matches Ok(s) && s@ == n,
            None => r matches Err(VogixError::InvalidTheme(_)),
        },
{
    let ti = match find_theme(themes, theme_name) {
        Some(i) => i,
        None => {
            let mut msg = owned("Theme '");
            push_text(&mut msg, theme_name);
            push_text(&mut msg, "' not found");
            return Err(VogixError::InvalidTheme(msg));
        },
    };
    let vs = &themes[ti].variants;
    let wanted = lowercase(requested);
    let mut k: usize = 0;
    while k < vs.len()
        invariant
            *vs == themes@[ti as int].variants,
            ti as int == first_theme(themes@, theme_name@, 0),
            wanted@ == lower_of(requested@),
            k <= vs@.len(),
            first_variant_named(vs@, wanted@, 0) == first_variant_named(vs@, wanted@, k as int),
        decreases vs.len() - k,
    {
        if same_text(lowercase(vs[k].name.as_str()).as_str(), wanted.as_str()) {
            return Ok(owned(vs[k].name.as_str()));
        }
        k = k + 1;
    }
    if vs.len() == 1 {
        return Ok(owned(vs[0].name.as_str()));
    }
    if same_text(wanted.as_str(), "dark") || same_text(wanted.as_str(), "light") {
        let mut j: usize = 0;
        while j < vs.len()
            invariant
                *vs == themes@[ti as int].variants,
                ti as int == first_theme(themes@, theme_name@, 0),
                wanted@ == lower_of(requested@),
                first_variant_named(vs@, wanted@, 0) == -1,
                vs@.len() != 1,
                wanted@ == "dark"@ || wanted@ == "light"@,
                j <= vs@.len(),
                first_with_polarity(vs@, wanted@, 0) == first_with_polarity(vs@, wanted@, j as int),
            decreases vs.len() - j,
        {
            if same_text(vs[j].polarity.as_str(), wanted.as_str()) {
                return Ok(owned(vs[j].name.as_str()));
            }
            j = j + 1;
        }
        let mut msg = owned("Theme '");
        push_text(&mut msg, theme_name);
        push_text(&mut msg, "' has no '");
        push_text(&mut msg, requested);
        push_text(&mut msg, "' variant");
        return Err(VogixError::InvalidTheme(msg));
    }
    let mut msg = owned("Variant '");
    push_text(&mut msg, requested);
    push_text(&mut msg, "' not found in theme '");
    push_text(&mut msg, theme_name);
    push_text(&mut msg, "'");
    Err(VogixError::InvalidTheme(msg))
}

/// The darker or lighter neighbour of the current variant of the current theme.
pub fn navigate_variant(themes: &[ThemeInfo], current_theme: &str, current_variant: &str, direction: &str) -> (r: Result<String, VogixError>)
    ensures
        first_theme(themes@, current_theme@, 0) == -1 ==> r matches Err(VogixError::InvalidTheme(_)),
        first_theme(themes@, current_theme@, 0) >= 0 ==> forall|p: Seq<int>|
            #[trigger] is_stable_order(themes@[first_theme(themes@, current_theme@, 0)].variants@, p) ==>
                match navigate_to(themes@[first_theme(themes@, current_theme@, 0)].variants@, p, current_variant@, direction@) {
                    Some(n) => r matches Ok(s) && s@ == n,
                    None => r matches Err(VogixError::InvalidTheme(_)),
                },
{
    match find_theme(themes, current_theme) {
        Some(i) => themes[i].navigate(current_variant, direction),
        None => {
            let mut msg = owned("Theme '");
            push_text(&mut msg, current_theme);
            push_text(&mut msg, "' not found");
            Err(VogixError::InvalidTheme(msg))
        },
    }
}

} // verus!
