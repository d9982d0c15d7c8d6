//! Structured documents (TOML or YAML) held as plain values: the parts
//! that palette and manifest readers look at.

use vstd::prelude::*;
use crate::text::same_text;

verus! {

/// One value of a parsed document.
#[derive(Debug)]
pub enum Tree {
    /// A string.
    Text(String),
    /// An integer.
    Integer(i64),
    /// An array or sequence.
    List(Vec<Tree>),
    /// A table or mapping; a key that is not a string is `None`.
    Table(Vec<(Option<String>, Tree)>),
    /// Any other kind of value (boolean, float, date, null, tagged).
    Other,
}

/// The value of the first entry whose key is `key`.
pub open spec fn lookup(es: Seq<(Option<String>, Tree)>, key: Seq<char>) -> Option<Tree>
    decreases es.len(),
{
    if es.len() == 0 {
        None
    } else if es[0].0 matches Some(k) && k@ == key {
        Some(es[0].1)
    } else {
        lookup(es.drop_first(), key)
    }
}

/// The value stored under `key` when `t` is a table.
pub open spec fn field(t: Tree, key: Seq<char>) -> Option<Tree> {
    match t {
        Tree::Table(es) => lookup(es@, key),
        _ => None,
    }
}

/// The string stored under `key` when `t` is a table and that value is a string.
pub open spec fn text_field(t: Tree, key: Seq<char>) -> Option<Seq<char>> {
    match field(t, key) {
        Some(Tree::Text(s)) => Some(s@),
        _ => None,
    }
}

/// What `toml::from_str` makes of a document, or `None` where it rejects it.
pub uninterp spec fn toml_document(s: Seq<char>) -> Option<Tree>;

/// What `serde_yaml::from_str` makes of a document, or `None` where it rejects it.
pub uninterp spec fn yaml_document(s: Seq<char>) -> Option<Tree>;

/// A parsed TOML value, carried through unread.
#[verifier::external_type_specification]
#[verifier::external_body]
pub struct ExTomlValue(toml::Value);

/// A parsed YAML value, carried through unread.
#[verifier::external_type_specification]
#[verifier::external_body]
pub struct ExYamlValue(serde_yaml::Value);

/// Carries a TOML value over into a `Tree`.
#[verifier::external_body]
fn tree_of_toml(v: &toml::Value) -> Tree {
    match v {
        toml::Value::String(s) => Tree::Text(s.clone()),
        toml::Value::Integer(n) => Tree::Integer(*n),
        toml::Value::Array(a) => Tree::List(a.iter().map(tree_of_toml).collect()),
        toml::Value::Table(t) => Tree::Table(t.iter().map(|(k, x)| (Some(k.clone()), tree_of_toml(x))).collect()),
        _ => Tree::Other,
    }
}

/// Carries a YAML value over into a `Tree`.
#[verifier::external_body]
fn tree_of_yaml(v: &serde_yaml::Value) -> Tree {
    match v {
        serde_yaml::Value::String(s) => Tree::Text(s.clone()),
        serde_yaml::Value::Number(n) => n.as_i64().map_or(Tree::Other, Tree::Integer),
        serde_yaml::Value::Sequence(a) => Tree::List(a.iter().map(tree_of_yaml).collect()),
        serde_yaml::Value::Mapping(m) => Tree::Table(m.iter().map(|(k, x)| (k.as_str().map(String::from), tree_of_yaml(x))).collect()),
        _ => Tree::Other,
    }
}

/// Relies on `toml::from_str`: parses a TOML document; the result depends on the text alone.
#[verifier::external_body]
pub(crate) fn parse_toml(content: &str) -> (r: Option<Tree>)
    ensures
        r == toml_document(content@),
{
    toml::from_str::<toml::Value>(content).ok().map(|v| tree_of_toml(&v))
}

/// Relies on `serde_yaml::from_str`: parses a YAML document; the result depends on the text alone.
#[verifier::external_body]
pub(crate) fn parse_yaml(content: &str) -> (r: Option<Tree>)
    ensures
        r == yaml_document(content@),
{
    serde_yaml::from_str::<serde_yaml::Value>(content).ok().map(|v| tree_of_yaml(&v))
}

/// The value stored under `key` in a table's entries.
pub fn lookup_entry<'a>(es: &'a Vec<(Option<String>, Tree)>, key: &str) -> (r: Option<&'a Tree>)
    ensures
        match lookup(es@, key@) {
            Some(t) => r == Some(&t),
            None => r is None,
        },
{
    let mut i: usize = 0;
    assert(es@.subrange(0, es@.len() as int) =~= es@);
    while i < es.len()
        invariant
            i <= es@.len(),
            lookup(es@, key@) == lookup(es@.subrange(i as int, es@.len() as int), key@),
        decreases es.len() - i,
    {
        let ghost rest = es@.subrange(i as int, es@.len() as int);
        assert(rest.drop_first() =~= es@.subrange(i + 1, es@.len() as int));
        match &es[i].0 {
            Some(k) => {
                if same_text(k.as_str(), key) {
                    return Some(&es[i].1);
                }
            },
            None => {},
        }
        i = i + 1;
    }
    None
}

/// The value stored under `key` when `t` is a table.
pub fn get_field<'a>(t: &'a Tree, key: &str) -> (r: Option<&'a Tree>)
    ensures
        match field(*t, key@) {
            Some(v) => r == Some(&v),
            None => r is None,
        },
{
    match t {
        Tree::Table(es) => lookup_entry(es, key),
        _ => None,
    }
}

/// The string stored under `key` when `t` is a table and the value is a string.
pub fn get_text<'a>(t: &'a Tree, key: &str) -> (r: Option<&'a String>)
    ensures
        match text_field(*t, key@) {
            Some(s) => r matches Some(v) && v@ == s,
            None => r is None,
        },
{
    match get_field(t, key) {
        Some(Tree::Text(s)) => Some(s),
        _ => None,
    }
}

} // verus!
