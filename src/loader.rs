//! Palette sources of each scheme read into a `ColorMap`.

use vstd::prelude::*;
use crate::colors::ColorMap;
use crate::tree::{Tree, field, get_field};
use crate::text::owned;
use crate::errors::VogixError;
use crate::scheme::Scheme;
use crate::tree::{parse_toml, parse_yaml, toml_document, yaml_document};

verus! {

/// Raw key and semantic alias of each native colour, in order.
pub open spec fn semantic_table() -> Seq<(&'static str, &'static str)> {
    seq![
        ("base00", "background"),
        ("base01", "background_surface"),
        ("base02", "background_selection"),
        ("base03", "foreground_comment"),
        ("base04", "foreground_border"),
        ("base05", "foreground_text"),
        ("base06", "foreground_heading"),
        ("base07", "foreground_bright"),
        ("base08", "success"),
        ("base09", "warning"),
        ("base0A", "notice"),
        ("base0B", "danger"),
        ("base0C", "active"),
        ("base0D", "link"),
        ("base0E", "highlight"),
        ("base0F", "special"),
    ]
}

/// Position of `k` among the semantic aliases, or 16 when it is none of them.
pub open spec fn alias_rank(k: Seq<char>) -> int {
    if k == "background"@ {
        0
    } else if k == "background_surface"@ {
        1
    } else if k == "background_selection"@ {
        2
    } else if k == "foreground_comment"@ {
        3
    } else if k == "foreground_border"@ {
        4
    } else if k == "foreground_text"@ {
        5
    } else if k == "foreground_heading"@ {
        6
    } else if k == "foreground_bright"@ {
        7
    } else if k == "success"@ {
        8
    } else if k == "warning"@ {
        9
    } else if k == "notice"@ {
        10
    } else if k == "danger"@ {
        11
    } else if k == "active"@ {
        12
    } else if k == "link"@ {
        13
    } else if k == "highlight"@ {
        14
    } else if k == "special"@ {
        15
    } else {
        16
    }
}

/// Position of `k` among the raw native keys, or 16 when it is none of them.
pub open spec fn raw_rank(k: Seq<char>) -> int {
    if k == "base00"@ {
        0
    } else if k == "base01"@ {
        1
    } else if k == "base02"@ {
        2
    } else if k == "base03"@ {
        3
    } else if k == "base04"@ {
        4
    } else if k == "base05"@ {
        5
    } else if k == "base06"@ {
        6
    } else if k == "base07"@ {
        7
    } else if k == "base08"@ {
        8
    } else if k == "base09"@ {
        9
    } else if k == "base0A"@ {
        10
    } else if k == "base0B"@ {
        11
    } else if k == "base0C"@ {
        12
    } else if k == "base0D"@ {
        13
    } else if k == "base0E"@ {
        14
    } else if k == "base0F"@ {
        15
    } else {
        16
    }
}

proof fn lemma_alias_ranks()
    ensures
        semantic_table().len() == 16,
        forall|i: int| 0 <= i < 16 ==> alias_rank(#[trigger] semantic_table()[i].1@) == i,
        forall|k: Seq<char>| 0 <= #[trigger] alias_rank(k) <= 16,
        forall|k: Seq<char>| #[trigger] alias_rank(k) < 16 ==> semantic_table()[alias_rank(k)].1@ == k,
{
    reveal_strlit("background");
    reveal_strlit("background_surface");
    reveal_strlit("background_selection");
    reveal_strlit("foreground_comment");
    reveal_strlit("foreground_border");
    reveal_strlit("foreground_text");
    reveal_strlit("foreground_heading");
    reveal_strlit("foreground_bright");
    reveal_strlit("success");
    reveal_strlit("warning");
    reveal_strlit("notice");
    reveal_strlit("danger");
    reveal_strlit("active");
    reveal_strlit("link");
    reveal_strlit("highlight");
    reveal_strlit("special");
    assert("background"@.len() == 10 && "background"@[0] == 'b' && "background"@[1] == 'a');
    assert("background_surface"@.len() == 18 && "background_surface"@[0] == 'b' && "background_surface"@[1] == 'a');
    assert("background_selection"@.len() == 20 && "background_selection"@[0] == 'b' && "background_selection"@[1] == 'a');
    assert("foreground_comment"@.len() == 18 && "foreground_comment"@[0] == 'f' && "foreground_comment"@[1] == 'o');
    assert("foreground_border"@.len() == 17 && "foreground_border"@[0] == 'f' && "foreground_border"@[1] == 'o');
    assert("foreground_text"@.len() == 15 && "foreground_text"@[0] == 'f' && "foreground_text"@[1] == 'o');
    assert("foreground_heading"@.len() == 18 && "foreground_heading"@[0] == 'f' && "foreground_heading"@[1] == 'o');
    assert("foreground_bright"@.len() == 17 && "foreground_bright"@[0] == 'f' && "foreground_bright"@[1] == 'o');
    assert("success"@.len() == 7 && "success"@[0] == 's' && "success"@[1] == 'u');
    assert("warning"@.len() == 7 && "warning"@[0] == 'w' && "warning"@[1] == 'a');
    assert("notice"@.len() == 6 && "notice"@[0] == 'n' && "notice"@[1] == 'o');
    assert("danger"@.len() == 6 && "danger"@[0] == 'd' && "danger"@[1] == 'a');
    assert("active"@.len() == 6 && "active"@[0] == 'a' && "active"@[1] == 'c');
    assert("link"@.len() == 4 && "link"@[0] == 'l' && "link"@[1] == 'i');
    assert("highlight"@.len() == 9 && "highlight"@[0] == 'h' && "highlight"@[1] == 'i');
    assert("special"@.len() == 7 && "special"@[0] == 's' && "special"@[1] == 'p');
    assert("foreground_comment"@[11] == 'c');
    assert("foreground_border"@[11] == 'b');
    assert("foreground_heading"@[11] == 'h');
    assert("foreground_bright"@[11] == 'b');
    assert("foreground_border"@[12] == 'o');
    assert("foreground_bright"@[12] == 'r');
    assert forall|i: int| 0 <= i < 16 implies alias_rank(#[trigger] semantic_table()[i].1@) == i by {
        if i == 0 {
            assert(alias_rank(semantic_table()[0].1@) == 0);
        } else if i == 1 {
            assert(alias_rank(semantic_table()[1].1@) == 1);
        } else if i == 2 {
            assert(alias_rank(semantic_table()[2].1@) == 2);
        } else if i == 3 {
            assert(alias_rank(semantic_table()[3].1@) == 3);
        } else if i == 4 {
            assert(alias_rank(semantic_table()[4].1@) == 4);
        } else if i == 5 {
            assert(alias_rank(semantic_table()[5].1@) == 5);
        } else if i == 6 {
            assert(alias_rank(semantic_table()[6].1@) == 6);
        } else if i == 7 {
            assert(alias_rank(semantic_table()[7].1@) == 7);
        } else if i == 8 {
            assert(alias_rank(semantic_table()[8].1@) == 8);
        } else if i == 9 {
            assert(alias_rank(semantic_table()[9].1@) == 9);
        } else if i == 10 {
            assert(alias_rank(semantic_table()[10].1@) == 10);
        } else if i == 11 {
            assert(alias_rank(semantic_table()[11].1@) == 11);
        } else if i == 12 {
            assert(alias_rank(semantic_table()[12].1@) == 12);
        } else if i == 13 {
            assert(alias_rank(semantic_table()[13].1@) == 13);
        } else if i == 14 {
            assert(alias_rank(semantic_table()[14].1@) == 14);
        } else {
            assert(alias_rank(semantic_table()[15].1@) == 15);
        }
    }
}

proof fn lemma_raw_ranks()
    ensures
        semantic_table().len() == 16,
        forall|i: int| 0 <= i < 16 ==> raw_rank(#[trigger] semantic_table()[i].0@) == i,
        forall|k: Seq<char>| 0 <= #[trigger] raw_rank(k) <= 16,
        forall|k: Seq<char>| #[trigger] raw_rank(k) < 16 ==> semantic_table()[raw_rank(k)].0@ == k,
{
    reveal_strlit("base00");
    reveal_strlit("base01");
    reveal_strlit("base02");
    reveal_strlit("base03");
    reveal_strlit("base04");
    reveal_strlit("base05");
    reveal_strlit("base06");
    reveal_strlit("base07");
    reveal_strlit("base08");
    reveal_strlit("base09");
    reveal_strlit("base0A");
    reveal_strlit("base0B");
    reveal_strlit("base0C");
    reveal_strlit("base0D");
    reveal_strlit("base0E");
    reveal_strlit("base0F");
    assert("base00"@[5] == '0');
    assert("base01"@[5] == '1');
    assert("base02"@[5] == '2');
    assert("base03"@[5] == '3');
    assert("base04"@[5] == '4');
    assert("base05"@[5] == '5');
    assert("base06"@[5] == '6');
    assert("base07"@[5] == '7');
    assert("base08"@[5] == '8');
    assert("base09"@[5] == '9');
    assert("base0A"@[5] == 'A');
    assert("base0B"@[5] == 'B');
    assert("base0C"@[5] == 'C');
    assert("base0D"@[5] == 'D');
    assert("base0E"@[5] == 'E');
    assert("base0F"@[5] == 'F');
    assert forall|i: int| 0 <= i < 16 implies raw_rank(#[trigger] semantic_table()[i].0@) == i by {
        if i == 0 {
            assert(raw_rank(semantic_table()[0].0@) == 0);
        } else if i == 1 {
            assert(raw_rank(semantic_table()[1].0@) == 1);
        } else if i == 2 {
            assert(raw_rank(semantic_table()[2].0@) == 2);
        } else if i == 3 {
            assert(raw_rank(semantic_table()[3].0@) == 3);
        } else if i == 4 {
            assert(raw_rank(semantic_table()[4].0@) == 4);
        } else if i == 5 {
            assert(raw_rank(semantic_table()[5].0@) == 5);
        } else if i == 6 {
            assert(raw_rank(semantic_table()[6].0@) == 6);
        } else if i == 7 {
            assert(raw_rank(semantic_table()[7].0@) == 7);
        } else if i == 8 {
            assert(raw_rank(semantic_table()[8].0@) == 8);
        } else if i == 9 {
            assert(raw_rank(semantic_table()[9].0@) == 9);
        } else if i == 10 {
            assert(raw_rank(semantic_table()[10].0@) == 10);
        } else if i == 11 {
            assert(raw_rank(semantic_table()[11].0@) == 11);
        } else if i == 12 {
            assert(raw_rank(semantic_table()[12].0@) == 12);
        } else if i == 13 {
            assert(raw_rank(semantic_table()[13].0@) == 13);
        } else if i == 14 {
            assert(raw_rank(semantic_table()[14].0@) == 14);
        } else {
            assert(raw_rank(semantic_table()[15].0@) == 15);
        }
    }
}

proof fn lemma_raw_not_alias()
    ensures
        forall|i: int, j: int| 0 <= i < 16 && 0 <= j < 16 ==> semantic_table()[i].0@ != semantic_table()[j].1@,
{
    reveal_strlit("base00");
    reveal_strlit("base01");
    reveal_strlit("base02");
    reveal_strlit("base03");
    reveal_strlit("base04");
    reveal_strlit("base05");
    reveal_strlit("base06");
    reveal_strlit("base07");
    reveal_strlit("base08");
    reveal_strlit("base09");
    reveal_strlit("base0A");
    reveal_strlit("base0B");
    reveal_strlit("base0C");
    reveal_strlit("base0D");
    reveal_strlit("base0E");
    reveal_strlit("base0F");
    reveal_strlit("background");
    reveal_strlit("background_surface");
    reveal_strlit("background_selection");
    reveal_strlit("foreground_comment");
    reveal_strlit("foreground_border");
    reveal_strlit("foreground_text");
    reveal_strlit("foreground_heading");
    reveal_strlit("foreground_bright");
    reveal_strlit("success");
    reveal_strlit("warning");
    reveal_strlit("notice");
    reveal_strlit("danger");
    reveal_strlit("active");
    reveal_strlit("link");
    reveal_strlit("highlight");
    reveal_strlit("special");
    assert forall|i: int| 0 <= i < 16 implies (#[trigger] semantic_table()[i]).0@.len() == 6 && semantic_table()[i].0@[2] == 's' by {
        if i == 0 {
            assert("base00"@[2] == 's');
        } else if i == 1 {
            assert("base01"@[2] == 's');
        } else if i == 2 {
            assert("base02"@[2] == 's');
        } else if i == 3 {
            assert("base03"@[2] == 's');
        } else if i == 4 {
            assert("base04"@[2] == 's');
        } else if i == 5 {
            assert("base05"@[2] == 's');
        } else if i == 6 {
            assert("base06"@[2] == 's');
        } else if i == 7 {
            assert("base07"@[2] == 's');
        } else if i == 8 {
            assert("base08"@[2] == 's');
        } else if i == 9 {
            assert("base09"@[2] == 's');
        } else if i == 10 {
            assert("base0A"@[2] == 's');
        } else if i == 11 {
            assert("base0B"@[2] == 's');
        } else if i == 12 {
            assert("base0C"@[2] == 's');
        } else if i == 13 {
            assert("base0D"@[2] == 's');
        } else if i == 14 {
            assert("base0E"@[2] == 's');
        } else {
            assert("base0F"@[2] == 's');
        }
    }
    assert forall|j: int| 0 <= j < 16 implies (#[trigger] semantic_table()[j]).1@.len() != 6 || semantic_table()[j].1@[2] != 's' by {
        if j == 0 {
            assert("background"@.len() == 10);
        } else if j == 1 {
            assert("background_surface"@.len() == 18);
        } else if j == 2 {
            assert("background_selection"@.len() == 20);
        } else if j == 3 {
            assert("foreground_comment"@.len() == 18);
        } else if j == 4 {
            assert("foreground_border"@.len() == 17);
        } else if j == 5 {
            assert("foreground_text"@.len() == 15);
        } else if j == 6 {
            assert("foreground_heading"@.len() == 18);
        } else if j == 7 {
            assert("foreground_bright"@.len() == 17);
        } else if j == 8 {
            assert("success"@.len() == 7);
        } else if j == 9 {
            assert("warning"@.len() == 7);
        } else if j == 10 {
            assert("notice"@[2] == 't');
        } else if j == 11 {
            assert("danger"@[2] == 'n');
        } else if j == 12 {
            assert("active"@[2] == 't');
        } else if j == 13 {
            assert("link"@.len() == 4);
        } else if j == 14 {
            assert("highlight"@.len() == 9);
        } else {
            assert("special"@.len() == 7);
        }
    }
}

/// Whether every entry of a table has a string key and a string value.
pub open spec fn all_text(es: Seq<(Option<String>, Tree)>) -> bool {
    forall|i: int| 0 <= i < es.len() ==> es[i].0 is Some && es[i].1 is Text
}

/// The map that a table of strings describes; a later entry for a key
/// replaces an earlier one.
pub open spec fn text_map(es: Seq<(Option<String>, Tree)>) -> Map<Seq<char>, Seq<char>>
    decreases es.len(),
{
    if es.len() == 0 {
        Map::empty()
    } else {
        let m = text_map(es.drop_last());
        match es.last() {
            (Some(k), Tree::Text(v)) => m.insert(k@, v@),
            _ => m,
        }
    }
}

/// The flat table of strings stored under `key`; `None` when it is absent,
/// is not a table, or holds a value that is not a string.
pub open spec fn string_table(doc: Tree, key: Seq<char>) -> Option<Map<Seq<char>, Seq<char>>> {
    match field(doc, key) {
        Some(Tree::Table(es)) => if all_text(es@) {
            Some(text_map(es@))
        } else {
            None
        },
        _ => None,
    }
}

/// The raw colours with the aliases of the first `n` semantic pairs added:
/// an alias whose raw key is present takes that key's value.
pub open spec fn aliased(raw: Map<Seq<char>, Seq<char>>, n: int) -> Map<Seq<char>, Seq<char>> {
    Map::new(
        |k: Seq<char>|
            raw.contains_key(k) || (alias_rank(k) < n && raw.contains_key(semantic_table()[alias_rank(k)].0@)),
        |k: Seq<char>|
            if alias_rank(k) < n && raw.contains_key(semantic_table()[alias_rank(k)].0@) {
                raw[semantic_table()[alias_rank(k)].0@]
            } else {
                raw[k]
            },
    )
}

/// A native palette's colours: its raw keys plus every semantic alias whose raw key is present.
pub open spec fn vogix16_map(raw: Map<Seq<char>, Seq<char>>) -> Map<Seq<char>, Seq<char>> {
    aliased(raw, 16)
}

/// Colours of a native palette document: the `colors` table with aliases.
pub open spec fn vogix16_colors(doc: Tree) -> Option<Map<Seq<char>, Seq<char>>> {
    match string_table(doc, "colors"@) {
        Some(raw) => Some(vogix16_map(raw)),
        None => None,
    }
}

/// Colours of a base16 or base24 document: its `palette` table, verbatim.
pub open spec fn palette_colors(doc: Tree) -> Option<Map<Seq<char>, Seq<char>>> {
    string_table(doc, "palette"@)
}

/// The pairs (raw key, semantic alias) that native palettes add.
pub fn semantic_mappings() -> (r: Vec<(&'static str, &'static str)>)
    ensures
        r@ == semantic_table(),
{
    vec![
        ("base00", "background"),
        ("base01", "background_surface"),
        ("base02", "background_selection"),
        ("base03", "foreground_comment"),
        ("base04", "foreground_border"),
        ("base05", "foreground_text"),
        ("base06", "foreground_heading"),
        ("base07", "foreground_bright"),
        ("base08", "success"),
        ("base09", "warning"),
        ("base0A", "notice"),
        ("base0B", "danger"),
        ("base0C", "active"),
        ("base0D", "link"),
        ("base0E", "highlight"),
        ("base0F", "special"),
    ]
}

/// The colour map that a table of strings describes; `None` when `t` is
/// not a table or holds a value that is not a string.
pub fn read_string_table(t: &Tree) -> (r: Option<ColorMap>)
    ensures
        (*t is Table && all_text(t->Table_0@)) ==> (r matches Some(m) && m.wf() && m@ == text_map(t->Table_0@)),
        !(*t is Table && all_text(t->Table_0@)) ==> r is None,
{
    match t {
        Tree::Table(es) => {
            let mut m = ColorMap::new();
            let mut i: usize = 0;
            while i < es.len()
                invariant
                    *t is Table && t->Table_0@ == es@,
                    i <= es@.len(),
                    m.wf(),
                    all_text(es@.subrange(0, i as int)),
                    m@ == text_map(es@.subrange(0, i as int)),
                decreases es.len() - i,
            {
                assert(es@.subrange(0, i + 1).drop_last() =~= es@.subrange(0, i as int));
                match (&es[i].0, &es[i].1) {
                    (Some(k), Tree::Text(v)) => {
                        m.insert(k.clone(), v.clone());
                    },
                    _ => {
                        assert(!(es@[i as int].0 is Some && es@[i as int].1 is Text));
                        assert(!all_text(es@));
                        return None;
                    },
                }
                i = i + 1;
                assert(all_text(es@.subrange(0, i as int)));
            }
            assert(es@.subrange(0, es@.len() as int) =~= es@);
            Some(m)
        },
        _ => None,
    }
}

/// Adds to a native palette's raw colours the alias of every raw key present.
pub fn add_semantic_aliases(colors: &mut ColorMap)
    requires
        old(colors).wf(),
    ensures
        final(colors).wf(),
        final(colors)@ == vogix16_map(old(colors)@),
{
    proof {
        lemma_alias_ranks();
        lemma_raw_ranks();
        lemma_raw_not_alias();
    }
    let ghost raw = colors@;
    let table = semantic_mappings();
    let mut i: usize = 0;
    assert(colors@ =~= aliased(raw, 0));
    while i < table.len()
        invariant
            table@ == semantic_table(),
            i <= 16,
            colors.wf(),
            colors@ == aliased(raw, i as int),
            forall|j: int| 0 <= j < 16 ==> alias_rank(#[trigger] semantic_table()[j].1@) == j,
            forall|k: Seq<char>| 0 <= #[trigger] alias_rank(k) <= 16,
            forall|k: Seq<char>| #[trigger] alias_rank(k) < 16 ==> semantic_table()[alias_rank(k)].1@ == k,
            forall|j: int, l: int| 0 <= j < 16 && 0 <= l < 16 ==> semantic_table()[j].0@ != semantic_table()[l].1@,
        decreases table.len() - i,
    {
        let (base, alias) = table[i];
        assert(alias_rank(base@) == 16) by {
            if alias_rank(base@) < 16 {
                assert(semantic_table()[alias_rank(base@)].1@ == base@);
            }
        }
        assert(alias_rank(alias@) == i);
        match colors.get(base) {
            Some(v) => {
                let value = v.clone();
                colors.insert(owned(alias), value);
            },
            None => {},
        }
        assert(colors@ =~= aliased(raw, i + 1));
        i = i + 1;
    }
}

/// Section, field and output key of each colour an ANSI palette can give, in order.
pub open spec fn ansi16_table() -> Seq<(&'static str, &'static str, &'static str)> {
    seq![
        ("primary", "background", "background"),
        ("primary", "foreground", "foreground"),
        ("cursor", "cursor", "cursor_bg"),
        ("cursor", "text", "cursor_fg"),
        ("selection", "background", "selection_bg"),
        ("selection", "text", "selection_fg"),
        ("normal", "black", "color00"),
        ("normal", "red", "color01"),
        ("normal", "green", "color02"),
        ("normal", "yellow", "color03"),
        ("normal", "blue", "color04"),
        ("normal", "magenta", "color05"),
        ("normal", "cyan", "color06"),
        ("normal", "white", "color07"),
        ("bright", "black", "color08"),
        ("bright", "red", "color09"),
        ("bright", "green", "color10"),
        ("bright", "yellow", "color11"),
        ("bright", "blue", "color12"),
        ("bright", "magenta", "color13"),
        ("bright", "cyan", "color14"),
        ("bright", "white", "color15"),
    ]
}

/// Position of `k` among the ANSI output keys, or 22 when it is none of them.
pub open spec fn ansi16_rank(k: Seq<char>) -> int {
    if k == "background"@ {
        0
    } else if k == "foreground"@ {
        1
    } else if k == "cursor_bg"@ {
        2
    } else if k == "cursor_fg"@ {
        3
    } else if k == "selection_bg"@ {
        4
    } else if k == "selection_fg"@ {
        5
    } else if k == "color00"@ {
        6
    } else if k == "color01"@ {
        7
    } else if k == "color02"@ {
        8
    } else if k == "color03"@ {
        9
    } else if k == "color04"@ {
        10
    } else if k == "color05"@ {
        11
    } else if k == "color06"@ {
        12
    } else if k == "color07"@ {
        13
    } else if k == "color08"@ {
        14
    } else if k == "color09"@ {
        15
    } else if k == "color10"@ {
        16
    } else if k == "color11"@ {
        17
    } else if k == "color12"@ {
        18
    } else if k == "color13"@ {
        19
    } else if k == "color14"@ {
        20
    } else if k == "color15"@ {
        21
    } else {
        22
    }
}

proof fn lemma_ansi16_ranks()
    ensures
        ansi16_table().len() == 22,
        forall|i: int| 0 <= i < 22 ==> ansi16_rank(#[trigger] ansi16_table()[i].2@) == i,
        forall|k: Seq<char>| 0 <= #[trigger] ansi16_rank(k) <= 22,
        forall|k: Seq<char>| #[trigger] ansi16_rank(k) < 22 ==> ansi16_table()[ansi16_rank(k)].2@ == k,
{
    reveal_strlit("background");
    reveal_strlit("foreground");
    reveal_strlit("cursor_bg");
    reveal_strlit("cursor_fg");
    reveal_strlit("selection_bg");
    reveal_strlit("selection_fg");
    reveal_strlit("color00");
    reveal_strlit("color01");
    reveal_strlit("color02");
    reveal_strlit("color03");
    reveal_strlit("color04");
    reveal_strlit("color05");
    reveal_strlit("color06");
    reveal_strlit("color07");
    reveal_strlit("color08");
    reveal_strlit("color09");
    reveal_strlit("color10");
    reveal_strlit("color11");
    reveal_strlit("color12");
    reveal_strlit("color13");
    reveal_strlit("color14");
    reveal_strlit("color15");
    assert("background"@.len() == 10 && "background"@[0] == 'b');
    assert("foreground"@.len() == 10 && "foreground"@[0] == 'f');
    assert("cursor_bg"@.len() == 9 && "cursor_bg"@[0] == 'c' && "cursor_bg"@[7] == 'b');
    assert("cursor_fg"@.len() == 9 && "cursor_fg"@[0] == 'c' && "cursor_fg"@[7] == 'f');
    assert("selection_bg"@.len() == 12 && "selection_bg"@[0] == 's' && "selection_bg"@[10] == 'b');
    assert("selection_fg"@.len() == 12 && "selection_fg"@[0] == 's' && "selection_fg"@[10] == 'f');
    assert("color00"@.len() == 7 && "color00"@[0] == 'c' && "color00"@[5] == '0' && "color00"@[6] == '0');
    assert("color01"@.len() == 7 && "color01"@[0] == 'c' && "color01"@[5] == '0' && "color01"@[6] == '1');
    assert("color02"@.len() == 7 && "color02"@[0] == 'c' && "color02"@[5] == '0' && "color02"@[6] == '2');
    assert("color03"@.len() == 7 && "color03"@[0] == 'c' && "color03"@[5] == '0' && "color03"@[6] == '3');
    assert("color04"@.len() == 7 && "color04"@[0] == 'c' && "color04"@[5] == '0' && "color04"@[6] == '4');
    assert("color05"@.len() == 7 && "color05"@[0] == 'c' && "color05"@[5] == '0' && "color05"@[6] == '5');
    assert("color06"@.len() == 7 && "color06"@[0] == 'c' && "color06"@[5] == '0' && "color06"@[6] == '6');
    assert("color07"@.len() == 7 && "color07"@[0] == 'c' && "color07"@[5] == '0' && "color07"@[6] == '7');
    assert("color08"@.len() == 7 && "color08"@[0] == 'c' && "color08"@[5] == '0' && "color08"@[6] == '8');
    assert("color09"@.len() == 7 && "color09"@[0] == 'c' && "color09"@[5] == '0' && "color09"@[6] == '9');
    assert("color10"@.len() == 7 && "color10"@[0] == 'c' && "color10"@[5] == '1' && "color10"@[6] == '0');
    assert("color11"@.len() == 7 && "color11"@[0] == 'c' && "color11"@[5] == '1' && "color11"@[6] == '1');
    assert("color12"@.len() == 7 && "color12"@[0] == 'c' && "color12"@[5] == '1' && "color12"@[6] == '2');
    assert("color13"@.len() == 7 && "color13"@[0] == 'c' && "color13"@[5] == '1' && "color13"@[6] == '3');
    assert("color14"@.len() == 7 && "color14"@[0] == 'c' && "color14"@[5] == '1' && "color14"@[6] == '4');
    assert("color15"@.len() == 7 && "color15"@[0] == 'c' && "color15"@[5] == '1' && "color15"@[6] == '5');
    assert forall|i: int| 0 <= i < 22 implies ansi16_rank(#[trigger] ansi16_table()[i].2@) == i by {
        if i == 0 {
            assert(ansi16_rank(ansi16_table()[0].2@) == 0);
        } else if i == 1 {
            assert(ansi16_rank(ansi16_table()[1].2@) == 1);
        } else if i == 2 {
            assert(ansi16_rank(ansi16_table()[2].2@) == 2);
        } else if i == 3 {
            assert(ansi16_rank(ansi16_table()[3].2@) == 3);
        } else if i == 4 {
            assert(ansi16_rank(ansi16_table()[4].2@) == 4);
        } else if i == 5 {
            assert(ansi16_rank(ansi16_table()[5].2@) == 5);
        } else if i == 6 {
            assert(ansi16_rank(ansi16_table()[6].2@) == 6);
        } else if i == 7 {
            assert(ansi16_rank(ansi16_table()[7].2@) == 7);
        } else if i == 8 {
            assert(ansi16_rank(ansi16_table()[8].2@) == 8);
        } else if i == 9 {
            assert(ansi16_rank(ansi16_table()[9].2@) == 9);
        } else if i == 10 {
            assert(ansi16_rank(ansi16_table()[10].2@) == 10);
        } else if i == 11 {
            assert(ansi16_rank(ansi16_table()[11].2@) == 11);
        } else if i == 12 {
            assert(ansi16_rank(ansi16_table()[12].2@) == 12);
        } else if i == 13 {
            assert(ansi16_rank(ansi16_table()[13].2@) == 13);
        } else if i == 14 {
            assert(ansi16_rank(ansi16_table()[14].2@) == 14);
        } else if i == 15 {
            assert(ansi16_rank(ansi16_table()[15].2@) == 15);
        } else if i == 16 {
            assert(ansi16_rank(ansi16_table()[16].2@) == 16);
        } else if i == 17 {
            assert(ansi16_rank(ansi16_table()[17].2@) == 17);
        } else if i == 18 {
            assert(ansi16_rank(ansi16_table()[18].2@) == 18);
        } else if i == 19 {
            assert(ansi16_rank(ansi16_table()[19].2@) == 19);
        } else if i == 20 {
            assert(ansi16_rank(ansi16_table()[20].2@) == 20);
        } else {
            assert(ansi16_rank(ansi16_table()[21].2@) == 21);
        }
    }
}

/// The string at `field` of the section `section` of an ANSI `colors` table.
pub open spec fn section_text(colors: Tree, section: Seq<char>, f: Seq<char>) -> Option<Seq<char>> {
    match field(colors, section) {
        Some(sec) => crate::tree::text_field(sec, f),
        None => None,
    }
}

/// A row can be read: its section is absent or a table, and its field is
/// absent or a string.
pub open spec fn row_ok(colors: Tree, row: (&'static str, &'static str, &'static str)) -> bool {
    match field(colors, row.0@) {
        None => true,
        Some(Tree::Table(es)) => match crate::tree::lookup(es@, row.1@) {
            None => true,
            Some(Tree::Text(_)) => true,
            Some(_) => false,
        },
        Some(_) => false,
    }
}

/// Every row `j` with `from <= j < to` can be read.
pub open spec fn rows_ok(colors: Tree, from: int, to: int) -> bool {
    forall|j: int| from <= j < to ==> row_ok(colors, #[trigger] ansi16_table()[j])
}

/// The output keys of rows `from..to` whose field holds a string, each with
/// that string.
pub open spec fn rows_map(colors: Tree, from: int, to: int) -> Map<Seq<char>, Seq<char>> {
    Map::new(
        |k: Seq<char>|
            from <= ansi16_rank(k) < to && section_text(colors, ansi16_table()[ansi16_rank(k)].0@, ansi16_table()[ansi16_rank(k)].1@) is Some,
        |k: Seq<char>|
            section_text(colors, ansi16_table()[ansi16_rank(k)].0@, ansi16_table()[ansi16_rank(k)].1@)->Some_0,
    )
}

/// Colours of an ANSI palette's `colors` table: each output key whose
/// section and field hold a string; nothing else.
pub open spec fn ansi16_map(colors: Tree) -> Map<Seq<char>, Seq<char>> {
    rows_map(colors, 0, 22)
}

/// Colours of an ANSI palette document, or `None` where its `colors` table
/// is missing or a present section or field has the wrong kind.
pub open spec fn ansi16_colors(doc: Tree) -> Option<Map<Seq<char>, Seq<char>>> {
    match field(doc, "colors"@) {
        Some(c) => if c is Table && rows_ok(c, 0, 22) {
            Some(ansi16_map(c))
        } else {
            None
        },
        None => None,
    }
}

/// Rows of the ANSI table, in order.
pub fn ansi16_rows() -> (r: Vec<(&'static str, &'static str, &'static str)>)
    ensures
        r@ == ansi16_table(),
{
    vec![
        ("primary", "background", "background"),
        ("primary", "foreground", "foreground"),
        ("cursor", "cursor", "cursor_bg"),
        ("cursor", "text", "cursor_fg"),
        ("selection", "background", "selection_bg"),
        ("selection", "text", "selection_fg"),
        ("normal", "black", "color00"),
        ("normal", "red", "color01"),
        ("normal", "green", "color02"),
        ("normal", "yellow", "color03"),
        ("normal", "blue", "color04"),
        ("normal", "magenta", "color05"),
        ("normal", "cyan", "color06"),
        ("normal", "white", "color07"),
        ("bright", "black", "color08"),
        ("bright", "red", "color09"),
        ("bright", "green", "color10"),
        ("bright", "yellow", "color11"),
        ("bright", "blue", "color12"),
        ("bright", "magenta", "color13"),
        ("bright", "cyan", "color14"),
        ("bright", "white", "color15"),
    ]
}

/// Reads rows `from..to` of the ANSI table from `source` (a `colors` table)
/// into `colors`, over whatever it held; false, with `colors` in an
/// unspecified state, where a row cannot be read.
fn insert_rows(colors: &mut ColorMap, source: &Tree, from: usize, to: usize) -> (ok: bool)
    requires
        old(colors).wf(),
        from <= to <= 22,
    ensures
        final(colors).wf(),
        ok == rows_ok(*source, from as int, to as int),
        ok ==> final(colors)@ == old(colors)@.union_prefer_right(rows_map(*source, from as int, to as int)),
{
    proof {
        lemma_ansi16_ranks();
    }
    let ghost start = colors@;
    let rows = ansi16_rows();
    let mut i = from;
    assert(start.union_prefer_right(rows_map(*source, from as int, from as int)) =~= start);
    while i < to
        invariant
            rows@ == ansi16_table(),
            from <= i <= to <= 22,
            colors.wf(),
            colors@ == start.union_prefer_right(rows_map(*source, from as int, i as int)),
            rows_ok(*source, from as int, i as int),
            forall|j: int| 0 <= j < 22 ==> ansi16_rank(#[trigger] ansi16_table()[j].2@) == j,
            forall|k: Seq<char>| 0 <= #[trigger] ansi16_rank(k) <= 22,
            forall|k: Seq<char>| #[trigger] ansi16_rank(k) < 22 ==> ansi16_table()[ansi16_rank(k)].2@ == k,
        decreases to - i,
    {
        let (section, name, key) = rows[i];
        assert(ansi16_rank(key@) == i);
        match get_field(source, section) {
            None => {},
            Some(Tree::Table(es)) => {
                match crate::tree::lookup_entry(es, name) {
                    None => {},
                    Some(Tree::Text(v)) => {
                        colors.insert(owned(key), v.clone());
                    },
                    Some(_) => {
                        assert(!row_ok(*source, ansi16_table()[i as int]));
                        return false;
                    },
                }
            },
            Some(_) => {
                assert(!row_ok(*source, ansi16_table()[i as int]));
                return false;
            },
        }
        assert(row_ok(*source, ansi16_table()[i as int]));
        assert(colors@ =~= start.union_prefer_right(rows_map(*source, from as int, i + 1)));
        i = i + 1;
    }
    true
}

/// Reads the normal colours (`color00`..`color07`) of an ANSI `colors` table
/// into `colors`.
pub fn insert_normal_colors(colors: &mut ColorMap, source: &Tree) -> (ok: bool)
    requires
        old(colors).wf(),
    ensures
        final(colors).wf(),
        ok == rows_ok(*source, 6, 14),
        ok ==> final(colors)@ == old(colors)@.union_prefer_right(rows_map(*source, 6, 14)),
{
    insert_rows(colors, source, 6, 14)
}

/// Reads the bright colours (`color08`..`color15`) of an ANSI `colors` table
/// into `colors`.
pub fn insert_bright_colors(colors: &mut ColorMap, source: &Tree) -> (ok: bool)
    requires
        old(colors).wf(),
    ensures
        final(colors).wf(),
        ok == rows_ok(*source, 14, 22),
        ok ==> final(colors)@ == old(colors)@.union_prefer_right(rows_map(*source, 14, 22)),
{
    insert_rows(colors, source, 14, 22)
}

/// Colours of a native palette document.
pub fn load_vogix16(doc: &Tree) -> (r: Option<ColorMap>)
    ensures
        match vogix16_colors(*doc) {
            Some(m) => r matches Some(c) && c.wf() && c@ == m,
            None => r is None,
        },
{
    match get_field(doc, "colors") {
        Some(t) => match read_string_table(t) {
            Some(mut colors) => {
                add_semantic_aliases(&mut colors);
                Some(colors)
            },
            None => None,
        },
        None => None,
    }
}

/// Colours of a base16 or base24 document.
pub fn load_palette(doc: &Tree) -> (r: Option<ColorMap>)
    ensures
        match palette_colors(*doc) {
            Some(m) => r matches Some(c) && c.wf() && c@ == m,
            None => r is None,
        },
{
    match get_field(doc, "palette") {
        Some(t) => read_string_table(t),
        None => None,
    }
}

/// Colours of an ANSI palette document.
pub fn load_ansi16(doc: &Tree) -> (r: Option<ColorMap>)
    ensures
        match ansi16_colors(*doc) {
            Some(m) => r matches Some(c) && c.wf() && c@ == m,
            None => r is None,
        },
{
    match get_field(doc, "colors") {
        Some(source) => {
            match source {
                Tree::Table(_) => {},
                _ => {
                    return None;
                },
            }
            let mut colors = ColorMap::new();
            let ok = insert_rows(&mut colors, source, 0, 6);
            let ghost m1 = colors@;
            if !ok {
                return None;
            }
            if !insert_normal_colors(&mut colors, source) {
                assert(!rows_ok(*source, 0, 22));
                return None;
            }
            let ghost m2 = colors@;
            if !insert_bright_colors(&mut colors, source) {
                assert(!rows_ok(*source, 0, 22));
                return None;
            }
            assert(rows_ok(*source, 0, 22));
            assert(colors@ =~= rows_map(*source, 0, 22));
            Some(colors)
        },
        None => None,
    }
}

/// The colours that a palette source of `scheme` with text `content` gives,
/// or `None` where the text or its structure is rejected.
pub open spec fn theme_colors(scheme: Scheme, content: Seq<char>) -> Option<Map<Seq<char>, Seq<char>>> {
    match scheme {
        Scheme::Vogix16 => match toml_document(content) {
            Some(d) => vogix16_colors(d),
            None => None,
        },
        Scheme::Base16 | Scheme::Base24 => match yaml_document(content) {
            Some(d) => palette_colors(d),
            None => None,
        },
        Scheme::Ansi16 => match toml_document(content) {
            Some(d) => ansi16_colors(d),
            None => None,
        },
    }
}

/// The error for a palette source of `scheme` that cannot be read.
pub open spec fn parse_error(scheme: Scheme) -> VogixError {
    match scheme {
        Scheme::Base16 | Scheme::Base24 => VogixError::YamlParse,
        _ => VogixError::TomlParse,
    }
}

/// Reads the colours of a palette source of the given scheme.
pub fn load_theme_colors(content: &str, scheme: Scheme) -> (r: Result<ColorMap, VogixError>)
    ensures
        match theme_colors(scheme, content@) {
            Some(m) => r matches Ok(c) && c.wf() && c@ == m,
            None => r == Err::<ColorMap, VogixError>(parse_error(scheme)),
        },
{
    let colors = match scheme {
        Scheme::Vogix16 => match parse_toml(content) {
            Some(doc) => load_vogix16(&doc),
            None => None,
        },
        Scheme::Base16 | Scheme::Base24 => match parse_yaml(content) {
            Some(doc) => load_palette(&doc),
            None => None,
        },
        Scheme::Ansi16 => match parse_toml(content) {
            Some(doc) => load_ansi16(&doc),
            None => None,
        },
    };
    match colors {
        Some(c) => Ok(c),
        None => match scheme {
            Scheme::Base16 | Scheme::Base24 => Err(VogixError::YamlParse),
            _ => Err(VogixError::TomlParse),
        },
    }
}

/// A key is in a table's map exactly when some entry carries it, and its
/// value is the string of such an entry.
pub proof fn lemma_text_map_index(es: Seq<(Option<String>, Tree)>, k: Seq<char>)
    requires
        all_text(es),
    ensures
        text_map(es).contains_key(k) <==> exists|i: int| 0 <= i < es.len() && (#[trigger] es[i]).0->Some_0@ == k,
        text_map(es).contains_key(k) ==> exists|i: int| 0 <= i < es.len() && (#[trigger] es[i]).0->Some_0@ == k && es[i].1->Text_0@ == text_map(es)[k],
    decreases es.len(),
{
    if es.len() > 0 {
        let t = es.drop_last();
        assert(all_text(t));
        lemma_text_map_index(t, k);
        let n = es.len() - 1;
        assert(es[n].0 is Some && es[n].1 is Text);
        if es[n].0->Some_0@ == k {
            assert(es[n].0->Some_0@ == k && es[n].1->Text_0@ == text_map(es)[k]);
        } else {
            if text_map(t).contains_key(k) {
                let i = choose|i: int| 0 <= i < t.len() && (#[trigger] t[i]).0->Some_0@ == k && t[i].1->Text_0@ == text_map(t)[k];
                assert(es[i] == t[i]);
            }
            if exists|i: int| 0 <= i < es.len() && (#[trigger] es[i]).0->Some_0@ == k {
                let i = choose|i: int| 0 <= i < es.len() && (#[trigger] es[i]).0->Some_0@ == k;
                assert(t[i] == es[i]);
            }
        }
    }
}

/// A native palette that holds exactly the sixteen raw keys gives 32 keys,
/// and every semantic alias has the value of its raw key.
pub proof fn lemma_complete_native_palette(raw: Map<Seq<char>, Seq<char>>)
    requires
        forall|k: Seq<char>| raw.contains_key(k) <==> raw_rank(k) < 16,
    ensures
        vogix16_map(raw).dom().finite(),
        vogix16_map(raw).dom().len() == 32,
        forall|i: int| 0 <= i < 16 ==> vogix16_map(raw).contains_key(#[trigger] semantic_table()[i].1@)
            && vogix16_map(raw).contains_key(semantic_table()[i].0@)
            && vogix16_map(raw)[semantic_table()[i].1@] == vogix16_map(raw)[semantic_table()[i].0@],
{
    lemma_alias_ranks();
    lemma_raw_ranks();
    lemma_raw_not_alias();
    let raws = Seq::new(16, |i: int| semantic_table()[i].0@);
    let aliases = Seq::new(16, |i: int| semantic_table()[i].1@);
    assert(raws.no_duplicates()) by {
        assert forall|i: int, j: int| 0 <= i < raws.len() && 0 <= j < raws.len() && i != j implies raws[i] != raws[j] by {
            assert(raw_rank(raws[i]) == i);
            assert(raw_rank(raws[j]) == j);
        }
    }
    assert(aliases.no_duplicates()) by {
        assert forall|i: int, j: int| 0 <= i < aliases.len() && 0 <= j < aliases.len() && i != j implies aliases[i] != aliases[j] by {
            assert(alias_rank(aliases[i]) == i);
            assert(alias_rank(aliases[j]) == j);
        }
    }
    raws.unique_seq_to_set();
    aliases.unique_seq_to_set();
    let m = vogix16_map(raw);
    assert forall|k: Seq<char>| #[trigger] m.dom().contains(k) <==> (raws.to_set() + aliases.to_set()).contains(k) by {
        if raw_rank(k) < 16 {
            assert(raws[raw_rank(k)] == k);
        }
        if alias_rank(k) < 16 {
            assert(aliases[alias_rank(k)] == k);
            assert(raw.contains_key(semantic_table()[alias_rank(k)].0@));
        }
        if raws.to_set().contains(k) {
            let i = choose|i: int| 0 <= i < raws.len() && raws[i] == k;
            assert(raw_rank(raws[i]) == i);
        }
        if aliases.to_set().contains(k) {
            let i = choose|i: int| 0 <= i < aliases.len() && aliases[i] == k;
            assert(alias_rank(aliases[i]) == i);
            assert(raw_rank(semantic_table()[i].0@) == i);
        }
    }
    assert(m.dom() =~= raws.to_set() + aliases.to_set());
    assert(raws.to_set().disjoint(aliases.to_set())) by {
        assert forall|k: Seq<char>| !(raws.to_set().contains(k) && aliases.to_set().contains(k)) by {
            if raws.to_set().contains(k) && aliases.to_set().contains(k) {
                let i = choose|i: int| 0 <= i < raws.len() && raws[i] == k;
                let j = choose|j: int| 0 <= j < aliases.len() && aliases[j] == k;
                assert(semantic_table()[i].0@ != semantic_table()[j].1@);
            }
        }
    }
    vstd::set_lib::lemma_set_disjoint_lens(raws.to_set(), aliases.to_set());
    assert forall|i: int| 0 <= i < 16 implies m.contains_key(#[trigger] semantic_table()[i].1@)
        && m.contains_key(semantic_table()[i].0@)
        && m[semantic_table()[i].1@] == m[semantic_table()[i].0@] by {
        let b = semantic_table()[i].0@;
        assert(raw_rank(b) == i);
        assert(alias_rank(semantic_table()[i].1@) == i);
        assert(alias_rank(b) == 16) by {
            if alias_rank(b) < 16 {
                assert(semantic_table()[alias_rank(b)].1@ == b);
            }
        }
    }
}

/// The alias of a raw key that a native palette holds is present and has
/// that key's value.
pub proof fn lemma_alias_value(raw: Map<Seq<char>, Seq<char>>, i: int)
    requires
        0 <= i < 16,
        raw.contains_key(semantic_table()[i].0@),
    ensures
        vogix16_map(raw).contains_key(semantic_table()[i].1@),
        vogix16_map(raw)[semantic_table()[i].1@] == raw[semantic_table()[i].0@],
{
    lemma_alias_ranks();
}

/// In a native palette that holds all sixteen raw keys (and possibly more),
/// every semantic alias is present and has its raw key's value, which is
/// the value the source gave that key.
pub proof fn lemma_native_aliases(raw: Map<Seq<char>, Seq<char>>)
    requires
        forall|i: int| 0 <= i < 16 ==> raw.contains_key(#[trigger] semantic_table()[i].0@),
    ensures
        forall|i: int| 0 <= i < 16 ==> vogix16_map(raw).contains_key(#[trigger] semantic_table()[i].1@)
            && vogix16_map(raw).contains_key(semantic_table()[i].0@)
            && vogix16_map(raw)[semantic_table()[i].1@] == raw[semantic_table()[i].0@]
            && vogix16_map(raw)[semantic_table()[i].0@] == raw[semantic_table()[i].0@],
{
    lemma_alias_ranks();
    lemma_raw_ranks();
    lemma_raw_not_alias();
    let m = vogix16_map(raw);
    assert forall|i: int| 0 <= i < 16 implies m.contains_key(#[trigger] semantic_table()[i].1@)
        && m.contains_key(semantic_table()[i].0@)
        && m[semantic_table()[i].1@] == raw[semantic_table()[i].0@]
        && m[semantic_table()[i].0@] == raw[semantic_table()[i].0@] by {
        let b = semantic_table()[i].0@;
        assert(alias_rank(semantic_table()[i].1@) == i);
        assert(alias_rank(b) == 16) by {
            if alias_rank(b) < 16 {
                assert(semantic_table()[alias_rank(b)].1@ == b);
            }
        }
    }
}

/// Loading a native palette source whose `colors` table holds all sixteen
/// raw keys succeeds, and each alias has the value the source gave its raw
/// key, as does the raw key itself.
pub proof fn lemma_native_source_aliases(content: Seq<char>)
    requires
        toml_document(content) matches Some(d) && string_table(d, "colors"@) matches Some(c)
            && forall|i: int| 0 <= i < 16 ==> c.contains_key(#[trigger] semantic_table()[i].0@),
    ensures
        theme_colors(Scheme::Vogix16, content) matches Some(m) && {
            let c = string_table(toml_document(content)->Some_0, "colors"@)->Some_0;
            forall|i: int| 0 <= i < 16 ==> m.contains_key(#[trigger] semantic_table()[i].1@)
                && m[semantic_table()[i].1@] == c[semantic_table()[i].0@]
                && m[semantic_table()[i].0@] == c[semantic_table()[i].0@]
        },
{
    let c = string_table(toml_document(content)->Some_0, "colors"@)->Some_0;
    lemma_native_aliases(c);
}

/// A base16 or base24 palette gives exactly the keys its `palette` table
/// holds, each with a value written for it there: no alias, no other key.
pub proof fn lemma_palette_verbatim(doc: Tree)
    requires
        palette_colors(doc) is Some,
    ensures
        field(doc, "palette"@) matches Some(Tree::Table(es)) && all_text(es@) && (forall|k: Seq<char>|
            #[trigger] palette_colors(doc)->Some_0.contains_key(k) <==> exists|i: int| 0 <= i < es@.len() && (#[trigger] es@[i]).0->Some_0@ == k)
            && (forall|k: Seq<char>| #[trigger] palette_colors(doc)->Some_0.contains_key(k) ==> exists|i: int| 0 <= i < es@.len() && (#[trigger] es@[i]).0->Some_0@ == k && es@[i].1->Text_0@ == palette_colors(doc)->Some_0[k]),
{
    if let Some(Tree::Table(es)) = field(doc, "palette"@) {
        assert forall|k: Seq<char>| #[trigger] palette_colors(doc)->Some_0.contains_key(k) <==> exists|i: int| 0 <= i < es@.len() && (#[trigger] es@[i]).0->Some_0@ == k by {
            lemma_text_map_index(es@, k);
        }
        assert forall|k: Seq<char>| #[trigger] palette_colors(doc)->Some_0.contains_key(k) implies exists|i: int| 0 <= i < es@.len() && (#[trigger] es@[i]).0->Some_0@ == k && es@[i].1->Text_0@ == palette_colors(doc)->Some_0[k] by {
            lemma_text_map_index(es@, k);
        }
    }
}

/// An ANSI palette whose `colors` table lacks a section: the other sections
/// alone decide whether it loads; none of that section's keys appears, and
/// every field of the other sections that holds a string gives its key.
pub proof fn lemma_ansi16_missing_section(colors: Tree, section: Seq<char>)
    requires
        colors is Table,
        field(colors, section) is None,
    ensures
        rows_ok(colors, 0, 22) <==> (forall|j: int| 0 <= j < 22 && (#[trigger] ansi16_table()[j]).0@ != section ==> row_ok(colors, ansi16_table()[j])),
        forall|j: int| 0 <= j < 22 && (#[trigger] ansi16_table()[j]).0@ == section ==> !ansi16_map(colors).contains_key(ansi16_table()[j].2@),
        forall|j: int| 0 <= j < 22 && (#[trigger] ansi16_table()[j]).0@ != section
            && section_text(colors, ansi16_table()[j].0@, ansi16_table()[j].1@) is Some ==>
            ansi16_map(colors).contains_key(ansi16_table()[j].2@)
            && ansi16_map(colors)[ansi16_table()[j].2@] == section_text(colors, ansi16_table()[j].0@, ansi16_table()[j].1@)->Some_0,
{
    lemma_ansi16_ranks();
    assert forall|j: int| 0 <= j < 22 && (#[trigger] ansi16_table()[j]).0@ == section implies !ansi16_map(colors).contains_key(ansi16_table()[j].2@) by {
        assert(ansi16_rank(ansi16_table()[j].2@) == j);
    }
    assert forall|j: int| 0 <= j < 22 && (#[trigger] ansi16_table()[j]).0@ != section
        && section_text(colors, ansi16_table()[j].0@, ansi16_table()[j].1@) is Some implies
        ansi16_map(colors).contains_key(ansi16_table()[j].2@)
        && ansi16_map(colors)[ansi16_table()[j].2@] == section_text(colors, ansi16_table()[j].0@, ansi16_table()[j].1@)->Some_0 by {
        assert(ansi16_rank(ansi16_table()[j].2@) == j);
    }
}

/// Loading an ANSI palette source whose `colors` table lacks a section, and
/// whose other sections and fields have the right kinds, succeeds: the
/// result has no key of the missing section and the key of every other
/// field that holds a string.
pub proof fn lemma_ansi16_source_missing_section(content: Seq<char>, section: Seq<char>)
    requires
        toml_document(content) matches Some(d) && field(d, "colors"@) matches Some(c) && c is Table
            && field(c, section) is None
            && (forall|j: int| 0 <= j < 22 && (#[trigger] ansi16_table()[j]).0@ != section ==> row_ok(c, ansi16_table()[j])),
    ensures
        theme_colors(Scheme::Ansi16, content) matches Some(m) && {
            let c = field(toml_document(content)->Some_0, "colors"@)->Some_0;
            m == ansi16_map(c)
            && (forall|j: int| 0 <= j < 22 && (#[trigger] ansi16_table()[j]).0@ == section ==> !m.contains_key(ansi16_table()[j].2@))
            && (forall|j: int| 0 <= j < 22 && (#[trigger] ansi16_table()[j]).0@ != section
                && section_text(c, ansi16_table()[j].0@, ansi16_table()[j].1@) is Some ==>
                m.contains_key(ansi16_table()[j].2@) && m[ansi16_table()[j].2@] == section_text(c, ansi16_table()[j].0@, ansi16_table()[j].1@)->Some_0)
        },
{
    let d = toml_document(content)->Some_0;
    let c = field(d, "colors"@)->Some_0;
    lemma_ansi16_missing_section(c, section);
}

} // verus!
