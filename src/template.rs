//! Template interpolation: `{{ colors.<key> }}` tags, optionally piped
//! through named filters (`{{ colors.<key> | hex_to_rgb }}`). All other
//! text is copied as it stands.

use vstd::prelude::*;
use crate::colors::ColorMap;
use crate::errors::{TemplateError, VogixError};
use crate::text::{chars_of, owned, push_char, push_chars, push_text, same_text};

verus! {

/// Why rendering fails, over plain values: malformed markup, an undefined
/// key, a filter and the input it rejected, or an unknown filter.
pub enum Fault {
    Syntax,
    Undefined(Seq<char>),
    Filter(Seq<char>, Seq<char>),
    UnknownFilter(Seq<char>),
}

impl View for TemplateError {
    type V = Fault;

    open spec fn view(&self) -> Fault {
        match self {
            TemplateError::Syntax => Fault::Syntax,
            TemplateError::UndefinedVariable(k) => Fault::Undefined(k@),
            TemplateError::Filter { filter, input } => Fault::Filter(filter@, input@),
            TemplateError::UnknownFilter(n) => Fault::UnknownFilter(n@),
        }
    }
}

/// White space around a tag's parts.
pub open spec fn is_space(c: char) -> bool {
    c == ' ' || c == '\t' || c == '\n' || c == '\r'
}

/// A letter, digit or underscore.
pub open spec fn is_ident_char(c: char) -> bool {
    ('a' <= c && c <= 'z') || ('A' <= c && c <= 'Z') || ('0' <= c && c <= '9') || c == '_'
}

/// A non-empty run of letters, digits and underscores.
pub open spec fn is_ident(x: Seq<char>) -> bool {
    x.len() > 0 && forall|i: int| 0 <= i < x.len() ==> is_ident_char(#[trigger] x[i])
}

/// A hexadecimal digit, either case.
pub open spec fn is_hex_digit(c: char) -> bool {
    ('0' <= c && c <= '9') || ('a' <= c && c <= 'f') || ('A' <= c && c <= 'F')
}

/// `x` without leading white space.
pub open spec fn trim_start(x: Seq<char>) -> Seq<char>
    decreases x.len(),
{
    if x.len() > 0 && is_space(x[0]) {
        trim_start(x.drop_first())
    } else {
        x
    }
}

/// `x` without trailing white space.
pub open spec fn trim_end(x: Seq<char>) -> Seq<char>
    decreases x.len(),
{
    if x.len() > 0 && is_space(x.last()) {
        trim_end(x.drop_last())
    } else {
        x
    }
}

/// `x` without leading and trailing white space.
pub open spec fn trim(x: Seq<char>) -> Seq<char> {
    trim_end(trim_start(x))
}

/// `x` without its leading `#` characters.
pub open spec fn trim_hashes(x: Seq<char>) -> Seq<char>
    decreases x.len(),
{
    if x.len() > 0 && x[0] == '#' {
        trim_hashes(x.drop_first())
    } else {
        x
    }
}

/// `x` without one leading `#`, if it has one.
pub open spec fn drop_hash(x: Seq<char>) -> Seq<char> {
    if x.len() > 0 && x[0] == '#' {
        x.drop_first()
    } else {
        x
    }
}

/// `"0xRR,0xGG,0xBB"` for a colour that is six hex digits after an optional
/// leading `#`; `None` for any other value.
pub open spec fn hex_rgb(x: Seq<char>) -> Option<Seq<char>> {
    let c = drop_hash(x);
    if c.len() == 6 && forall|i: int| 0 <= i < 6 ==> is_hex_digit(#[trigger] c[i]) {
        Some(seq!['0', 'x', c[0], c[1], ',', '0', 'x', c[2], c[3], ',', '0', 'x', c[4], c[5]])
    } else {
        None
    }
}

/// The parts of a tag's text between `|` separators.
pub open spec fn split_bars(e: Seq<char>) -> Seq<Seq<char>>
    decreases e.len(),
{
    if e.len() == 0 {
        seq![Seq::<char>::empty()]
    } else {
        let s = split_bars(e.drop_last());
        if e.last() == '|' {
            s.push(Seq::<char>::empty())
        } else {
            s.update(s.len() - 1, s.last().push(e.last()))
        }
    }
}

/// Each part after the first, trimmed.
pub open spec fn trimmed_tail(parts: Seq<Seq<char>>) -> Seq<Seq<char>> {
    parts.drop_first().map_values(|p: Seq<char>| trim(p))
}

/// The key and filter names of a tag's text, or `None` where it is not
/// `colors.<key>` followed by `| <filter>` parts.
pub open spec fn parse_tag(e: Seq<char>) -> Option<(Seq<char>, Seq<Seq<char>>)> {
    let parts = split_bars(e);
    let v = trim(parts[0]);
    let filters = trimmed_tail(parts);
    if v.len() > 7 && v.subrange(0, 7) == "colors."@ && is_ident(v.subrange(7, v.len() as int))
        && forall|j: int| 0 <= j < filters.len() ==> is_ident(#[trigger] filters[j]) {
        Some((v.subrange(7, v.len() as int), filters))
    } else {
        None
    }
}

/// One filter applied to a value.
pub open spec fn apply_filter(name: Seq<char>, v: Seq<char>) -> Result<Seq<char>, Fault> {
    if name == "hex_to_rgb"@ {
        match hex_rgb(v) {
            Some(o) => Ok(o),
            None => Err(Fault::Filter(name, v)),
        }
    } else if name == "strip_hash"@ {
        Ok(trim_hashes(v))
    } else {
        Err(Fault::UnknownFilter(name))
    }
}

/// Filters applied left to right.
pub open spec fn apply_filters(v: Seq<char>, fs: Seq<Seq<char>>) -> Result<Seq<char>, Fault>
    decreases fs.len(),
{
    if fs.len() == 0 {
        Ok(v)
    } else {
        match apply_filter(fs[0], v) {
            Ok(w) => apply_filters(w, fs.drop_first()),
            Err(e) => Err(e),
        }
    }
}

/// The text a tag stands for.
pub open spec fn eval_tag(e: Seq<char>, colors: Map<Seq<char>, Seq<char>>) -> Result<Seq<char>, Fault> {
    match parse_tag(e) {
        None => Err(Fault::Syntax),
        Some((key, fs)) => if colors.contains_key(key) {
            apply_filters(colors[key], fs)
        } else {
            Err(Fault::Undefined(key))
        },
    }
}

/// Offset from `from` of the first `}}` at or after it.
pub open spec fn close_offset(s: Seq<char>, from: int) -> Option<nat>
    decreases s.len() - from,
{
    if from < 0 || from + 1 >= s.len() {
        None
    } else if s[from] == '}' && s[from + 1] == '}' {
        Some(0)
    } else {
        match close_offset(s, from + 1) {
            Some(d) => Some(d + 1),
            None => None,
        }
    }
}

/// A `}}` found lies inside the text, at the offset given.
pub proof fn lemma_close_offset(s: Seq<char>, from: int)
    ensures
        close_offset(s, from) matches Some(d) ==> 0 <= from && from + d + 2 <= s.len() && s[from + d] == '}' && s[from + d + 1] == '}',
    decreases s.len() - from,
{
    if 0 <= from && from + 1 < s.len() && !(s[from] == '}' && s[from + 1] == '}') {
        lemma_close_offset(s, from + 1);
    }
}

/// Whether a tag opens at `i`.
pub open spec fn opens_at(s: Seq<char>, i: int) -> bool {
    0 <= i && i + 1 < s.len() && s[i] == '{' && s[i + 1] == '{'
}

/// Whether every tag from `i` on is closed and well formed.
pub open spec fn well_formed_from(s: Seq<char>, i: int) -> bool
    decreases s.len() - i,
{
    if i < 0 || i >= s.len() {
        true
    } else if opens_at(s, i) {
        match close_offset(s, i + 2) {
            None => false,
            Some(d) => {
                proof {
                    lemma_close_offset(s, i + 2);
                }
                parse_tag(s.subrange(i + 2, i + 2 + d)) is Some && well_formed_from(s, i + 2 + d + 2)
            },
        }
    } else {
        well_formed_from(s, i + 1)
    }
}

/// `p` put before a successful result.
pub open spec fn prepend(p: Seq<char>, r: Result<Seq<char>, Fault>) -> Result<Seq<char>, Fault> {
    match r {
        Ok(x) => Ok(p + x),
        Err(e) => Err(e),
    }
}

/// The text from `i` on with each tag replaced by what it stands for.
pub open spec fn render_from(s: Seq<char>, i: int, colors: Map<Seq<char>, Seq<char>>) -> Result<Seq<char>, Fault>
    decreases s.len() - i,
{
    if i < 0 || i >= s.len() {
        Ok(Seq::empty())
    } else if opens_at(s, i) {
        match close_offset(s, i + 2) {
            None => Err(Fault::Syntax),
            Some(d) => {
                proof {
                    lemma_close_offset(s, i + 2);
                }
                match eval_tag(s.subrange(i + 2, i + 2 + d), colors) {
                    Err(e) => Err(e),
                    Ok(v) => prepend(v, render_from(s, i + 2 + d + 2, colors)),
                }
            },
        }
    } else {
        prepend(seq![s[i]], render_from(s, i + 1, colors))
    }
}

/// A template rendered against a colour map: a syntax error anywhere comes
/// first; otherwise tags are evaluated left to right.
pub open spec fn render(s: Seq<char>, colors: Map<Seq<char>, Seq<char>>) -> Result<Seq<char>, Fault> {
    if well_formed_from(s, 0) {
        render_from(s, 0, colors)
    } else {
        Err(Fault::Syntax)
    }
}

/// `p` before `q` before a result is `p + q` before it.
pub proof fn lemma_prepend_assoc(p: Seq<char>, q: Seq<char>, r: Result<Seq<char>, Fault>)
    ensures
        prepend(p, prepend(q, r)) == prepend(p + q, r),
{
    if let Ok(x) = r {
        assert((p + q) + x =~= p + (q + x));
    }
}

fn space(c: char) -> (r: bool)
    ensures
        r == is_space(c),
{
    c == ' ' || c == '\t' || c == '\n' || c == '\r'
}

fn ident_char(c: char) -> (r: bool)
    ensures
        r == is_ident_char(c),
{
    ('a' <= c && c <= 'z') || ('A' <= c && c <= 'Z') || ('0' <= c && c <= '9') || c == '_'
}

fn hex_digit(c: char) -> (r: bool)
    ensures
        r == is_hex_digit(c),
{
    ('0' <= c && c <= '9') || ('a' <= c && c <= 'f') || ('A' <= c && c <= 'F')
}

/// The characters `cs[from..to]` as a new vector.
fn slice_chars(cs: &Vec<char>, from: usize, to: usize) -> (r: Vec<char>)
    requires
        from <= to <= cs@.len(),
    ensures
        r@ == cs@.subrange(from as int, to as int),
{
    let mut r: Vec<char> = Vec::new();
    let mut i = from;
    while i < to
        invariant
            from <= i <= to <= cs@.len(),
            r@ == cs@.subrange(from as int, i as int),
        decreases to - i,
    {
        r.push(cs[i]);
        assert(r@ =~= cs@.subrange(from as int, i + 1));
        i = i + 1;
    }
    r
}

/// The characters `cs[from..to]` as a new string.
fn string_of(cs: &Vec<char>, from: usize, to: usize) -> (r: String)
    requires
        from <= to <= cs@.len(),
    ensures
        r@ == cs@.subrange(from as int, to as int),
{
    let mut r = String::new();
    push_chars(&mut r, cs, from, to);
    assert(r@ =~= cs@.subrange(from as int, to as int));
    r
}

/// Index of the first character of `cs` that is not `#`.
fn skip_hashes(cs: &Vec<char>) -> (a: usize)
    ensures
        a <= cs@.len(),
        trim_hashes(cs@) == cs@.subrange(a as int, cs@.len() as int),
{
    let mut a: usize = 0;
    assert(cs@.subrange(0, cs@.len() as int) =~= cs@);
    while a < cs.len() && cs[a] == '#'
        invariant
            a <= cs@.len(),
            trim_hashes(cs@) == trim_hashes(cs@.subrange(a as int, cs@.len() as int)),
        decreases cs.len() - a,
    {
        assert(cs@.subrange(a as int, cs@.len() as int).drop_first() =~= cs@.subrange(a + 1, cs@.len() as int));
        a = a + 1;
    }
    a
}

/// The value without its leading `#` characters; any other value unchanged.
pub fn strip_hash(value: &str) -> (r: String)
    ensures
        r@ == trim_hashes(value@),
{
    let cs = chars_of(value);
    let a = skip_hashes(&cs);
    string_of(&cs, a, cs.len())
}

/// `"#RRGGBB"` as `"0xRR,0xGG,0xBB"`, hex digits kept in their case; fails
/// unless the value is six hex digits after an optional leading `#`.
pub fn hex_to_rgb(value: &str) -> (r: Result<String, TemplateError>)
    ensures
        match hex_rgb(value@) {
            Some(o) => r matches Ok(s) && s@ == o,
            None => r matches Err(e) && e@ == Fault::Filter("hex_to_rgb"@, value@),
        },
{
    let cs = chars_of(value);
    let a: usize = if cs.len() > 0 && cs[0] == '#' { 1 } else { 0 };
    let ghost c = drop_hash(value@);
    assert(c == cs@.subrange(a as int, cs@.len() as int));
    if cs.len() - a != 6 {
        return Err(TemplateError::Filter { filter: owned("hex_to_rgb"), input: owned(value) });
    }
    let mut k: usize = 0;
    while k < 6
        invariant
            cs@ == value@,
            c == drop_hash(value@),
            c == cs@.subrange(a as int, cs@.len() as int),
            c.len() == 6,
            a + 6 == cs.len(),
            k <= 6,
            forall|j: int| 0 <= j < k ==> is_hex_digit(#[trigger] c[j]),
        decreases 6 - k,
    {
        if !hex_digit(cs[a + k]) {
            assert(!is_hex_digit(c[k as int]));
            return Err(TemplateError::Filter { filter: owned("hex_to_rgb"), input: owned(value) });
        }
        k = k + 1;
    }
    let mut out = owned("0x");
    push_char(&mut out, cs[a]);
    push_char(&mut out, cs[a + 1]);
    push_text(&mut out, ",0x");
    push_char(&mut out, cs[a + 2]);
    push_char(&mut out, cs[a + 3]);
    push_text(&mut out, ",0x");
    push_char(&mut out, cs[a + 4]);
    push_char(&mut out, cs[a + 5]);
    proof {
        reveal_strlit("0x");
        reveal_strlit(",0x");
    }
    assert(out@ =~= seq!['0', 'x', c[0], c[1], ',', '0', 'x', c[2], c[3], ',', '0', 'x', c[4], c[5]]);
    Ok(out)
}

/// A split always has a first part.
pub proof fn lemma_split_bars_len(e: Seq<char>)
    ensures
        split_bars(e).len() >= 1,
    decreases e.len(),
{
    if e.len() > 0 {
        lemma_split_bars_len(e.drop_last());
    }
}

/// `x` without leading and trailing white space.
fn trim_chars(x: &Vec<char>) -> (r: Vec<char>)
    ensures
        r@ == trim(x@),
{
    let mut a: usize = 0;
    assert(x@.subrange(0, x@.len() as int) =~= x@);
    while a < x.len() && space(x[a])
        invariant
            a <= x@.len(),
            trim_start(x@) == trim_start(x@.subrange(a as int, x@.len() as int)),
        decreases x.len() - a,
    {
        assert(x@.subrange(a as int, x@.len() as int).drop_first() =~= x@.subrange(a + 1, x@.len() as int));
        a = a + 1;
    }
    let mut b: usize = x.len();
    while b > a && space(x[b - 1])
        invariant
            a <= b <= x@.len(),
            trim_start(x@) == x@.subrange(a as int, x@.len() as int),
            trim(x@) == trim_end(x@.subrange(a as int, b as int)),
        decreases b - a,
    {
        assert(x@.subrange(a as int, b as int).drop_last() =~= x@.subrange(a as int, b - 1));
        b = b - 1;
    }
    slice_chars(x, a, b)
}

/// Whether `x[from..to]` is a non-empty run of identifier characters.
fn ident_range(x: &Vec<char>, from: usize, to: usize) -> (r: bool)
    requires
        from <= to <= x@.len(),
    ensures
        r == is_ident(x@.subrange(from as int, to as int)),
{
    if from == to {
        return false;
    }
    let mut i = from;
    while i < to
        invariant
            from <= i <= to <= x@.len(),
            forall|j: int| from <= j < i ==> is_ident_char(#[trigger] x@[j]),
        decreases to - i,
    {
        if !ident_char(x[i]) {
            assert(!is_ident_char(x@.subrange(from as int, to as int)[i - from]));
            return false;
        }
        i = i + 1;
    }
    assert forall|j: int| 0 <= j < x@.subrange(from as int, to as int).len() implies is_ident_char(#[trigger] x@.subrange(from as int, to as int)[j]) by {
        assert(is_ident_char(x@[from + j]));
    }
    true
}

/// The parts of a tag's text between `|` separators.
fn split_on_bars(e: &Vec<char>) -> (r: Vec<Vec<char>>)
    ensures
        r@.len() == split_bars(e@).len(),
        forall|j: int| 0 <= j < r@.len() ==> (#[trigger] r@[j])@ == split_bars(e@)[j],
{
    let mut done: Vec<Vec<char>> = Vec::new();
    let mut cur: Vec<char> = Vec::new();
    let mut i: usize = 0;
    assert(e@.subrange(0, 0) =~= Seq::<char>::empty());
    while i < e.len()
        invariant
            i <= e@.len(),
            split_bars(e@.subrange(0, i as int)).len() == done@.len() + 1,
            forall|j: int| 0 <= j < done@.len() ==> (#[trigger] done@[j])@ == split_bars(e@.subrange(0, i as int))[j],
            split_bars(e@.subrange(0, i as int)).last() == cur@,
        decreases e.len() - i,
    {
        let ghost before = split_bars(e@.subrange(0, i as int));
        assert(e@.subrange(0, i + 1).drop_last() =~= e@.subrange(0, i as int));
        assert(e@.subrange(0, i + 1).last() == e@[i as int]);
        if e[i] == '|' {
            done.push(cur);
            cur = Vec::new();
        } else {
            cur.push(e[i]);
        }
        i = i + 1;
        assert forall|j: int| 0 <= j < done@.len() implies (#[trigger] done@[j])@ == split_bars(e@.subrange(0, i as int))[j] by {
            assert(j < before.len());
        }
    }
    assert(e@.subrange(0, e@.len() as int) =~= e@);
    done.push(cur);
    done
}

/// The key and filter names of a tag's text.
fn parse_tag_chars(e: &Vec<char>) -> (r: Option<(String, Vec<String>)>)
    ensures
        match parse_tag(e@) {
            None => r is None,
            Some((k, fs)) => r matches Some((kk, ffs)) && kk@ == k && ffs@.len() == fs.len()
                && forall|j: int| 0 <= j < fs.len() ==> (#[trigger] ffs@[j])@ == fs[j],
        },
{
    proof {
        lemma_split_bars_len(e@);
    }
    let ghost parts = split_bars(e@);
    let ghost fs = trimmed_tail(parts);
    let pieces = split_on_bars(e);
    let v = trim_chars(&pieces[0]);
    assert(v@ == trim(parts[0]));
    if v.len() <= 7 {
        return None;
    }
    let prefix = chars_of("colors.");
    proof {
        reveal_strlit("colors.");
    }
    let mut j: usize = 0;
    while j < 7
        invariant
            parts.len() >= 1,
            v@ == trim(parts[0]),
            parts == split_bars(e@),
            prefix@ == "colors."@,
            prefix@.len() == 7,
            v@.len() > 7,
            j <= 7,
            forall|m: int| 0 <= m < j ==> v@[m] == prefix@[m],
        decreases 7 - j,
    {
        if v[j] != prefix[j] {
            assert(v@.subrange(0, 7)[j as int] != "colors."@[j as int]);
            return None;
        }
        j = j + 1;
    }
    assert(v@.subrange(0, 7) =~= "colors."@);
    if !ident_range(&v, 7, v.len()) {
        return None;
    }
    let key = string_of(&v, 7, v.len());
    let mut filters: Vec<String> = Vec::new();
    let mut k: usize = 1;
    while k < pieces.len()
        invariant
            pieces@.len() == parts.len(),
            forall|m: int| 0 <= m < pieces@.len() ==> (#[trigger] pieces@[m])@ == parts[m],
            fs == trimmed_tail(parts),
            parts == split_bars(e@),
            v@ == trim(parts[0]),
            key@ == v@.subrange(7, v@.len() as int),
            v@.len() > 7,
            v@.subrange(0, 7) == "colors."@,
            is_ident(v@.subrange(7, v@.len() as int)),
            1 <= k <= pieces@.len(),
            filters@.len() == k - 1,
            parts.len() >= 1,
            fs.len() == parts.len() - 1,
            forall|m: int| 0 <= m < k - 1 ==> (#[trigger] filters@[m])@ == fs[m],
            forall|m: int| 0 <= m < k - 1 ==> is_ident(#[trigger] fs[m]),
        decreases pieces.len() - k,
    {
        let f = trim_chars(&pieces[k]);
        assert(f@ == fs[k - 1]);
        if !ident_range(&f, 0, f.len()) {
            assert(f@.subrange(0, f@.len() as int) =~= f@);
            return None;
        }
        assert(f@.subrange(0, f@.len() as int) =~= f@);
        filters.push(string_of(&f, 0, f.len()));
        assert(filters@[k - 1]@ == fs[k - 1]);
        k = k + 1;
    }
    assert(fs.len() == filters@.len());
    Some((key, filters))
}

/// One filter applied to a value.
fn run_filter(name: &String, v: &String) -> (r: Result<String, TemplateError>)
    ensures
        match apply_filter(name@, v@) {
            Ok(o) => r matches Ok(s) && s@ == o,
            Err(f) => r matches Err(x) && x@ == f,
        },
{
    if same_text(name.as_str(), "hex_to_rgb") {
        hex_to_rgb(v.as_str())
    } else if same_text(name.as_str(), "strip_hash") {
        Ok(strip_hash(v.as_str()))
    } else {
        Err(TemplateError::UnknownFilter(owned(name.as_str())))
    }
}

/// The text a tag stands for.
fn eval_tag_chars(e: &Vec<char>, colors: &ColorMap) -> (r: Result<String, TemplateError>)
    requires
        colors.wf(),
    ensures
        match eval_tag(e@, colors@) {
            Ok(o) => r matches Ok(s) && s@ == o,
            Err(f) => r matches Err(x) && x@ == f,
        },
{
    match parse_tag_chars(e) {
        None => Err(TemplateError::Syntax),
        Some((key, filters)) => {
            let ghost fs = parse_tag(e@)->Some_0.1;
            match colors.get(key.as_str()) {
                None => Err(TemplateError::UndefinedVariable(key)),
                Some(v) => {
                    let mut cur = owned(v.as_str());
                    let mut j: usize = 0;
                    assert(eval_tag(e@, colors@) == apply_filters(cur@, fs));
                    assert(fs.subrange(0, fs.len() as int) =~= fs);
                    while j < filters.len()
                        invariant
                            filters@.len() == fs.len(),
                            forall|m: int| 0 <= m < fs.len() ==> (#[trigger] filters@[m])@ == fs[m],
                            j <= fs.len(),
                            eval_tag(e@, colors@) == apply_filters(cur@, fs.subrange(j as int, fs.len() as int)),
                        decreases filters.len() - j,
                    {
                        assert(fs.subrange(j as int, fs.len() as int).drop_first() =~= fs.subrange(j + 1, fs.len() as int));
                        assert(fs.subrange(j as int, fs.len() as int)[0] == fs[j as int]);
                        match run_filter(&filters[j], &cur) {
                            Ok(w) => {
                                cur = w;
                            },
                            Err(x) => {
                                return Err(x);
                            },
                        }
                        j = j + 1;
                    }
                    assert(fs.subrange(j as int, fs.len() as int) =~= Seq::<Seq<char>>::empty());
                    Ok(cur)
                },
            }
        },
    }
}

/// `from + d` where `d` is the offset of the first `}}` at or after `from`.
pub open spec fn shifted(o: Option<nat>, k: nat) -> Option<nat> {
    match o {
        Some(d) => Some(d + k),
        None => None,
    }
}

/// Index of the first `}}` at or after `from`.
fn find_close(cs: &Vec<char>, from: usize) -> (r: Option<usize>)
    requires
        from <= cs@.len(),
    ensures
        match close_offset(cs@, from as int) {
            Some(d) => r == Some((from + d) as usize),
            None => r is None,
        },
{
    let mut j = from;
    while cs.len() > 0 && j < cs.len() - 1
        invariant
            from <= j <= cs@.len(),
            close_offset(cs@, from as int) == shifted(close_offset(cs@, j as int), (j - from) as nat),
        decreases cs.len() - j,
    {
        if cs[j] == '}' && cs[j + 1] == '}' {
            return Some(j);
        }
        j = j + 1;
    }
    None
}

/// Whether every tag is closed and well formed.
fn well_formed(cs: &Vec<char>) -> (r: bool)
    ensures
        r == well_formed_from(cs@, 0),
{
    let mut i: usize = 0;
    while i < cs.len()
        invariant
            i <= cs@.len(),
            well_formed_from(cs@, 0) == well_formed_from(cs@, i as int),
        decreases cs.len() - i,
    {
        if i + 1 < cs.len() && cs[i] == '{' && cs[i + 1] == '{' {
            proof {
                lemma_close_offset(cs@, i + 2);
            }
            match find_close(cs, i + 2) {
                None => {
                    return false;
                },
                Some(q) => {
                    let e = slice_chars(cs, i + 2, q);
                    if parse_tag_chars(&e).is_none() {
                        return false;
                    }
                    i = q + 2;
                },
            }
        } else {
            i = i + 1;
        }
    }
    true
}

/// The text with each tag replaced by what it stands for.
fn render_chars(cs: &Vec<char>, colors: &ColorMap) -> (r: Result<String, TemplateError>)
    requires
        colors.wf(),
    ensures
        match render_from(cs@, 0, colors@) {
            Ok(o) => r matches Ok(s) && s@ == o,
            Err(f) => r matches Err(x) && x@ == f,
        },
{
    let mut out = String::new();
    let mut i: usize = 0;
    assert(render_from(cs@, 0, colors@) == prepend(out@, render_from(cs@, 0, colors@))) by {
        if let Ok(x) = render_from(cs@, 0, colors@) {
            assert(out@ + x =~= x);
        }
    }
    while i < cs.len()
        invariant
            colors.wf(),
            i <= cs@.len(),
            render_from(cs@, 0, colors@) == prepend(out@, render_from(cs@, i as int, colors@)),
        decreases cs.len() - i,
    {
        if i + 1 < cs.len() && cs[i] == '{' && cs[i + 1] == '{' {
            proof {
                lemma_close_offset(cs@, i + 2);
            }
            match find_close(cs, i + 2) {
                None => {
                    return Err(TemplateError::Syntax);
                },
                Some(q) => {
                    let e = slice_chars(cs, i + 2, q);
                    match eval_tag_chars(&e, colors) {
                        Err(x) => {
                            return Err(x);
                        },
                        Ok(v) => {
                            proof {
                                lemma_prepend_assoc(out@, v@, render_from(cs@, q + 2, colors@));
                            }
                            push_text(&mut out, v.as_str());
                            i = q + 2;
                        },
                    }
                },
            }
        } else {
            let ghost old_out = out@;
            proof {
                lemma_prepend_assoc(out@, seq![cs@[i as int]], render_from(cs@, i + 1, colors@));
            }
            push_char(&mut out, cs[i]);
            assert(out@ =~= old_out + seq![cs@[i as int]]);
            i = i + 1;
        }
    }
    assert(out@ + Seq::<char>::empty() =~= out@);
    Ok(out)
}

/// Renders a template against a colour map.
pub fn render_template_string(template: &str, colors: &ColorMap) -> (r: Result<String, VogixError>)
    requires
        colors.wf(),
    ensures
        match render(template@, colors@) {
            Ok(o) => r matches Ok(s) && s@ == o,
            Err(f) => r matches Err(VogixError::Template(e)) && e@ == f,
        },
{
    let cs = chars_of(template);
    if !well_formed(&cs) {
        return Err(VogixError::Template(TemplateError::Syntax));
    }
    match render_chars(&cs, colors) {
        Ok(s) => Ok(s),
        Err(e) => Err(VogixError::Template(e)),
    }
}

/// Removing leading `#` twice is removing them once, and a value gives the
/// same result with or without a leading `#`.
pub proof fn lemma_strip_hash_idempotent(x: Seq<char>)
    ensures
        trim_hashes(trim_hashes(x)) == trim_hashes(x),
        trim_hashes(seq!['#'] + x) == trim_hashes(x),
    decreases x.len(),
{
    assert((seq!['#'] + x).drop_first() =~= x);
    if x.len() > 0 && x[0] == '#' {
        lemma_strip_hash_idempotent(x.drop_first());
    }
}

/// `close_offset` finds the first `}}`: none starts in `s[from..q]` and one
/// starts at `q`.
proof fn lemma_close_offset_at(s: Seq<char>, from: int, q: int)
    requires
        0 <= from <= q,
        q + 1 < s.len(),
        s[q] == '}' && s[q + 1] == '}',
        forall|j: int| from <= j < q ==> s[j] != '}',
    ensures
        close_offset(s, from) == Some((q - from) as nat),
    decreases q - from,
{
    if from < q {
        lemma_close_offset_at(s, from + 1, q);
    }
}

/// Text with no `|` is one part.
proof fn lemma_split_without_bar(e: Seq<char>)
    requires
        forall|i: int| 0 <= i < e.len() ==> e[i] != '|',
    ensures
        split_bars(e) == seq![e],
    decreases e.len(),
{
    if e.len() > 0 {
        lemma_split_without_bar(e.drop_last());
        assert(e.drop_last().push(e.last()) =~= e);
        let t = split_bars(e.drop_last());
        assert(t.update(t.len() - 1, t.last().push(e.last())) =~= seq![e]);
    } else {
        assert(e =~= Seq::<char>::empty());
    }
}

/// A template that is a single tag naming a present key, with no filter,
/// renders to exactly that key's value, unmodified.
pub proof fn lemma_single_tag_renders_value(key: Seq<char>, colors: Map<Seq<char>, Seq<char>>)
    requires
        is_ident(key),
        colors.contains_key(key),
    ensures
        render(seq!['{', '{', ' '] + "colors."@ + key + seq![' ', '}', '}'], colors) == Ok::<Seq<char>, Fault>(colors[key]),
{
    reveal_strlit("colors.");
    let c = "colors."@;
    assert(c =~= seq!['c', 'o', 'l', 'o', 'r', 's', '.']);
    let s = seq!['{', '{', ' '] + c + key + seq![' ', '}', '}'];
    let k = key.len() as int;
    assert(s.len() == 13 + k);
    assert forall|j: int| 2 <= j < 11 + k implies s[j] != '}' by {
        if 10 <= j < 10 + k {
            assert(s[j] == key[j - 10]);
            assert(is_ident_char(key[j - 10]));
        }
    }
    lemma_close_offset_at(s, 2, 11 + k);
    let e = s.subrange(2, 11 + k);
    assert(e =~= seq![' '] + c + key + seq![' ']);
    assert forall|i: int| 0 <= i < e.len() implies e[i] != '|' by {
        if 8 <= i < 8 + k {
            assert(e[i] == key[i - 8]);
            assert(is_ident_char(key[i - 8]));
        }
    }
    lemma_split_without_bar(e);
    let x = e.drop_first();
    assert(x =~= c + key + seq![' ']);
    assert(!is_space(x[0]));
    assert(trim_start(x) == x);
    assert(trim_start(e) == x);
    let v = x.drop_last();
    assert(v =~= c + key);
    assert(is_ident_char(key[k - 1]));
    assert(v.last() == key[k - 1]);
    assert(trim_end(v) == v);
    assert(trim_end(x) == v);
    assert(trim(e) == v);
    assert(v.subrange(0, 7) =~= c);
    assert(v.subrange(7, v.len() as int) =~= key);
    assert(trimmed_tail(split_bars(e)) =~= Seq::<Seq<char>>::empty());
    assert(parse_tag(e) == Some((key, Seq::<Seq<char>>::empty())));
    assert(eval_tag(e, colors) == Ok::<Seq<char>, Fault>(colors[key]));
    assert(opens_at(s, 0));
    assert(well_formed_from(s, 13 + k));
    assert(well_formed_from(s, 0));
    assert(render_from(s, 13 + k, colors) == Ok::<Seq<char>, Fault>(Seq::empty()));
    assert(colors[key] + Seq::<char>::empty() =~= colors[key]);
    assert(render_from(s, 0, colors) == Ok::<Seq<char>, Fault>(colors[key]));
}

/// The text of a tag: `{{ colors.<key> }}`.
pub open spec fn tag_of(key: Seq<char>) -> Seq<char> {
    seq!['{', '{', ' '] + "colors."@ + key + seq![' ', '}', '}']
}

/// The inside of `{{ colors.<key> }}` names `key` with no filter, and so
/// stands for the key's value.
proof fn lemma_tag_text(key: Seq<char>, colors: Map<Seq<char>, Seq<char>>)
    requires
        is_ident(key),
    ensures
        parse_tag(seq![' '] + "colors."@ + key + seq![' ']) == Some((key, Seq::<Seq<char>>::empty())),
        colors.contains_key(key) ==> eval_tag(seq![' '] + "colors."@ + key + seq![' '], colors) == Ok::<Seq<char>, Fault>(colors[key]),
{
    reveal_strlit("colors.");
    let c = "colors."@;
    assert(c =~= seq!['c', 'o', 'l', 'o', 'r', 's', '.']);
    let k = key.len() as int;
    let e = seq![' '] + c + key + seq![' '];
    assert forall|i: int| 0 <= i < e.len() implies e[i] != '|' by {
        if 8 <= i < 8 + k {
            assert(e[i] == key[i - 8]);
            assert(is_ident_char(key[i - 8]));
        }
    }
    lemma_split_without_bar(e);
    let x = e.drop_first();
    assert(x =~= c + key + seq![' ']);
    assert(!is_space(x[0]));
    assert(trim_start(x) == x);
    assert(trim_start(e) == x);
    let v = x.drop_last();
    assert(v =~= c + key);
    assert(is_ident_char(key[k - 1]));
    assert(v.last() == key[k - 1]);
    assert(trim_end(v) == v);
    assert(trim_end(x) == v);
    assert(trim(e) == v);
    assert(v.subrange(0, 7) =~= c);
    assert(v.subrange(7, v.len() as int) =~= key);
    assert(trimmed_tail(split_bars(e)) =~= Seq::<Seq<char>>::empty());
}

/// A tag `{{ colors.<key> }}` starting at `o` is well formed, and renders as
/// the key's value followed by what comes after it.
proof fn lemma_tag_at(s: Seq<char>, o: int, key: Seq<char>, colors: Map<Seq<char>, Seq<char>>)
    requires
        is_ident(key),
        colors.contains_key(key),
        0 <= o,
        o + 13 + key.len() <= s.len(),
        s.subrange(o, o + 13 + key.len()) == tag_of(key),
    ensures
        well_formed_from(s, o) == well_formed_from(s, o + 13 + key.len()),
        render_from(s, o, colors) == prepend(colors[key], render_from(s, o + 13 + key.len(), colors)),
{
    reveal_strlit("colors.");
    let k = key.len() as int;
    let t = tag_of(key);
    assert(t.len() == 13 + k);
    assert forall|j: int| 0 <= j < 13 + k implies s[o + j] == t[j] by {
        assert(s.subrange(o, o + 13 + k)[j] == s[o + j]);
    }
    assert forall|j: int| o + 2 <= j < o + 11 + k implies s[j] != '}' by {
        assert(s[j] == t[j - o]);
        if 10 <= j - o < 10 + k {
            assert(t[j - o] == key[j - o - 10]);
            assert(is_ident_char(key[j - o - 10]));
        }
    }
    assert(s[o + 11 + k] == t[11 + k]);
    assert(s[o + 12 + k] == t[12 + k]);
    lemma_close_offset_at(s, o + 2, o + 11 + k);
    assert(s.subrange(o + 2, o + 11 + k) =~= seq![' '] + "colors."@ + key + seq![' ']) by {
        assert forall|j: int| 0 <= j < 9 + k implies s.subrange(o + 2, o + 11 + k)[j] == (seq![' '] + "colors."@ + key + seq![' '])[j] by {
            assert(s[o + 2 + j] == t[2 + j]);
        }
    }
    lemma_tag_text(key, colors);
    assert(s[o] == t[0] && s[o + 1] == t[1]);
    assert(opens_at(s, o));
}

/// Text without `{` from `i` to `j` is copied as it stands and holds no tag.
proof fn lemma_plain_run(s: Seq<char>, i: int, j: int, colors: Map<Seq<char>, Seq<char>>)
    requires
        0 <= i <= j <= s.len(),
        forall|t: int| i <= t < j ==> s[t] != '{',
    ensures
        well_formed_from(s, i) == well_formed_from(s, j),
        render_from(s, i, colors) == prepend(s.subrange(i, j), render_from(s, j, colors)),
    decreases j - i,
{
    if i < j {
        lemma_plain_run(s, i + 1, j, colors);
        assert(!opens_at(s, i));
        lemma_prepend_assoc(seq![s[i]], s.subrange(i + 1, j), render_from(s, j, colors));
        assert(seq![s[i]] + s.subrange(i + 1, j) =~= s.subrange(i, j));
    } else {
        if let Ok(x) = render_from(s, j, colors) {
            assert(s.subrange(i, j) + x =~= x);
        }
    }
}

/// A template that is plain text, one tag naming a present key with no
/// filter, and plain text again (neither holding `{`) renders with the tag
/// replaced by the key's value, unmodified.
pub proof fn lemma_tag_between(p: Seq<char>, key: Seq<char>, q: Seq<char>, colors: Map<Seq<char>, Seq<char>>)
    requires
        is_ident(key),
        colors.contains_key(key),
        forall|t: int| 0 <= t < p.len() ==> p[t] != '{',
        forall|t: int| 0 <= t < q.len() ==> q[t] != '{',
    ensures
        render(p + tag_of(key) + q, colors) == Ok::<Seq<char>, Fault>(p + colors[key] + q),
{
    reveal_strlit("colors.");
    let s = p + tag_of(key) + q;
    let a = p.len() as int;
    let b = a + 13 + key.len();
    assert(tag_of(key).len() == 13 + key.len());
    assert(s.len() == b + q.len());
    assert forall|t: int| 0 <= t < a implies s[t] != '{' by {
        assert(s[t] == p[t]);
    }
    assert forall|t: int| b <= t < s.len() implies s[t] != '{' by {
        assert(s[t] == q[t - b]);
    }
    lemma_plain_run(s, 0, a, colors);
    assert(s.subrange(a, b) =~= tag_of(key));
    lemma_tag_at(s, a, key, colors);
    lemma_plain_run(s, b, s.len() as int, colors);
    assert(s.subrange(0, a) =~= p);
    assert(s.subrange(b, s.len() as int) =~= q);
    assert(well_formed_from(s, s.len() as int));
    assert(render_from(s, s.len() as int, colors) == Ok::<Seq<char>, Fault>(Seq::empty()));
    assert(q + Seq::<char>::empty() =~= q);
    lemma_prepend_assoc(p, colors[key], Ok::<Seq<char>, Fault>(q));
    assert(p + (colors[key] + q) =~= p + colors[key] + q);
}

} // verus!
