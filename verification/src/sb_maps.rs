//! Switch-block map files: a YAML mapping from grid-location patterns such as
//! `SB_[2:10:2]__*_` to switch-block template files, and the lookup of the
//! template that applies at a grid location.
use vstd::prelude::*;
use crate::text::{decimal, is_digit, lemma_decimal_value, lemma_parse_decimal, IntErrorKind, spec_parse_usize, int_error_text, split_by, chars_of, parse_usize, int_error_message, split_chars, views, string_from_chars, contains_char, slice_chars, single_char};
use crate::yaml::{YamlValue, yaml_documents, load_yaml_documents};

verus! {

broadcast use vstd::string::group_string_axioms;

/// One dimension of a switch-block pattern.
#[derive(Debug, PartialEq)]
pub enum SBPatternVal {
    Constant { val: usize },
    Wildcard,
    List { vals: Vec<usize> },
    Range { start: usize, end: usize, step: usize },
}

/// The mathematical value of an `SBPatternVal`.
pub enum PatternValView {
    Constant(usize),
    Wildcard,
    List(Seq<usize>),
    Range(usize, usize, usize),
}

impl View for SBPatternVal {
    type V = PatternValView;

    open spec fn view(&self) -> PatternValView {
        match self {
            SBPatternVal::Constant { val } => PatternValView::Constant(*val),
            SBPatternVal::Wildcard => PatternValView::Wildcard,
            SBPatternVal::List { vals } => PatternValView::List(vals@),
            SBPatternVal::Range { start, end, step } => PatternValView::Range(*start, *end, *step),
        }
    }
}

/// A pattern over both grid dimensions.
pub struct SBPattern {
    pub x_pattern: SBPatternVal,
    pub y_pattern: SBPatternVal,
}

/// What a pattern maps to: a template file, or no switch block.
#[derive(Debug, PartialEq)]
pub enum SBMapTemplate {
    File { file_name: String },
    Null,
}

impl View for SBMapTemplate {
    type V = Option<Seq<char>>;

    open spec fn view(&self) -> Option<Seq<char>> {
        match self {
            SBMapTemplate::File { file_name } => Some(file_name@),
            SBMapTemplate::Null => None,
        }
    }
}

/// One entry of a switch-block map.
pub struct SBMapPattern {
    pub pattern: SBPattern,
    pub template: SBMapTemplate,
}

/// The value of an entry: x pattern, y pattern, template file (or none).
pub type SBMapEntryView = (PatternValView, PatternValView, Option<Seq<char>>);

impl View for SBMapPattern {
    type V = SBMapEntryView;

    open spec fn view(&self) -> SBMapEntryView {
        (self.pattern.x_pattern@, self.pattern.y_pattern@, self.template@)
    }
}

/// `v` is selected by the pattern value `p`.
pub open spec fn val_matches(p: PatternValView, v: usize) -> bool {
    match p {
        PatternValView::Wildcard => true,
        PatternValView::Constant(c) => v == c,
        PatternValView::List(vals) => vals.contains(v),
        PatternValView::Range(start, end, step) => start <= v && v <= end && (if step == 0 {
            v == start
        } else {
            (v - start) % (step as int) == 0
        }),
    }
}

/// The location `(x, y)` is selected by the entry `e`.
pub open spec fn entry_matches(e: SBMapEntryView, x: usize, y: usize) -> bool {
    val_matches(e.0, x) && val_matches(e.1, y)
}

/// The values of a sequence of entries.
pub open spec fn entry_views(p: Seq<SBMapPattern>) -> Seq<SBMapEntryView> {
    p.map_values(|e: SBMapPattern| e@)
}

/// The texts of a sequence of strings.
pub open spec fn string_views(v: Seq<String>) -> Seq<Seq<char>> {
    v.map_values(|s: String| s@)
}

/// `names` lists each template file of `entries` exactly once.
pub open spec fn is_file_name_set(entries: Seq<SBMapEntryView>, names: Seq<Seq<char>>) -> bool {
    &&& names.no_duplicates()
    &&& forall|f: Seq<char>|
        #![trigger names.contains(f)]
        names.contains(f) <==> exists|i: int| 0 <= i < entries.len() && entries[i].2 == Some(f)
}

/// Tells whether `v` is selected by `pattern`.
pub fn check_for_val_pattern_match(pattern: &SBPatternVal, v: usize) -> (b: bool)
    ensures
        b == val_matches(pattern@, v),
{
    match pattern {
        SBPatternVal::Wildcard => true,
        SBPatternVal::Constant { val } => v == *val,
        SBPatternVal::List { vals } => contains_usize(vals, v),
        SBPatternVal::Range { start, end, step } => {
            if v > *end || v < *start {
                false
            } else if *step == 0 {
                v == *start
            } else {
                (v - *start) % *step == 0
            }
        }
    }
}

/// Tells whether `v` is an element of `vals`.
fn contains_usize(vals: &Vec<usize>, v: usize) -> (b: bool)
    ensures
        b == vals@.contains(v),
{
    let mut i: usize = 0;
    while i < vals.len()
        invariant
            i <= vals.len(),
            forall|j: int| 0 <= j < i ==> vals@[j] != v,
        decreases vals.len() - i,
    {
        if vals[i] == v {
            assert(vals@[i as int] == v);
            return true;
        }
        i = i + 1;
    }
    false
}

/// Tells whether the location `(x, y)` is selected by `pattern`.
pub fn check_for_pattern_match(pattern: &SBPattern, x: usize, y: usize) -> (b: bool)
    ensures
        b == (val_matches(pattern.x_pattern@, x) && val_matches(pattern.y_pattern@, y)),
{
    check_for_val_pattern_match(&pattern.x_pattern, x) && check_for_val_pattern_match(
        &pattern.y_pattern,
        y,
    )
}

/// A parsed switch-block map: its entries in file order and the template files
/// that they name.
pub struct SBMaps {
    patterns: Vec<SBMapPattern>,
    unique_file_names: Vec<String>,
}

impl SBMaps {
    /// The entries, in file order.
    pub closed spec fn spec_patterns(&self) -> Seq<SBMapPattern> {
        self.patterns@
    }

    /// The template files named by the entries.
    pub closed spec fn spec_file_names(&self) -> Seq<String> {
        self.unique_file_names@
    }

    #[verifier::type_invariant]
    closed spec fn inv(&self) -> bool {
        is_file_name_set(entry_views(self.patterns@), string_views(self.unique_file_names@))
    }

    /// The entries, in file order.
    pub fn patterns(&self) -> (r: &Vec<SBMapPattern>)
        ensures
            r@ == self.spec_patterns(),
    {
        &self.patterns
    }

    /// The template of the first entry, in file order, that selects `(x, y)`.
    pub fn get_sb_template(&self, x: usize, y: usize) -> (r: Option<&SBMapTemplate>)
        ensures
            match r {
                Some(t) => exists|i: int|
                    0 <= i < self.spec_patterns().len() && entry_matches(self.spec_patterns()[i]@, x, y)
                        && (forall|j: int| 0 <= j < i ==> !entry_matches(self.spec_patterns()[j]@, x, y))
                        && *t == self.spec_patterns()[i].template,
                None => forall|i: int|
                    0 <= i < self.spec_patterns().len() ==> !entry_matches(self.spec_patterns()[i]@, x, y),
            },
    {
        let mut i: usize = 0;
        while i < self.patterns.len()
            invariant
                i <= self.patterns.len(),
                forall|j: int| 0 <= j < i ==> !entry_matches(self.patterns@[j]@, x, y),
            decreases self.patterns.len() - i,
        {
            if check_for_pattern_match(&self.patterns[i].pattern, x, y) {
                assert(entry_matches(self.spec_patterns()[i as int]@, x, y));
                return Some(&self.patterns[i].template);
            }
            i = i + 1;
        }
        None
    }

    /// Each template file named by an entry, once.
    pub fn get_unique_file_names(&self) -> (r: &Vec<String>)
        ensures
            r@ == self.spec_file_names(),
            is_file_name_set(entry_views(self.spec_patterns()), string_views(r@)),
    {
        proof {
            use_type_invariant(self);
        }
        &self.unique_file_names
    }
}

} // verus!

verus! {

// ------------------------------------------------------------------
// Parsing pattern keys
// ------------------------------------------------------------------

/// The numbers of a comma-separated list, or the error of its first bad element.
pub open spec fn spec_parse_list_vals(parts: Seq<Seq<char>>) -> Result<Seq<usize>, IntErrorKind>
    decreases parts.len(),
{
    if parts.len() == 0 {
        Ok(Seq::empty())
    } else {
        match spec_parse_usize(parts[0]) {
            Err(e) => Err(e),
            Ok(v) => match spec_parse_list_vals(parts.drop_first()) {
                Err(e) => Err(e),
                Ok(vs) => Ok(seq![v] + vs),
            },
        }
    }
}

/// A range `[start:end:step]` (brackets included in `s`).
pub open spec fn spec_parse_range(s: Seq<char>) -> Result<PatternValView, Seq<char>> {
    let parts = split_by(s.subrange(1, s.len() - 1), seq![':']);
    if parts.len() != 3 {
        Err("Range expected to have 3 elements: "@ + s)
    } else {
        match spec_parse_usize(parts[0]) {
            Err(e) => Err("Error parsing range start element in pattern "@ + s + ": "@ + int_error_text(e)),
            Ok(start) => match spec_parse_usize(parts[1]) {
                Err(e) => Err("Error parsing range end element in pattern "@ + s + ": "@ + int_error_text(e)),
                Ok(end) => match spec_parse_usize(parts[2]) {
                    Err(e) => Err("Error parsing range step element in pattern "@ + s + ": "@ + int_error_text(e)),
                    Ok(step) => if step == 0 {
                        Err("Range step must be greater than 0 in pattern "@ + s)
                    } else if start > end {
                        Err("Range start must be less than or equal to end in pattern "@ + s)
                    } else {
                        Ok(PatternValView::Range(start, end, step))
                    },
                },
            },
        }
    }
}

/// One dimension of a pattern key: `*` (or `\*`), a number, a comma-separated list
/// of numbers, or a range `[start:end:step]`.
pub open spec fn spec_parse_sb_pattern_val(s: Seq<char>) -> Result<PatternValView, Seq<char>> {
    if s == seq!['\\', '*'] || s == seq!['*'] {
        Ok(PatternValView::Wildcard)
    } else if spec_parse_usize(s) is Ok {
        Ok(PatternValView::Constant(spec_parse_usize(s)->Ok_0))
    } else if s.contains(',') {
        match spec_parse_list_vals(split_by(s, seq![','])) {
            Ok(vs) => Ok(PatternValView::List(vs)),
            Err(e) => Err("Error parsing list element: "@ + int_error_text(e)),
        }
    } else if s.contains(':') && s.len() > 0 && s[0] == '[' && s[s.len() - 1] == ']' {
        spec_parse_range(s)
    } else {
        Err("Could not parse SB pattern: "@ + s)
    }
}

/// The key `SB_` alone, on which the pattern parser cannot cut out a body.
pub open spec fn is_bare_prefix(s: Seq<char>) -> bool {
    s == seq!['S', 'B', '_']
}

/// A pattern key `SB_<x>__<y>_`.
pub open spec fn spec_parse_sb_pattern(s: Seq<char>) -> Result<(PatternValView, PatternValView), Seq<char>> {
    if !(s.len() >= 3 && s[0] == 'S' && s[1] == 'B' && s[2] == '_') {
        Err("SB pattern should start with 'SB_'. Pattern found: "@ + s)
    } else if s[s.len() - 1] != '_' {
        Err("SB pattern should end with '_'. Pattern found: "@ + s)
    } else {
        let body = s.subrange(3, s.len() - 1);
        let parts = split_by(body, seq!['_', '_']);
        if parts.len() != 2 {
            Err("SB pattern should have two pattern dimensions. Pattern found: "@ + body)
        } else {
            match spec_parse_sb_pattern_val(parts[0]) {
                Err(e) => Err(e),
                Ok(x) => match spec_parse_sb_pattern_val(parts[1]) {
                    Err(e) => Err(e),
                    Ok(y) => Ok((x, y)),
                },
            }
        }
    }
}

/// Tells the value view of a parse result.
pub open spec fn val_result_view(r: Result<SBPatternVal, String>) -> Result<PatternValView, Seq<char>> {
    match r {
        Ok(p) => Ok(p@),
        Err(e) => Err(e@),
    }
}

/// `prefix` followed by what `rest` holds, or the error of `rest`.
pub open spec fn prepend_vals(prefix: Seq<usize>, rest: Result<Seq<usize>, IntErrorKind>) -> Result<Seq<usize>, IntErrorKind> {
    match rest {
        Ok(vs) => Ok(prefix + vs),
        Err(e) => Err(e),
    }
}

fn parse_list_vals(c: &Vec<char>) -> (r: Result<Vec<usize>, IntErrorKind>)
    ensures
        match r {
            Ok(vs) => spec_parse_list_vals(split_by(c@, seq![','])) == Ok::<Seq<usize>, IntErrorKind>(vs@),
            Err(e) => spec_parse_list_vals(split_by(c@, seq![','])) == Err::<Seq<usize>, IntErrorKind>(e),
        },
{
    let sep = single_char(',');
    let parts = split_chars(c, &sep);
    let ghost p = views(parts@);
    let mut vals: Vec<usize> = Vec::new();
    let mut i: usize = 0;
    assert(p.skip(0) =~= p);
    while i < parts.len()
        invariant
            p == views(parts@),
            p == split_by(c@, seq![',']),
            i <= parts.len(),
            spec_parse_list_vals(p) == prepend_vals(vals@, spec_parse_list_vals(p.skip(i as int))),
        decreases parts.len() - i,
    {
        assert(p.skip(i as int)[0] == parts@[i as int]@);
        assert(p.skip(i as int).drop_first() =~= p.skip(i + 1));
        match parse_usize(&parts[i]) {
            Err(e) => {
                return Err(e);
            }
            Ok(v) => {
                let ghost old_vals = vals@;
                vals.push(v);
                assert(vals@ =~= old_vals + seq![v]);
                proof {
                    match spec_parse_list_vals(p.skip(i + 1)) {
                        Ok(vs) => {
                            assert(old_vals + (seq![v] + vs) =~= vals@ + vs);
                        }
                        Err(e) => {}
                    }
                }
            }
        }
        i = i + 1;
    }
    assert(p.skip(i as int) =~= Seq::<Seq<char>>::empty());
    assert(vals@ + Seq::<usize>::empty() =~= vals@);
    Ok(vals)
}

/// `prefix` + `s` + `: ` + the text of `e`.
fn range_error_message(prefix: &str, s: &String, e: IntErrorKind) -> (r: String)
    ensures
        r@ == prefix@ + s@ + ": "@ + int_error_text(e),
{
    let mut m = String::from_str(prefix);
    m.append(s.as_str());
    m.append(": ");
    let t = int_error_message(e);
    m.append(t.as_str());
    m
}

fn parse_range(c: &Vec<char>) -> (r: Result<SBPatternVal, String>)
    requires
        c.len() >= 2,
    ensures
        val_result_view(r) == spec_parse_range(c@),
{
    let text = string_from_chars(c);
    let inner = slice_chars(c, 1, c.len() - 1);
    let sep = single_char(':');
    let parts = split_chars(&inner, &sep);
    if parts.len() != 3 {
        let mut m = String::from_str("Range expected to have 3 elements: ");
        m.append(text.as_str());
        return Err(m);
    }
    assert(parts@[0]@ == views(parts@)[0]);
    assert(parts@[1]@ == views(parts@)[1]);
    assert(parts@[2]@ == views(parts@)[2]);
    let start = match parse_usize(&parts[0]) {
        Ok(v) => v,
        Err(e) => {
            return Err(range_error_message("Error parsing range start element in pattern ", &text, e));
        }
    };
    let end = match parse_usize(&parts[1]) {
        Ok(v) => v,
        Err(e) => {
            return Err(range_error_message("Error parsing range end element in pattern ", &text, e));
        }
    };
    let step = match parse_usize(&parts[2]) {
        Ok(v) => v,
        Err(e) => {
            return Err(range_error_message("Error parsing range step element in pattern ", &text, e));
        }
    };
    if step == 0 {
        let mut m = String::from_str("Range step must be greater than 0 in pattern ");
        m.append(text.as_str());
        return Err(m);
    }
    if start > end {
        let mut m = String::from_str("Range start must be less than or equal to end in pattern ");
        m.append(text.as_str());
        return Err(m);
    }
    Ok(SBPatternVal::Range { start, end, step })
}

fn parse_sb_pattern_val_chars(c: &Vec<char>) -> (r: Result<SBPatternVal, String>)
    ensures
        val_result_view(r) == spec_parse_sb_pattern_val(c@),
{
    if (c.len() == 2 && c[0] == '\\' && c[1] == '*') || (c.len() == 1 && c[0] == '*') {
        assert(c@ =~= seq!['\\', '*'] || c@ =~= seq!['*']);
        return Ok(SBPatternVal::Wildcard);
    }
    assert(c@ != seq!['\\', '*'] && c@ != seq!['*']) by {
        if c@ == seq!['\\', '*'] {
            assert(c@[0] == '\\' && c@[1] == '*');
        }
        if c@ == seq!['*'] {
            assert(c@[0] == '*');
        }
    }
    if let Ok(val) = parse_usize(c) {
        return Ok(SBPatternVal::Constant { val });
    }
    if contains_char(c, ',') {
        return match parse_list_vals(c) {
            Ok(vals) => Ok(SBPatternVal::List { vals }),
            Err(e) => {
                let mut m = String::from_str("Error parsing list element: ");
                let t = int_error_message(e);
                m.append(t.as_str());
                Err(m)
            }
        };
    }
    if contains_char(c, ':') && c.len() > 0 && c[0] == '[' && c[c.len() - 1] == ']' {
        assert(c@[0] != ':');
        assert(c.len() >= 2) by {
            if c.len() == 1 {
                assert(c@.contains(':'));
            }
        }
        return parse_range(c);
    }
    let mut m = String::from_str("Could not parse SB pattern: ");
    let text = string_from_chars(c);
    m.append(text.as_str());
    Err(m)
}

/// Reads one dimension of a pattern key.
pub fn parse_sb_pattern_val(pattern_str: &str) -> (r: Result<SBPatternVal, String>)
    ensures
        val_result_view(r) == spec_parse_sb_pattern_val(pattern_str@),
{
    let c = chars_of(pattern_str);
    parse_sb_pattern_val_chars(&c)
}

/// Tells the view of a pattern parse result.
pub open spec fn pattern_result_view(r: Result<SBPattern, String>) -> Result<(PatternValView, PatternValView), Seq<char>> {
    match r {
        Ok(p) => Ok((p.x_pattern@, p.y_pattern@)),
        Err(e) => Err(e@),
    }
}

fn parse_sb_pattern_chars(c: &Vec<char>) -> (r: Result<SBPattern, String>)
    requires
        !is_bare_prefix(c@),
    ensures
        pattern_result_view(r) == spec_parse_sb_pattern(c@),
{
    if !(c.len() >= 3 && c[0] == 'S' && c[1] == 'B' && c[2] == '_') {
        let mut m = String::from_str("SB pattern should start with 'SB_'. Pattern found: ");
        let text = string_from_chars(c);
        m.append(text.as_str());
        return Err(m);
    }
    if c[c.len() - 1] != '_' {
        let mut m = String::from_str("SB pattern should end with '_'. Pattern found: ");
        let text = string_from_chars(c);
        m.append(text.as_str());
        return Err(m);
    }
    assert(c.len() > 3) by {
        if c.len() == 3 {
            assert(c@ =~= seq!['S', 'B', '_']);
        }
    }
    let body = slice_chars(c, 3, c.len() - 1);
    let mut sep = single_char('_');
    sep.push('_');
    assert(sep@ =~= seq!['_', '_']);
    let parts = split_chars(&body, &sep);
    if parts.len() != 2 {
        let mut m = String::from_str("SB pattern should have two pattern dimensions. Pattern found: ");
        let text = string_from_chars(&body);
        m.append(text.as_str());
        return Err(m);
    }
    assert(parts@[0]@ == views(parts@)[0]);
    assert(parts@[1]@ == views(parts@)[1]);
    let x_pattern = parse_sb_pattern_val_chars(&parts[0])?;
    let y_pattern = parse_sb_pattern_val_chars(&parts[1])?;
    Ok(SBPattern { x_pattern, y_pattern })
}

/// Reads a pattern key `SB_<x>__<y>_`.
pub fn parse_sb_pattern(sb_pattern_string: &str) -> (r: Result<SBPattern, String>)
    requires
        !is_bare_prefix(sb_pattern_string@),
    ensures
        pattern_result_view(r) == spec_parse_sb_pattern(sb_pattern_string@),
{
    let c = chars_of(sb_pattern_string);
    parse_sb_pattern_chars(&c)
}

} // verus!

verus! {

// ------------------------------------------------------------------
// The YAML file
// ------------------------------------------------------------------

/// What a YAML value gives as a template: a file name, none for null, or an error.
pub open spec fn spec_template(v: YamlValue) -> Result<Option<Seq<char>>, Seq<char>> {
    match v {
        YamlValue::Str(f) => Ok(Some(f@)),
        YamlValue::Null => Ok(None),
        _ => Err("SB template expected to be a string or null."@),
    }
}

/// The entry that a key and a value of the `SB_MAPS` mapping give, or its error.
pub open spec fn spec_entry(k: YamlValue, v: YamlValue) -> Result<SBMapEntryView, Seq<char>> {
    match k {
        YamlValue::Str(ks) => match spec_parse_sb_pattern(ks@) {
            Err(e) => Err(e),
            Ok(xy) => match spec_template(v) {
                Err(e) => Err(e),
                Ok(t) => Ok((xy.0, xy.1, t)),
            },
        },
        _ => Err("SB pattern expected to be a string."@),
    }
}

/// The key is the bare `SB_` string.
pub open spec fn key_is_bare_prefix(k: YamlValue) -> bool {
    match k {
        YamlValue::Str(ks) => is_bare_prefix(ks@),
        _ => false,
    }
}

/// The entries of the `SB_MAPS` mapping, in order, or the error of the first bad one.
pub open spec fn spec_entries(es: Seq<(YamlValue, YamlValue)>) -> Result<Seq<SBMapEntryView>, Seq<char>>
    decreases es.len(),
{
    if es.len() == 0 {
        Ok(Seq::empty())
    } else {
        match spec_entry(es[0].0, es[0].1) {
            Err(e) => Err(e),
            Ok(x) => match spec_entries(es.drop_first()) {
                Err(e) => Err(e),
                Ok(xs) => Ok(seq![x] + xs),
            },
        }
    }
}

/// Reading the entries in order meets a bare `SB_` key before any bad entry.
pub open spec fn entries_reach_bare_prefix(es: Seq<(YamlValue, YamlValue)>) -> bool
    decreases es.len(),
{
    if es.len() == 0 {
        false
    } else if key_is_bare_prefix(es[0].0) {
        true
    } else if spec_entry(es[0].0, es[0].1) is Err {
        false
    } else {
        entries_reach_bare_prefix(es.drop_first())
    }
}

/// The entries of the `SB_MAPS` mapping of a loaded file, or the error that stops
/// reading before them.
pub open spec fn spec_sb_maps_entries(loaded: Result<Vec<YamlValue>, String>) -> Result<Seq<(YamlValue, YamlValue)>, Seq<char>> {
    match loaded {
        Err(e) => Err(e@),
        Ok(docs) => if docs@.len() != 1 {
            Err("YAML file has more than one document. Something went wrong."@)
        } else {
            match docs@[0] {
                YamlValue::Mapping(top) => if top@.len() != 1 {
                    Err("Top-level hash expected to only contain the key 'SB_MAPS'"@)
                } else if !(top@[0].0 matches YamlValue::Str(k) && k@ == "SB_MAPS"@) || top@[0].1 is Bad {
                    Err("Missing top-level key 'SB_MAPS'."@)
                } else {
                    match top@[0].1 {
                        YamlValue::Mapping(es) => Ok(es@),
                        _ => Err("SB_MAPS YAML object expected to be a hash."@),
                    }
                },
                _ => Err("Top-level YAML object expected to be a hash."@),
            }
        },
    }
}

/// The entries that a loaded switch-block map file gives, or its error.
pub open spec fn spec_sb_maps_from_yaml(loaded: Result<Vec<YamlValue>, String>) -> Result<Seq<SBMapEntryView>, Seq<char>> {
    match spec_sb_maps_entries(loaded) {
        Err(e) => Err(e),
        Ok(es) => spec_entries(es),
    }
}

/// Reading the loaded file meets a bare `SB_` key, which the pattern parser
/// cannot cut a body out of.
pub open spec fn sb_maps_yaml_reaches_bare_prefix(loaded: Result<Vec<YamlValue>, String>) -> bool {
    match spec_sb_maps_entries(loaded) {
        Err(_) => false,
        Ok(es) => entries_reach_bare_prefix(es),
    }
}

/// The value of a result of reading a switch-block map.
pub open spec fn sb_maps_result_view(r: Result<SBMaps, String>) -> Result<Seq<SBMapEntryView>, Seq<char>> {
    match r {
        Ok(m) => Ok(entry_views(m.spec_patterns())),
        Err(e) => Err(e@),
    }
}

/// `prefix` followed by what `rest` holds, or the error of `rest`.
pub open spec fn prepend_entries(prefix: Seq<SBMapEntryView>, rest: Result<Seq<SBMapEntryView>, Seq<char>>) -> Result<Seq<SBMapEntryView>, Seq<char>> {
    match rest {
        Ok(xs) => Ok(prefix + xs),
        Err(e) => Err(e),
    }
}

fn sb_entry(k: &YamlValue, v: &YamlValue) -> (r: Result<SBMapPattern, String>)
    requires
        !key_is_bare_prefix(*k),
    ensures
        match r {
            Ok(p) => spec_entry(*k, *v) == Ok::<SBMapEntryView, Seq<char>>(p@),
            Err(e) => spec_entry(*k, *v) == Err::<SBMapEntryView, Seq<char>>(e@),
        },
{
    match k {
        YamlValue::Str(ks) => {
            let c = chars_of(ks.as_str());
            let pattern = parse_sb_pattern_chars(&c)?;
            let template = match v {
                YamlValue::Str(f) => SBMapTemplate::File { file_name: f.clone() },
                YamlValue::Null => SBMapTemplate::Null,
                _ => {
                    return Err(String::from_str("SB template expected to be a string or null."));
                }
            };
            Ok(SBMapPattern { pattern, template })
        }
        _ => Err(String::from_str("SB pattern expected to be a string.")),
    }
}

/// Adds `f` to `names` unless it is there already.
fn insert_name(names: &mut Vec<String>, f: &String)
    requires
        string_views(old(names)@).no_duplicates(),
    ensures
        string_views(final(names)@).no_duplicates(),
        forall|g: Seq<char>|
            string_views(final(names)@).contains(g) <==> (string_views(old(names)@).contains(g) || g == f@),
{
    let mut i: usize = 0;
    while i < names.len()
        invariant
            i <= names.len(),
            names@ == old(names)@,
            string_views(old(names)@).no_duplicates(),
            forall|j: int| 0 <= j < i ==> names@[j]@ != f@,
        decreases names.len() - i,
    {
        if names[i] == *f {
            assert(string_views(names@)[i as int] == f@);
            return;
        }
        i = i + 1;
    }
    let ghost before = string_views(names@);
    names.push(f.clone());
    assert(string_views(names@) =~= before.push(f@));
    assert(!before.contains(f@)) by {
        if before.contains(f@) {
            let j = choose|j: int| 0 <= j < before.len() && before[j] == f@;
            assert(names@[j]@ == f@);
        }
    }
    assert forall|g: Seq<char>| string_views(names@).contains(g) <==> (before.contains(g) || g == f@) by {
        if string_views(names@).contains(g) {
            let j = choose|j: int| 0 <= j < string_views(names@).len() && string_views(names@)[j] == g;
            if j < before.len() {
                assert(before[j] == g);
            }
        }
        if before.contains(g) {
            let j = choose|j: int| 0 <= j < before.len() && before[j] == g;
            assert(string_views(names@)[j] == g);
        }
        if g == f@ {
            assert(string_views(names@)[before.len() as int] == g);
        }
    }
}

/// Reads a switch-block map from loaded YAML documents.
pub fn sb_maps_from_yaml(loaded: Result<Vec<YamlValue>, String>) -> (r: Result<SBMaps, String>)
    requires
        !sb_maps_yaml_reaches_bare_prefix(loaded),
    ensures
        sb_maps_result_view(r) == spec_sb_maps_from_yaml(loaded),
{
    let docs = match loaded {
        Ok(d) => d,
        Err(e) => {
            return Err(e);
        }
    };
    if docs.len() != 1 {
        return Err(String::from_str("YAML file has more than one document. Something went wrong."));
    }
    let top = match &docs[0] {
        YamlValue::Mapping(top) => top,
        _ => {
            return Err(String::from_str("Top-level YAML object expected to be a hash."));
        }
    };
    if top.len() != 1 {
        return Err(String::from_str("Top-level hash expected to only contain the key 'SB_MAPS'"));
    }
    let key_ok = match &top[0].0 {
        YamlValue::Str(k) => *k == String::from_str("SB_MAPS"),
        _ => false,
    };
    let value_bad = match &top[0].1 {
        YamlValue::Bad => true,
        _ => false,
    };
    if !key_ok || value_bad {
        return Err(String::from_str("Missing top-level key 'SB_MAPS'."));
    }
    let es = match &top[0].1 {
        YamlValue::Mapping(es) => es,
        _ => {
            return Err(String::from_str("SB_MAPS YAML object expected to be a hash."));
        }
    };
    let ghost e = es@;
    assert(spec_sb_maps_entries(loaded) == Ok::<Seq<(YamlValue, YamlValue)>, Seq<char>>(e));
    let mut patterns: Vec<SBMapPattern> = Vec::new();
    let mut names: Vec<String> = Vec::new();
    let mut i: usize = 0;
    assert(e.skip(0) =~= e);
    assert(entry_views(patterns@) =~= Seq::<SBMapEntryView>::empty());
    while i < es.len()
        invariant
            e == es@,
            spec_sb_maps_entries(loaded) == Ok::<Seq<(YamlValue, YamlValue)>, Seq<char>>(e),
            i <= es.len(),
            !entries_reach_bare_prefix(e.skip(i as int)),
            spec_entries(e) == prepend_entries(entry_views(patterns@), spec_entries(e.skip(i as int))),
            is_file_name_set(entry_views(patterns@), string_views(names@)),
        decreases es.len() - i,
    {
        let ghost rest = e.skip(i as int);
        assert(rest[0] == es@[i as int]);
        assert(rest.drop_first() =~= e.skip(i + 1));
        let p = match sb_entry(&es[i].0, &es[i].1) {
            Ok(p) => p,
            Err(err) => {
                assert(spec_entries(rest) == Err::<Seq<SBMapEntryView>, Seq<char>>(err@));
                return Err(err);
            }
        };
        let ghost before = entry_views(patterns@);
        let ghost names_before = string_views(names@);
        match &p.template {
            SBMapTemplate::File { file_name } => {
                insert_name(&mut names, file_name);
            }
            SBMapTemplate::Null => {}
        }
        patterns.push(p);
        assert(entry_views(patterns@) =~= before.push(p@));
        proof {
            match spec_entries(e.skip(i + 1)) {
                Ok(xs) => {
                    assert(before + (seq![p@] + xs) =~= entry_views(patterns@) + xs);
                }
                Err(_) => {}
            }
            let ev = entry_views(patterns@);
            let nv = string_views(names@);
            assert forall|f: Seq<char>| #![trigger nv.contains(f)]
                nv.contains(f) <==> exists|j: int| 0 <= j < ev.len() && ev[j].2 == Some(f) by {
                if nv.contains(f) {
                    if names_before.contains(f) {
                        let j = choose|j: int| 0 <= j < before.len() && before[j].2 == Some(f);
                        assert(ev[j] == before[j]);
                    } else {
                        assert(ev[before.len() as int].2 == Some(f));
                    }
                }
                if exists|j: int| 0 <= j < ev.len() && ev[j].2 == Some(f) {
                    let j = choose|j: int| 0 <= j < ev.len() && ev[j].2 == Some(f);
                    if j < before.len() {
                        assert(before[j] == ev[j]);
                        assert(names_before.contains(f));
                    }
                }
            }
        }
        i = i + 1;
    }
    assert(e.skip(i as int) =~= Seq::<(YamlValue, YamlValue)>::empty());
    assert(entry_views(patterns@) + Seq::<SBMapEntryView>::empty() =~= entry_views(patterns@));
    Ok(SBMaps { patterns, unique_file_names: names })
}

} // verus!

verus! {

/// The entries of the `SB_MAPS` mapping, when the file gets that far.
fn sb_maps_entries_of(loaded: &Result<Vec<YamlValue>, String>) -> (r: Option<&Vec<(YamlValue, YamlValue)>>)
    ensures
        match r {
            Some(es) => spec_sb_maps_entries(*loaded) == Ok::<Seq<(YamlValue, YamlValue)>, Seq<char>>(es@),
            None => spec_sb_maps_entries(*loaded) is Err,
        },
{
    let docs = match loaded {
        Ok(d) => d,
        Err(_) => {
            return None;
        }
    };
    if docs.len() != 1 {
        return None;
    }
    let top = match &docs[0] {
        YamlValue::Mapping(top) => top,
        _ => {
            return None;
        }
    };
    if top.len() != 1 {
        return None;
    }
    let key_ok = match &top[0].0 {
        YamlValue::Str(k) => *k == String::from_str("SB_MAPS"),
        _ => false,
    };
    match &top[0].1 {
        YamlValue::Mapping(es) => if key_ok {
            Some(es)
        } else {
            None
        },
        _ => None,
    }
}

/// Tells whether reading the loaded file meets a bare `SB_` key before any bad entry.
pub fn sb_maps_yaml_has_bare_prefix_key(loaded: &Result<Vec<YamlValue>, String>) -> (b: bool)
    ensures
        b == sb_maps_yaml_reaches_bare_prefix(*loaded),
{
    let es = match sb_maps_entries_of(loaded) {
        Some(es) => es,
        None => {
            return false;
        }
    };
    let ghost e = es@;
    let mut i: usize = 0;
    assert(e.skip(0) =~= e);
    while i < es.len()
        invariant
            e == es@,
            spec_sb_maps_entries(*loaded) == Ok::<Seq<(YamlValue, YamlValue)>, Seq<char>>(e),
            i <= es.len(),
            entries_reach_bare_prefix(e) == entries_reach_bare_prefix(e.skip(i as int)),
        decreases es.len() - i,
    {
        let ghost rest = e.skip(i as int);
        assert(rest[0] == es@[i as int]);
        assert(rest.drop_first() =~= e.skip(i + 1));
        let bare = match &es[i].0 {
            YamlValue::Str(ks) => {
                let c = chars_of(ks.as_str());
                c.len() == 3 && c[0] == 'S' && c[1] == 'B' && c[2] == '_'
            }
            _ => false,
        };
        proof {
            if let YamlValue::Str(ks) = es@[i as int].0 {
                if bare {
                    assert(ks@ =~= seq!['S', 'B', '_']);
                } else if ks@ == seq!['S', 'B', '_'] {
                    assert(ks@[0] == 'S' && ks@[1] == 'B' && ks@[2] == '_');
                }
            }
        }
        if bare {
            return true;
        }
        if sb_entry(&es[i].0, &es[i].1).is_err() {
            return false;
        }
        i = i + 1;
    }
    assert(e.skip(i as int) =~= Seq::<(YamlValue, YamlValue)>::empty());
    false
}

/// Reads a switch-block map file from its text.
pub fn parse_sb_maps_yaml_from_string(sb_maps_str: &str) -> (r: Result<SBMaps, String>)
    requires
        !sb_maps_yaml_reaches_bare_prefix(yaml_documents(sb_maps_str@)),
    ensures
        sb_maps_result_view(r) == spec_sb_maps_from_yaml(yaml_documents(sb_maps_str@)),
{
    let loaded = load_yaml_documents(sb_maps_str);
    sb_maps_from_yaml(loaded)
}

/// Reads a switch-block map file from its text; `None` where the file holds the
/// bare key `SB_` before any bad entry, which has no pattern body to read.
pub fn parse_sb_maps_yaml_checked(sb_maps_str: &str) -> (r: Option<Result<SBMaps, String>>)
    ensures
        match r {
            None => sb_maps_yaml_reaches_bare_prefix(yaml_documents(sb_maps_str@)),
            Some(m) => !sb_maps_yaml_reaches_bare_prefix(yaml_documents(sb_maps_str@))
                && sb_maps_result_view(m) == spec_sb_maps_from_yaml(yaml_documents(sb_maps_str@)),
        },
{
    let loaded = load_yaml_documents(sb_maps_str);
    if sb_maps_yaml_has_bare_prefix_key(&loaded) {
        None
    } else {
        Some(parse_sb_maps_yaml_from_string(sb_maps_str))
    }
}

/// A coordinate printed in decimal reads back as the pattern that selects that
/// coordinate alone.
pub proof fn law_printed_coordinate_parses_back(n: usize)
    ensures
        spec_parse_sb_pattern_val(decimal(n as nat)) == Ok::<PatternValView, Seq<char>>(PatternValView::Constant(n)),
{
    lemma_parse_decimal(n);
    lemma_decimal_value(n as nat);
    let s = decimal(n as nat);
    assert(is_digit(s[0]));
    assert(s != seq!['\\', '*']);
    assert(s != seq!['*']);
}

/// A map with a catch-all entry (`SB_*__*_`) selects an entry for every
/// location: the lookup of a template never comes back empty.
pub proof fn law_catch_all_covers_every_location(entries: Seq<SBMapEntryView>, k: int, x: usize, y: usize)
    requires
        0 <= k < entries.len(),
        entries[k].0 == PatternValView::Wildcard,
        entries[k].1 == PatternValView::Wildcard,
    ensures
        exists|i: int| 0 <= i < entries.len() && entry_matches(#[trigger] entries[i], x, y),
{
    assert(entry_matches(entries[k], x, y));
}

} // verus!
