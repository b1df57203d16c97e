//! The `.sift.toml` policy: rules, strategy, date templates, unknown-file
//! handling and watch stability, validated into one `EffectivePolicy`.
//!
//! Reading and TOML-decoding the file happen outside this module; what
//! arrives here is the decoded `RawConfig`, and everything from there on
//! (every acceptance and every refusal, with its message) is decided here.
use vstd::prelude::*;
use crate::path::{components, path_components, join, path_join, Comp, comps_view};
use crate::text::{
    chars_of,
    concat,
    concat3,
    dec,
    dec_padded,
    dec_signed_padded,
    digit_char,
    zero_pad,
    fmt_i64,
    fmt_u64,
    all_digits,
    lower_seq,
    starts_with,
    str_eq,
    str_trim,
    string_of,
    to_lower,
    trim_seq,
};
use crate::utils::{civil_from_unix_secs, civil_of};
use crate::meta_template::{meta_template_parse, MetaTemplateView, MetadataTemplate};

verus! {

// ---------------------------------------------------------------- rules

#[derive(Debug)]
pub struct Rule {
    /// Optional display label (falls back to `pattern` when blank).
    pub name: String,
    pub pattern: String,
    /// "Move", "Trash" or "Skip".
    pub action: String,
    pub destination: Option<String>,
    /// Higher priority rules are evaluated first; ties keep file order.
    pub priority: i32,
    pub enabled: bool,
    pub description: Option<String>,
}

impl Clone for Rule {
    fn clone(&self) -> (r: Self)
        ensures
            r == *self,
    {
        Rule {
            name: self.name.clone(),
            pattern: self.pattern.clone(),
            action: self.action.clone(),
            destination: crate::domain::clone_opt_string(&self.destination),
            priority: self.priority,
            enabled: self.enabled,
            description: crate::domain::clone_opt_string(&self.description),
        }
    }
}

pub open spec fn rule_label(r: Rule) -> Seq<char> {
    if trim_seq(r.name@).len() == 0 {
        r.pattern@
    } else {
        r.name@
    }
}

impl Rule {
    /// The explicit `name` if it is not blank, otherwise the pattern.
    pub fn label(&self) -> (r: &str)
        ensures
            r@ == rule_label(*self),
    {
        let t = str_trim(self.name.as_str());
        if t.unicode_len() == 0 {
            self.pattern.as_str()
        } else {
            self.name.as_str()
        }
    }
}

/// `s` with `r` placed after every element whose priority is at least
/// `r`'s (the stable descending-priority insertion point).
pub open spec fn insert_by_priority(s: Seq<Rule>, r: Rule) -> Seq<Rule>
    decreases s.len(),
{
    if s.len() == 0 {
        seq![r]
    } else if s.last().priority >= r.priority {
        s.push(r)
    } else {
        insert_by_priority(s.drop_last(), r).push(s.last())
    }
}

/// The enabled rules, highest priority first, ties in file order.
pub open spec fn by_priority(rules: Seq<Rule>) -> Seq<Rule>
    decreases rules.len(),
{
    if rules.len() == 0 {
        Seq::empty()
    } else {
        let prev = by_priority(rules.drop_last());
        if rules.last().enabled {
            insert_by_priority(prev, rules.last())
        } else {
            prev
        }
    }
}

pub open spec fn desc_sorted(s: Seq<Rule>) -> bool {
    forall|i: int, j: int| 0 <= i < j < s.len() ==> s[i].priority >= s[j].priority
}

pub open spec fn derefs(s: Seq<&Rule>) -> Seq<Rule> {
    s.map_values(|r: &Rule| *r)
}

proof fn lemma_insert_at(s: Seq<Rule>, r: Rule, pos: int)
    requires
        0 <= pos <= s.len(),
        desc_sorted(s),
        forall|k: int| pos <= k < s.len() ==> s[k].priority < r.priority,
        pos == 0 || s[pos - 1].priority >= r.priority,
    ensures
        insert_by_priority(s, r) == s.insert(pos, r),
        desc_sorted(s.insert(pos, r)),
    decreases s.len(),
{
    if s.len() == 0 {
        assert(s.insert(pos, r) =~= seq![r]);
    } else if s.last().priority >= r.priority {
        assert(pos == s.len());
        assert(s.insert(pos, r) =~= s.push(r));
    } else {
        let t = s.drop_last();
        lemma_insert_at(t, r, pos);
        assert(s.insert(pos, r) =~= t.insert(pos, r).push(s.last()));
    }
    let u = s.insert(pos, r);
    assert forall|i: int, j: int| 0 <= i < j < u.len() implies u[i].priority >= u[j].priority by {
        if i < pos && j > pos {
            assert(u[i] == s[i]);
            assert(u[j] == s[j - 1]);
        }
    }
}

/// Enabled rules sorted by descending priority, keeping the original
/// relative order of equal priorities.
pub fn rules_by_priority(rules: &[Rule]) -> (r: Vec<&Rule>)
    ensures
        derefs(r@) == by_priority(rules@),
        desc_sorted(derefs(r@)),
{
    let mut sorted: Vec<&Rule> = Vec::new();
    let mut i: usize = 0;
    while i < rules.len()
        invariant
            i <= rules@.len(),
            derefs(sorted@) == by_priority(rules@.subrange(0, i as int)),
            desc_sorted(derefs(sorted@)),
        decreases rules@.len() - i,
    {
        let rule = &rules[i];
        assert(rules@.subrange(0, i + 1).drop_last() =~= rules@.subrange(0, i as int));
        assert(rules@.subrange(0, i + 1).last() == rules@[i as int]);
        if rule.enabled {
            let mut pos = sorted.len();
            while pos > 0 && sorted[pos - 1].priority < rule.priority
                invariant
                    pos <= sorted@.len(),
                    forall|k: int| pos <= k < sorted@.len() ==> sorted@[k].priority < rule.priority,
                    derefs(sorted@) == by_priority(rules@.subrange(0, i as int)),
                    desc_sorted(derefs(sorted@)),
                decreases pos,
            {
                pos -= 1;
            }
            proof {
                lemma_insert_at(derefs(sorted@), *rule, pos as int);
            }
            let ghost before = sorted@;
            sorted.insert(pos, rule);
            assert(derefs(sorted@) =~= derefs(before).insert(pos as int, *rule));
        }
        i += 1;
    }
    assert(rules@.subrange(0, rules@.len() as int) =~= rules@);
    sorted
}

// ------------------------------------------------------ rule validation

/// A `.` segment of `d` starts at `i`: a lone `.` between separators (or
/// the text's ends).
pub open spec fn dot_segment_at(d: Seq<char>, i: int) -> bool {
    &&& 0 <= i < d.len()
    &&& d[i] == '.'
    &&& (i == 0 || d[i - 1] == '/')
    &&& (i + 1 == d.len() || d[i + 1] == '/')
}

/// A rule destination is a non-empty relative path made of plain names
/// only: no root, no `..`, and no `.` segment anywhere (an interior one
/// too, though a path's components would drop it).
pub open spec fn valid_dest(d: Seq<char>) -> bool {
    &&& d.len() > 0
    &&& forall|i: int| 0 <= i < components(d).len() ==> (#[trigger] components(d)[i]) is Normal
    &&& forall|i: int| !dot_segment_at(d, i)
}

fn has_dot_segment(v: &Vec<char>) -> (r: bool)
    ensures
        r == exists|i: int| dot_segment_at(v@, i),
{
    let n = v.len();
    let mut i: usize = 0;
    while i < n
        invariant
            i <= n,
            n == v@.len(),
            forall|k: int| 0 <= k < i ==> !dot_segment_at(v@, k),
        decreases n - i,
    {
        if v[i] == '.' && (i == 0 || v[i - 1] == '/') && (i + 1 == n || v[i + 1] == '/') {
            assert(dot_segment_at(v@, i as int));
            return true;
        }
        i += 1;
    }
    false
}

/// Syntactic validation of a rule destination (no filesystem access).
pub fn validate_rule_destination(dest: &str) -> (r: bool)
    ensures
        r == valid_dest(dest@),
{
    let v = chars_of(dest);
    if v.len() == 0 {
        return false;
    }
    let c = path_components(dest);
    let mut i: usize = 0;
    while i < c.len()
        invariant
            i <= c@.len(),
            comps_view(c@) == components(dest@),
            forall|k: int| 0 <= k < i ==> (#[trigger] components(dest@)[k]) is Normal,
        decreases c@.len() - i,
    {
        match &c[i] {
            Comp::Normal(_) => {},
            _ => {
                assert(!(components(dest@)[i as int] is Normal));
                return false;
            },
        }
        i += 1;
    }
    !has_dot_segment(&v)
}

pub open spec fn move_needs_dest_msg(label: Seq<char>) -> Seq<char> {
    "rule '"@ + label + "': action = \"Move\" requires a destination"@
}

pub open spec fn unsafe_dest_msg(label: Seq<char>, d: Seq<char>) -> Seq<char> {
    "rule '"@ + label + "': unsafe destination \""@ + d
        + "\" (must be a relative path with no '..' and no leading '/')"@
}

pub open spec fn invalid_action_msg(label: Seq<char>, a: Seq<char>) -> Seq<char> {
    "rule '"@ + label + "': invalid action \""@ + a + "\" (expected Move, Trash, or Skip)"@
}

pub open spec fn rule_check(r: Rule) -> Result<(), Seq<char>> {
    if r.action@ == "Move"@ {
        match r.destination {
            None => Err(move_needs_dest_msg(rule_label(r))),
            Some(d) => if valid_dest(d@) {
                Ok(())
            } else {
                Err(unsafe_dest_msg(rule_label(r), d@))
            },
        }
    } else if r.action@ == "Trash"@ || r.action@ == "Skip"@ {
        Ok(())
    } else {
        Err(invalid_action_msg(rule_label(r), r.action@))
    }
}

pub open spec fn result_view(r: Result<(), String>) -> Result<(), Seq<char>> {
    match r {
        Ok(()) => Ok(()),
        Err(e) => Err(e@),
    }
}

/// Load-time validation of one rule: a bad action name or an unsafe or
/// missing `Move` destination is rejected with a message naming the rule.
pub fn validate_rule(rule: &Rule) -> (r: Result<(), String>)
    ensures
        result_view(r) == rule_check(*rule),
{
    let label = rule.label();
    if str_eq(rule.action.as_str(), "Move") {
        match &rule.destination {
            None => {
                let m = concat3("rule '", label, "': action = \"Move\" requires a destination");
                Err(m)
            },
            Some(d) => {
                if !validate_rule_destination(d.as_str()) {
                    let a = concat3("rule '", label, "': unsafe destination \"");
                    let m = concat3(
                        a.as_str(),
                        d.as_str(),
                        "\" (must be a relative path with no '..' and no leading '/')",
                    );
                    Err(m)
                } else {
                    Ok(())
                }
            },
        }
    } else if str_eq(rule.action.as_str(), "Trash") || str_eq(rule.action.as_str(), "Skip") {
        Ok(())
    } else {
        let a = concat3("rule '", label, "': invalid action \"");
        let m = concat3(a.as_str(), rule.action.as_str(), "\" (expected Move, Trash, or Skip)");
        Err(m)
    }
}

// ------------------------------------------------------------- strategy

/// How a Smart Folder organizes its files.
#[derive(Debug, Clone, Copy, PartialEq, Eq, Structural)]
pub enum OrganizeStrategy {
    /// By the built-in extension classifier.
    Type,
    /// By the file's modification date rendered through a `Template`.
    Date,
    /// By an audio file's tags, rendered through a `MetadataTemplate`.
    Audio,
    /// By a video's container fields, rendered through a `MetadataTemplate`.
    Video,
    /// By a photo's EXIF fields, rendered through a `MetadataTemplate`.
    Photos,
    /// By a document's own properties, rendered through a
    /// `MetadataTemplate`.
    Documents,
}

pub open spec fn strategy_name(s: OrganizeStrategy) -> Seq<char> {
    match s {
        OrganizeStrategy::Type => "type"@,
        OrganizeStrategy::Date => "date"@,
        OrganizeStrategy::Audio => "audio"@,
        OrganizeStrategy::Video => "video"@,
        OrganizeStrategy::Photos => "photos"@,
        OrganizeStrategy::Documents => "documents"@,
    }
}

/// A strategy whose destinations come from file content metadata.
pub open spec fn is_metadata_strategy(s: OrganizeStrategy) -> bool {
    s == OrganizeStrategy::Audio || s == OrganizeStrategy::Video || s == OrganizeStrategy::Photos || s
        == OrganizeStrategy::Documents
}

pub open spec fn strategy_error(other: Seq<char>) -> Seq<char> {
    "Strategy \""@ + other
        + "\" is not supported by this Sift version.\nSupported strategies:\n  type\n  date\n  audio\n  video\n  photos\n  documents"@
}

pub open spec fn parse_strategy(s: Seq<char>) -> Result<OrganizeStrategy, Seq<char>> {
    let t = lower_seq(trim_seq(s));
    if t == "type"@ {
        Ok(OrganizeStrategy::Type)
    } else if t == "date"@ {
        Ok(OrganizeStrategy::Date)
    } else if t == "audio"@ {
        Ok(OrganizeStrategy::Audio)
    } else if t == "video"@ {
        Ok(OrganizeStrategy::Video)
    } else if t == "photos"@ {
        Ok(OrganizeStrategy::Photos)
    } else if t == "documents"@ {
        Ok(OrganizeStrategy::Documents)
    } else {
        Err(strategy_error(t))
    }
}

pub open spec fn res_view<T>(r: Result<T, String>) -> Result<T, Seq<char>> {
    match r {
        Ok(v) => Ok(v),
        Err(e) => Err(e@),
    }
}

pub open spec fn str_res_view(r: Result<String, String>) -> Result<Seq<char>, Seq<char>> {
    match r {
        Ok(v) => Ok(v@),
        Err(e) => Err(e@),
    }
}

/// Trimmed, ASCII-lowercased copy of a config value.
fn normalized(s: &str) -> (r: String)
    ensures
        r@ == lower_seq(trim_seq(s@)),
{
    let t = str_trim(s);
    to_lower(t.as_str())
}

impl OrganizeStrategy {
    pub fn as_str(&self) -> (r: &'static str)
        ensures
            r@ == strategy_name(*self),
    {
        match self {
            OrganizeStrategy::Type => "type",
            OrganizeStrategy::Date => "date",
            OrganizeStrategy::Audio => "audio",
            OrganizeStrategy::Video => "video",
            OrganizeStrategy::Photos => "photos",
            OrganizeStrategy::Documents => "documents",
        }
    }

    /// Whether `--recursive` (and a recursive watch) may use this
    /// strategy: the metadata strategies render free text that a later run
    /// could not tell from any other folder name, so they may not.
    pub fn supports_recursive(&self) -> (r: bool)
        ensures
            r == !is_metadata_strategy(*self),
    {
        match self {
            OrganizeStrategy::Type | OrganizeStrategy::Date => true,
            _ => false,
        }
    }

    /// Parses a `strategy = "..."` value; anything unrecognized is an
    /// explicit error, never a fallback to `Type`.
    pub fn parse(s: &str) -> (r: Result<Self, String>)
        ensures
            res_view(r) == parse_strategy(s@),
    {
        let t = normalized(s);
        if str_eq(t.as_str(), "type") {
            Ok(OrganizeStrategy::Type)
        } else if str_eq(t.as_str(), "date") {
            Ok(OrganizeStrategy::Date)
        } else if str_eq(t.as_str(), "audio") {
            Ok(OrganizeStrategy::Audio)
        } else if str_eq(t.as_str(), "video") {
            Ok(OrganizeStrategy::Video)
        } else if str_eq(t.as_str(), "photos") {
            Ok(OrganizeStrategy::Photos)
        } else if str_eq(t.as_str(), "documents") {
            Ok(OrganizeStrategy::Documents)
        } else {
            Err(
                concat3(
                    "Strategy \"",
                    t.as_str(),
                    "\" is not supported by this Sift version.\nSupported strategies:\n  type\n  date\n  audio\n  video\n  photos\n  documents",
                ),
            )
        }
    }
}

// ---------------------------------------------------------- date source

/// Where the Date strategy's calendar date comes from.
#[derive(Debug, Clone, Copy, PartialEq, Eq, Structural)]
pub enum DateSource {
    Modified,
}

pub open spec fn parse_date_source(s: Seq<char>) -> Result<DateSource, Seq<char>> {
    let t = lower_seq(trim_seq(s));
    if t == "modified"@ {
        Ok(DateSource::Modified)
    } else {
        Err("Unsupported date_source \""@ + t + "\". Supported: modified."@)
    }
}

impl DateSource {
    pub fn as_str(&self) -> (r: &'static str)
        ensures
            r@ == "modified"@,
    {
        "modified"
    }

    pub fn parse(s: &str) -> (r: Result<Self, String>)
        ensures
            res_view(r) == parse_date_source(s@),
    {
        let t = normalized(s);
        if str_eq(t.as_str(), "modified") {
            Ok(DateSource::Modified)
        } else {
            Err(concat3("Unsupported date_source \"", t.as_str(), "\". Supported: modified."))
        }
    }
}

/// A file's date as UTC calendar components.
#[derive(Debug, Clone, Copy, PartialEq, Eq, Structural)]
pub struct DateMetadata {
    pub year: i64,
    pub month: u32,
    pub day: u32,
}

impl DateMetadata {
    pub fn from_unix_secs(secs: i64) -> (r: Self)
        ensures
            secs >= 0 ==> (r.year as int, r.month as int, r.day as int) == civil_of(secs as int),
            (r.year as int, r.month as int, r.day as int) == crate::utils::civil_any(secs as int),
    {
        let (year, month, day) = civil_from_unix_secs(secs);
        DateMetadata { year, month, day }
    }
}

// ------------------------------------------------------------- template

/// One piece of one template component: verbatim text or a fixed-width,
/// digit-only placeholder.
#[derive(Debug)]
pub enum TemplateSegment<S> {
    Literal(S),
    Year,
    Month,
    Day,
}

pub open spec fn seg_view(s: TemplateSegment<String>) -> TemplateSegment<Seq<char>> {
    match s {
        TemplateSegment::Literal(l) => TemplateSegment::Literal(l@),
        TemplateSegment::Year => TemplateSegment::Year,
        TemplateSegment::Month => TemplateSegment::Month,
        TemplateSegment::Day => TemplateSegment::Day,
    }
}

pub open spec fn segs_view(v: Seq<TemplateSegment<String>>) -> Seq<TemplateSegment<Seq<char>>> {
    v.map_values(|s: TemplateSegment<String>| seg_view(s))
}

pub open spec fn comps_segs_view(v: Seq<Vec<TemplateSegment<String>>>) -> Seq<
    Seq<TemplateSegment<Seq<char>>>,
> {
    v.map_values(|c: Vec<TemplateSegment<String>>| segs_view(c@))
}

/// Rendered width of a placeholder (`None` for literal text).
pub open spec fn seg_width(s: TemplateSegment<Seq<char>>) -> Option<nat> {
    match s {
        TemplateSegment::Year => Some(4),
        TemplateSegment::Month => Some(2),
        TemplateSegment::Day => Some(2),
        TemplateSegment::Literal(_) => None,
    }
}

impl TemplateSegment<String> {
    fn width(&self) -> (r: Option<usize>)
        ensures
            match r {
                Some(w) => seg_width(seg_view(*self)) == Some(w as nat),
                None => seg_width(seg_view(*self)) is None,
            },
    {
        match self {
            TemplateSegment::Year => Some(4),
            TemplateSegment::Month | TemplateSegment::Day => Some(2),
            TemplateSegment::Literal(_) => None,
        }
    }
}

/// Index of the first `c` in `s`, or -1.
pub open spec fn find_char(s: Seq<char>, c: char) -> int
    decreases s.len(),
{
    if s.len() == 0 {
        -1
    } else if s[0] == c {
        0
    } else {
        let k = find_char(s.drop_first(), c);
        if k < 0 {
            -1
        } else {
            k + 1
        }
    }
}

pub enum SegError<S> {
    Unterminated,
    Unknown(S),
}

pub open spec fn placeholder(name: Seq<char>) -> Option<TemplateSegment<Seq<char>>> {
    if name == "year"@ {
        Some(TemplateSegment::Year)
    } else if name == "month"@ {
        Some(TemplateSegment::Month)
    } else if name == "day"@ {
        Some(TemplateSegment::Day)
    } else {
        None
    }
}

/// The segments of one template component, scanning `{...}` placeholders
/// left to right.
pub open spec fn parse_segs(rest: Seq<char>) -> Result<
    Seq<TemplateSegment<Seq<char>>>,
    SegError<Seq<char>>,
>
    decreases rest.len(),
{
    let open = find_char(rest, '{');
    if open < 0 {
        if rest.len() == 0 {
            Ok(Seq::empty())
        } else {
            Ok(seq![TemplateSegment::Literal(rest)])
        }
    } else {
        let lit: Seq<TemplateSegment<Seq<char>>> = if open > 0 {
            seq![TemplateSegment::Literal(rest.subrange(0, open))]
        } else {
            Seq::empty()
        };
        let close_rel = find_char(rest.subrange(open, rest.len() as int), '}');
        if close_rel < 0 {
            Err(SegError::Unterminated)
        } else {
            let close = open + close_rel;
            let name = rest.subrange(open + 1, close);
            match placeholder(name) {
                None => Err(SegError::Unknown(name)),
                Some(seg) => if close + 1 <= rest.len() {
                    match parse_segs(rest.subrange(close + 1, rest.len() as int)) {
                        Ok(t) => Ok(lit + seq![seg] + t),
                        Err(e) => Err(e),
                    }
                } else {
                    Err(SegError::Unterminated)
                },
            }
        }
    }
}

pub open spec fn parse_component_spec(part: Seq<char>) -> Result<
    Seq<TemplateSegment<Seq<char>>>,
    Seq<char>,
> {
    match parse_segs(part) {
        Err(SegError::Unterminated) => Err(
            "organize.template: unterminated placeholder in \""@ + part + "\""@,
        ),
        Err(SegError::Unknown(name)) => Err(
            "organize.template: unknown placeholder \"{"@ + name
                + "}\" (supported: year, month, day)"@,
        ),
        Ok(segs) => if segs.len() == 0 {
            Err("organize.template contains an empty path component"@)
        } else {
            Ok(segs)
        },
    }
}

pub(crate) proof fn lemma_find_char_bound(s: Seq<char>, c: char)
    ensures
        -1 <= find_char(s, c) < s.len(),
        find_char(s, c) >= 0 ==> s[find_char(s, c)] == c,
    decreases s.len(),
{
    if s.len() > 0 {
        lemma_find_char_bound(s.drop_first(), c);
    }
}

pub(crate) fn find_from(v: &Vec<char>, start: usize, c: char) -> (r: Option<usize>)
    requires
        start <= v@.len(),
    ensures
        match r {
            Some(k) => start <= k < v@.len() && find_char(v@.subrange(start as int, v@.len() as int), c)
                == k - start,
            None => find_char(v@.subrange(start as int, v@.len() as int), c) == -1,
        },
{
    let mut j = start;
    while j < v.len()
        invariant
            start <= j <= v@.len(),
            find_char(v@.subrange(start as int, v@.len() as int), c) == (if find_char(
                v@.subrange(j as int, v@.len() as int),
                c,
            ) < 0 {
                -1
            } else {
                find_char(v@.subrange(j as int, v@.len() as int), c) + (j - start)
            }),
        decreases v@.len() - j,
    {
        let ghost sj = v@.subrange(j as int, v@.len() as int);
        assert(sj.drop_first() =~= v@.subrange(j + 1, v@.len() as int));
        assert(sj[0] == v@[j as int]);
        if v[j] == c {
            return Some(j);
        }
        j += 1;
    }
    None
}

fn parse_segs_from(v: &Vec<char>, start: usize) -> (r: Result<
    Vec<TemplateSegment<String>>,
    SegError<String>,
>)
    requires
        start <= v@.len(),
    ensures
        match r {
            Ok(segs) => parse_segs(v@.subrange(start as int, v@.len() as int)) == Ok::<
                Seq<TemplateSegment<Seq<char>>>,
                SegError<Seq<char>>,
            >(segs_view(segs@)),
            Err(SegError::Unterminated) => parse_segs(v@.subrange(start as int, v@.len() as int))
                == Err::<Seq<TemplateSegment<Seq<char>>>, SegError<Seq<char>>>(
                SegError::Unterminated,
            ),
            Err(SegError::Unknown(n)) => parse_segs(v@.subrange(start as int, v@.len() as int))
                == Err::<Seq<TemplateSegment<Seq<char>>>, SegError<Seq<char>>>(
                SegError::Unknown(n@),
            ),
        },
    decreases v@.len() - start,
{
    let ghost rest = v@.subrange(start as int, v@.len() as int);
    let mut segs: Vec<TemplateSegment<String>> = Vec::new();
    match find_from(v, start, '{') {
        None => {
            if start < v.len() {
                segs.push(TemplateSegment::Literal(string_of(v, start, v.len())));
                assert(segs_view(segs@) =~= seq![TemplateSegment::Literal(rest)]);
            } else {
                assert(segs_view(segs@) =~= Seq::<TemplateSegment<Seq<char>>>::empty());
            }
            Ok(segs)
        },
        Some(open) => {
            let ghost open_rel = open - start;
            let ghost lit: Seq<TemplateSegment<Seq<char>>> = if open_rel > 0 {
                seq![TemplateSegment::Literal(rest.subrange(0, open_rel))]
            } else {
                Seq::empty()
            };
            if open > start {
                segs.push(TemplateSegment::Literal(string_of(v, start, open)));
                assert(rest.subrange(0, open_rel) =~= v@.subrange(start as int, open as int));
            }
            assert(segs_view(segs@) =~= lit);
            assert(v@.subrange(open as int, v@.len() as int) =~= rest.subrange(
                open_rel,
                rest.len() as int,
            ));
            proof {
                lemma_find_char_bound(rest, '{');
                assert(v@[open as int] == '{');
            }
            match find_from(v, open, '}') {
                None => Err(SegError::Unterminated),
                Some(close) => {
                    proof {
                        lemma_find_char_bound(v@.subrange(open as int, v@.len() as int), '}');
                    }
                    assert(close > open);
                    let vl = v.len();
                    assert(close < vl);
                    let name = string_of(v, open + 1, close);
                    assert(rest.subrange(open_rel + 1, close - start) =~= v@.subrange(
                        open + 1,
                        close as int,
                    ));
                    let seg = if str_eq(name.as_str(), "year") {
                        TemplateSegment::Year
                    } else if str_eq(name.as_str(), "month") {
                        TemplateSegment::Month
                    } else if str_eq(name.as_str(), "day") {
                        TemplateSegment::Day
                    } else {
                        return Err(SegError::Unknown(name));
                    };
                    assert(v@.subrange(close + 1, v@.len() as int) =~= rest.subrange(
                        close - start + 1,
                        rest.len() as int,
                    ));
                    match parse_segs_from(v, close + 1) {
                        Err(e) => Err(e),
                        Ok(tail) => {
                            let ghost head = segs_view(segs@);
                            let ghost sv = seg_view(seg);
                            let ghost tv = segs_view(tail@);
                            segs.push(seg);
                            assert(segs_view(segs@) =~= head.push(sv));
                            let ghost base = segs@;
                            let ghost tail_seq = tail@;
                            let mut tail = tail;
                            segs.append(&mut tail);
                            proof {
                                lemma_segs_view_concat(base, tail_seq);
                            }
                            assert(segs_view(segs@) =~= head + seq![sv] + tv);
                            assert(placeholder(rest.subrange(open_rel + 1, close - start))
                                == Some(sv));
                            assert(segs_view(segs@) == lit + seq![sv] + tv);
                            Ok(segs)
                        },
                    }
                },
            }
        },
    }
}

proof fn lemma_segs_view_concat(a: Seq<TemplateSegment<String>>, b: Seq<TemplateSegment<String>>)
    ensures
        segs_view(a + b) == segs_view(a) + segs_view(b),
{
    assert(segs_view(a + b) =~= segs_view(a) + segs_view(b));
}


/// Parses one template path component into literal and placeholder
/// segments.
pub fn parse_component(part: &str) -> (r: Result<Vec<TemplateSegment<String>>, String>)
    ensures
        match r {
            Ok(segs) => parse_component_spec(part@) == Ok::<
                Seq<TemplateSegment<Seq<char>>>,
                Seq<char>,
            >(segs_view(segs@)),
            Err(e) => parse_component_spec(part@) == Err::<
                Seq<TemplateSegment<Seq<char>>>,
                Seq<char>,
            >(e@),
        },
{
    let v = chars_of(part);
    assert(v@.subrange(0, v@.len() as int) =~= v@);
    match parse_segs_from(&v, 0) {
        Err(SegError::Unterminated) => Err(
            concat3("organize.template: unterminated placeholder in \"", part, "\""),
        ),
        Err(SegError::Unknown(name)) => Err(
            concat3(
                "organize.template: unknown placeholder \"{",
                name.as_str(),
                "}\" (supported: year, month, day)",
            ),
        ),
        Ok(segs) => {
            if segs.len() == 0 {
                Err(str_to_string_lit_empty_component())
            } else {
                Ok(segs)
            }
        },
    }
}

pub(crate) fn str_to_string_lit_empty_component() -> (r: String)
    ensures
        r@ == "organize.template contains an empty path component"@,
{
    crate::text::str_to_string("organize.template contains an empty path component")
}

/// What a template is: its source text and the parsed segments of each of
/// its path components.
pub struct TemplateView {
    pub raw: Seq<char>,
    pub comps: Seq<Seq<TemplateSegment<Seq<char>>>>,
}

/// A limited destination template: literal text and `{year}`, `{month}`,
/// `{day}` placeholders, parsed and validated once.
#[derive(Debug)]
pub struct Template {
    raw: String,
    components: Vec<Vec<TemplateSegment<String>>>,
}

impl View for Template {
    type V = TemplateView;

    closed spec fn view(&self) -> TemplateView {
        TemplateView { raw: self.raw@, comps: comps_segs_view(self.components@) }
    }
}

/// Parses every (plain) path component of a template, stopping at the
/// first error.
pub open spec fn parse_all(cs: Seq<Comp<Seq<char>>>) -> Result<
    Seq<Seq<TemplateSegment<Seq<char>>>>,
    Seq<char>,
>
    decreases cs.len(),
{
    if cs.len() == 0 {
        Ok(Seq::empty())
    } else {
        match parse_all(cs.drop_last()) {
            Err(e) => Err(e),
            Ok(prev) => match cs.last() {
                Comp::Normal(part) => match parse_component_spec(part) {
                    Err(e) => Err(e),
                    Ok(segs) => Ok(prev.push(segs)),
                },
                _ => Ok(prev),
            },
        }
    }
}

pub open spec fn template_parse(raw: Seq<char>) -> Result<TemplateView, Seq<char>> {
    if trim_seq(raw).len() == 0 {
        Err("organize.template must not be empty"@)
    } else if !valid_dest(raw) {
        Err(
            "organize.template \""@ + raw
                + "\" is not a safe relative path (no leading '/', no '..', no empty components)"@,
        )
    } else {
        match parse_all(components(raw)) {
            Err(e) => Err(e),
            Ok(comps) => Ok(TemplateView { raw, comps }),
        }
    }
}

pub open spec fn render_seg(seg: TemplateSegment<Seq<char>>, date: DateMetadata) -> Seq<char> {
    match seg {
        TemplateSegment::Literal(l) => l,
        TemplateSegment::Year => dec_signed_padded(date.year as int, 4),
        TemplateSegment::Month => dec_padded(date.month as nat, 2),
        TemplateSegment::Day => dec_padded(date.day as nat, 2),
    }
}

pub open spec fn render_segs(segs: Seq<TemplateSegment<Seq<char>>>, date: DateMetadata) -> Seq<
    char,
>
    decreases segs.len(),
{
    if segs.len() == 0 {
        Seq::empty()
    } else {
        render_segs(segs.drop_last(), date) + render_seg(segs.last(), date)
    }
}

pub open spec fn render_comps(
    comps: Seq<Seq<TemplateSegment<Seq<char>>>>,
    date: DateMetadata,
) -> Seq<char>
    decreases comps.len(),
{
    if comps.len() == 0 {
        Seq::empty()
    } else {
        join(render_comps(comps.drop_last(), date), render_segs(comps.last(), date))
    }
}

pub open spec fn template_render(t: TemplateView, date: DateMetadata) -> Result<
    Seq<char>,
    Seq<char>,
> {
    let out = render_comps(t.comps, date);
    if valid_dest(out) {
        Ok(out)
    } else {
        Err("rendered destination \""@ + out + "\" is not a safe relative path"@)
    }
}

/// Whether `rest` could be what `segs` render to for some date: literals
/// verbatim, each placeholder as exactly its width in ASCII digits.
pub open spec fn segs_match(segs: Seq<TemplateSegment<Seq<char>>>, rest: Seq<char>) -> bool
    decreases segs.len(),
{
    if segs.len() == 0 {
        rest.len() == 0
    } else {
        match seg_width(segs[0]) {
            Some(w) => rest.len() >= w && all_digits(rest.subrange(0, w as int)) && segs_match(
                segs.drop_first(),
                rest.subrange(w as int, rest.len() as int),
            ),
            None => match segs[0] {
                TemplateSegment::Literal(l) => starts_with(rest, l) && segs_match(
                    segs.drop_first(),
                    rest.subrange(l.len() as int, rest.len() as int),
                ),
                _ => false,
            },
        }
    }
}

pub open spec fn could_be_generated(t: TemplateView, level: int, component: Seq<char>) -> bool {
    0 <= level < t.comps.len() && segs_match(t.comps[level], component)
}

// ------------------------------------------------ rendering and matching

proof fn lemma_dec_digits(n: nat)
    ensures
        all_digits(dec(n)),
        dec(n).len() >= 1,
        n < 10 ==> dec(n).len() == 1,
        n < 100 ==> dec(n).len() <= 2,
        n < 1000 ==> dec(n).len() <= 3,
        n < 10000 ==> dec(n).len() <= 4,
    decreases n,
{
    if n >= 10 {
        lemma_dec_digits(n / 10);
        let d = dec(n / 10);
        assert(dec(n) == d.push(digit_char((n % 10) as int)));
        assert forall|i: int| 0 <= i < dec(n).len() implies crate::text::is_ascii_digit(#[trigger] dec(n)[i]) by {
            if i < d.len() {
                assert(dec(n)[i] == d[i]);
            }
        }
    }
}

proof fn lemma_zero_pad_digits(s: Seq<char>, w: nat)
    requires
        all_digits(s),
        s.len() <= w,
    ensures
        all_digits(zero_pad(s, w)),
        zero_pad(s, w).len() == w,
{
    let z = zero_pad(s, w);
    if s.len() < w {
        let pad = Seq::new((w - s.len()) as nat, |i: int| '0');
        assert(z == pad + s);
        assert forall|i: int| 0 <= i < z.len() implies crate::text::is_ascii_digit(#[trigger] z[i]) by {
            if i < pad.len() {
                assert(z[i] == '0');
            } else {
                assert(z[i] == s[i - pad.len()]);
            }
        }
    }
}

/// A date every placeholder renders at exactly its width.
pub open spec fn date_in_range(d: DateMetadata) -> bool {
    0 <= d.year <= 9999 && 1 <= d.month <= 12 && 1 <= d.day <= 31
}

proof fn lemma_render_seg_width(seg: TemplateSegment<Seq<char>>, d: DateMetadata)
    requires
        date_in_range(d),
    ensures
        seg_width(seg) matches Some(w) ==> render_seg(seg, d).len() == w && all_digits(render_seg(seg, d)),
{
    match seg {
        TemplateSegment::Year => {
            lemma_dec_digits(d.year as nat);
            lemma_zero_pad_digits(dec(d.year as nat), 4);
        },
        TemplateSegment::Month => {
            lemma_dec_digits(d.month as nat);
            lemma_zero_pad_digits(dec(d.month as nat), 2);
        },
        TemplateSegment::Day => {
            lemma_dec_digits(d.day as nat);
            lemma_zero_pad_digits(dec(d.day as nat), 2);
        },
        TemplateSegment::Literal(_) => {},
    }
}

proof fn lemma_render_segs_front(segs: Seq<TemplateSegment<Seq<char>>>, d: DateMetadata)
    requires
        segs.len() > 0,
    ensures
        render_segs(segs, d) == render_seg(segs[0], d) + render_segs(segs.drop_first(), d),
    decreases segs.len(),
{
    if segs.len() == 1 {
        assert(segs.drop_last() =~= Seq::<TemplateSegment<Seq<char>>>::empty());
        assert(segs.drop_first() =~= Seq::<TemplateSegment<Seq<char>>>::empty());
        assert(render_segs(segs.drop_last(), d) == Seq::<char>::empty());
        assert(render_segs(segs.drop_first(), d) == Seq::<char>::empty());
        assert(segs.last() == segs[0]);
        assert(render_segs(segs, d) =~= render_seg(segs[0], d) + render_segs(segs.drop_first(), d));
    } else {
        lemma_render_segs_front(segs.drop_last(), d);
        assert(segs.drop_last().drop_first() =~= segs.drop_first().drop_last());
        assert(segs.drop_first().last() == segs.last());
        assert(render_segs(segs, d) =~= render_seg(segs[0], d) + render_segs(segs.drop_first(), d));
    }
}

proof fn lemma_segs_match_rendered(segs: Seq<TemplateSegment<Seq<char>>>, d: DateMetadata)
    requires
        date_in_range(d),
    ensures
        segs_match(segs, render_segs(segs, d)),
    decreases segs.len(),
{
    if segs.len() > 0 {
        lemma_render_segs_front(segs, d);
        lemma_segs_match_rendered(segs.drop_first(), d);
        lemma_render_seg_width(segs[0], d);
        let head = render_seg(segs[0], d);
        let tail = render_segs(segs.drop_first(), d);
        let all = head + tail;
        assert(all.subrange(0, head.len() as int) =~= head);
        assert(all.subrange(head.len() as int, all.len() as int) =~= tail);
        match seg_width(segs[0]) {
            Some(w) => {
                assert(head.len() == w);
            },
            None => {
                assert(segs[0] is Literal);
                assert(head == segs[0]->Literal_0);
            },
        }
    }
}

/// Every path component a template renders for a date (year 0 to 9999)
/// is recognised as one the same template could have generated at that
/// level, and no level beyond the template's depth is recognised at all:
/// the guard that keeps a re-run from nesting dates inside dates.
pub proof fn law_rendered_components_are_recognized(t: TemplateView, d: DateMetadata, k: int, s: Seq<char>)
    requires
        0 <= k < t.comps.len(),
        date_in_range(d),
    ensures
        could_be_generated(t, k, render_segs(t.comps[k], d)),
        !could_be_generated(t, t.comps.len() as int, s),
{
    lemma_segs_match_rendered(t.comps[k], d);
}

fn render_one_seg(seg: &TemplateSegment<String>, date: &DateMetadata) -> (r: String)
    ensures
        r@ == render_seg(seg_view(*seg), *date),
{
    match seg {
        TemplateSegment::Literal(l) => l.clone(),
        TemplateSegment::Year => fmt_i64(date.year, 4),
        TemplateSegment::Month => fmt_u64(date.month as u64, 2),
        TemplateSegment::Day => fmt_u64(date.day as u64, 2),
    }
}

impl Template {
    /// Parses and statically validates a template: the text itself must be
    /// a safe relative path, and every component must parse.
    pub fn parse(raw: &str) -> (r: Result<Self, String>)
        ensures
            match r {
                Ok(t) => template_parse(raw@) == Ok::<TemplateView, Seq<char>>(t@),
                Err(e) => template_parse(raw@) == Err::<TemplateView, Seq<char>>(e@),
            },
    {
        let t = str_trim(raw);
        if t.unicode_len() == 0 {
            return Err(crate::text::str_to_string("organize.template must not be empty"));
        }
        if !validate_rule_destination(raw) {
            return Err(
                concat3(
                    "organize.template \"",
                    raw,
                    "\" is not a safe relative path (no leading '/', no '..', no empty components)",
                ),
            );
        }
        let cs = path_components(raw);
        let mut parsed: Vec<Vec<TemplateSegment<String>>> = Vec::new();
        let mut i: usize = 0;
        assert(comps_view(cs@).subrange(0, 0) =~= Seq::<Comp<Seq<char>>>::empty());
        assert(comps_segs_view(parsed@) =~= Seq::<Seq<TemplateSegment<Seq<char>>>>::empty());
        while i < cs.len()
            invariant
                i <= cs@.len(),
                trim_seq(raw@).len() != 0,
                valid_dest(raw@),
                comps_view(cs@) == components(raw@),
                parse_all(comps_view(cs@).subrange(0, i as int)) == Ok::<
                    Seq<Seq<TemplateSegment<Seq<char>>>>,
                    Seq<char>,
                >(comps_segs_view(parsed@)),
            decreases cs@.len() - i,
        {
            let ghost cv = comps_view(cs@);
            assert(cv.subrange(0, i + 1).drop_last() =~= cv.subrange(0, i as int));
            assert(cv.subrange(0, i + 1).last() == comp_view_at(cs@, i as int));
            match &cs[i] {
                Comp::Normal(part) => {
                    match parse_component(part.as_str()) {
                        Err(e) => {
                            proof {
                                lemma_parse_all_err(comps_view(cs@), i + 1, e@);
                                assert(comps_view(cs@).subrange(0, cs@.len() as int) =~= comps_view(
                                    cs@,
                                ));
                            }
                            return Err(e);
                        },
                        Ok(segs) => {
                            let ghost before = parsed@;
                            parsed.push(segs);
                            assert(comps_segs_view(parsed@) =~= comps_segs_view(before).push(
                                segs_view(segs@),
                            ));
                        },
                    }
                },
                _ => {},
            }
            i += 1;
        }
        assert(comps_view(cs@).subrange(0, cs@.len() as int) =~= comps_view(cs@));
        Ok(Template { raw: crate::text::str_to_string(raw), components: parsed })
    }

    pub fn raw(&self) -> (r: &str)
        ensures
            r@ == self@.raw,
    {
        self.raw.as_str()
    }

    /// How many path levels a rendered destination spans.
    pub fn depth(&self) -> (r: usize)
        ensures
            r == self@.comps.len(),
    {
        self.components.len()
    }

    /// Renders this template for `date` into a relative directory path,
    /// re-checking the result with the rule-destination safety check.
    pub fn render(&self, date: &DateMetadata) -> (r: Result<String, String>)
        ensures
            str_res_view(r) == template_render(self@, *date),
    {
        let mut out = String::new();
        let mut i: usize = 0;
        while i < self.components.len()
            invariant
                i <= self.components@.len(),
                out@ == render_comps(comps_segs_view(self.components@).subrange(0, i as int), *date),
            decreases self.components@.len() - i,
        {
            let comp = &self.components[i];
            let mut s = String::new();
            let mut k: usize = 0;
            while k < comp.len()
                invariant
                    k <= comp@.len(),
                    s@ == render_segs(segs_view(comp@).subrange(0, k as int), *date),
                decreases comp@.len() - k,
            {
                let piece = render_one_seg(&comp[k], date);
                s.append(piece.as_str());
                assert(segs_view(comp@).subrange(0, k + 1).drop_last() =~= segs_view(
                    comp@,
                ).subrange(0, k as int));
                k += 1;
            }
            assert(segs_view(comp@).subrange(0, comp@.len() as int) =~= segs_view(comp@));
            let ghost cs = comps_segs_view(self.components@);
            assert(cs.subrange(0, i + 1).drop_last() =~= cs.subrange(0, i as int));
            assert(cs.subrange(0, i + 1).last() == segs_view(comp@));
            out = path_join(out.as_str(), s.as_str());
            i += 1;
        }
        assert(comps_segs_view(self.components@).subrange(0, self.components@.len() as int)
            =~= comps_segs_view(self.components@));
        if !validate_rule_destination(out.as_str()) {
            return Err(
                concat3(
                    "rendered destination \"",
                    out.as_str(),
                    "\" is not a safe relative path",
                ),
            );
        }
        Ok(out)
    }

    /// Whether `component` could have been produced by rendering this
    /// template's `level`-th path component for some date.
    pub fn component_could_be_generated(&self, level: usize, component: &str) -> (r: bool)
        ensures
            r == could_be_generated(self@, level as int, component@),
    {
        if level >= self.components.len() {
            return false;
        }
        let segs = &self.components[level];
        let v = chars_of(component);
        let vl = v.len();
        let mut pos: usize = 0;
        let mut k: usize = 0;
        assert(v@.subrange(0, v@.len() as int) =~= v@);
        assert(self@.comps[level as int] == segs_view(segs@));
        assert(segs_view(segs@).subrange(0, segs@.len() as int) =~= segs_view(segs@));
        while k < segs.len()
            invariant
                k <= segs@.len(),
                pos <= v@.len(),
                vl == v@.len(),
                v@ == component@,
                level < self.components@.len(),
                segs == self.components@[level as int],
                could_be_generated(self@, level as int, component@) == segs_match(
                    segs_view(segs@).subrange(k as int, segs@.len() as int),
                    v@.subrange(pos as int, v@.len() as int),
                ),
            decreases segs@.len() - k,
        {
            let ghost sv = segs_view(segs@).subrange(k as int, segs@.len() as int);
            let ghost rest = v@.subrange(pos as int, v@.len() as int);
            assert(sv[0] == seg_view(segs@[k as int]));
            assert(sv.drop_first() =~= segs_view(segs@).subrange(k + 1, segs@.len() as int));
            match segs[k].width() {
                Some(w) => {
                    if vl - pos < w {
                        assert(seg_width(sv[0]) == Some(w as nat));
                        assert(!segs_match(sv, rest));
                        return false;
                    }
                    if !crate::text::digits_at(&v, pos, w) {
                        assert(v@.subrange(pos as int, pos + w) =~= rest.subrange(0, w as int));
                        assert(seg_width(sv[0]) == Some(w as nat));
                        assert(!segs_match(sv, rest));
                        return false;
                    }
                    assert(v@.subrange(pos as int, pos + w) =~= rest.subrange(0, w as int));
                    assert(all_digits(rest.subrange(0, w as int)));
                    assert(seg_width(sv[0]) == Some(w as nat));
                    assert(rest.subrange(w as int, rest.len() as int) =~= v@.subrange(
                        pos + w,
                        v@.len() as int,
                    ));
                    pos = pos + w;
                },
                None => {
                    match &segs[k] {
                        TemplateSegment::Literal(l) => {
                            let lv = chars_of(l.as_str());
                            assert(sv[0] == TemplateSegment::Literal(lv@));
                            if lv.len() > vl - pos {
                                assert(!starts_with(rest, lv@));
                                return false;
                            }
                            if !crate::text::matches_at(&v, &lv, pos) {
                                assert(v@.subrange(pos as int, pos + lv@.len()) =~= rest.subrange(
                                    0,
                                    lv@.len() as int,
                                ));
                                assert(!starts_with(rest, lv@));
                                return false;
                            }
                            assert(v@.subrange(pos as int, pos + lv@.len()) =~= rest.subrange(
                                0,
                                lv@.len() as int,
                            ));
                            assert(rest.subrange(0, lv@.len() as int) =~= lv@);
                            assert(rest.subrange(lv@.len() as int, rest.len() as int)
                                =~= v@.subrange(pos + lv@.len(), v@.len() as int));
                            pos = pos + lv.len();
                        },
                        _ => {
                            return false;
                        },
                    }
                },
            }
            k += 1;
        }
        pos == v.len()
    }
}

proof fn lemma_parse_all_err(cs: Seq<Comp<Seq<char>>>, i: int, e: Seq<char>)
    requires
        0 <= i <= cs.len(),
        parse_all(cs.subrange(0, i)) == Err::<Seq<Seq<TemplateSegment<Seq<char>>>>, Seq<char>>(
            e,
        ),
    ensures
        parse_all(cs.subrange(0, cs.len() as int)) == Err::<
            Seq<Seq<TemplateSegment<Seq<char>>>>,
            Seq<char>,
        >(e),
    decreases cs.len() - i,
{
    if i < cs.len() {
        assert(cs.subrange(0, i + 1).drop_last() =~= cs.subrange(0, i));
        lemma_parse_all_err(cs, i + 1, e);
    }
}

pub open spec fn comp_view_at(cs: Seq<Comp<String>>, i: int) -> Comp<Seq<char>> {
    crate::path::comp_view(cs[i])
}

// --------------------------------------------------------- unknown policy

/// What happens to an ordinary file with no specific category.
#[derive(Debug, Clone, Copy, PartialEq, Eq, Structural)]
pub enum UnknownPolicy {
    Other,
    Skip,
}

pub open spec fn parse_unknown(s: Seq<char>) -> Result<UnknownPolicy, Seq<char>> {
    let t = lower_seq(trim_seq(s));
    if t == "other"@ {
        Ok(UnknownPolicy::Other)
    } else if t == "skip"@ {
        Ok(UnknownPolicy::Skip)
    } else {
        Err("Unsupported unknown policy \""@ + t + "\". Supported: other, skip."@)
    }
}

impl UnknownPolicy {
    pub fn as_str(&self) -> (r: &'static str)
        ensures
            r@ == (match *self {
                UnknownPolicy::Other => "other"@,
                UnknownPolicy::Skip => "skip"@,
            }),
    {
        match self {
            UnknownPolicy::Other => "other",
            UnknownPolicy::Skip => "skip",
        }
    }

    pub fn parse(s: &str) -> (r: Result<Self, String>)
        ensures
            res_view(r) == parse_unknown(s@),
    {
        let t = normalized(s);
        if str_eq(t.as_str(), "other") {
            Ok(UnknownPolicy::Other)
        } else if str_eq(t.as_str(), "skip") {
            Ok(UnknownPolicy::Skip)
        } else {
            Err(concat3("Unsupported unknown policy \"", t.as_str(), "\". Supported: other, skip."))
        }
    }
}


// ------------------------------------------------------------- raw config

pub const SUPPORTED_VERSION: i64 = 1;
pub const MIN_STABILITY_SECONDS: i64 = 1;
pub const MAX_STABILITY_SECONDS: i64 = 300;
/// The default stability window, in milliseconds.
pub const DEFAULT_STABILITY_MS: u64 = 2500;

/// `[organize]` exactly as written in the file.
#[derive(Debug)]
pub struct RawOrganize {
    pub strategy: Option<String>,
    pub unknown: Option<String>,
    pub template: Option<String>,
    pub date_source: Option<String>,
}

/// `[watch]` exactly as written in the file.
#[derive(Debug)]
pub struct RawWatch {
    pub stability_seconds: Option<i64>,
}

/// A decoded `.sift.toml`, before validation.
#[derive(Debug)]
pub struct RawConfig {
    pub version: Option<i64>,
    pub organize: RawOrganize,
    pub watch: RawWatch,
    pub rules: Vec<Rule>,
}

impl Default for RawConfig {
    fn default() -> (r: Self)
        ensures
            r.version is None,
            r.organize.strategy is None,
            r.organize.unknown is None,
            r.organize.template is None,
            r.organize.date_source is None,
            r.watch.stability_seconds is None,
            r.rules@.len() == 0,
    {
        RawConfig {
            version: None,
            organize: RawOrganize { strategy: None, unknown: None, template: None, date_source: None },
            watch: RawWatch { stability_seconds: None },
            rules: Vec::new(),
        }
    }
}

/// The validated, typed content of one config file.
#[derive(Debug)]
pub struct Validated {
    pub version: i64,
    pub strategy: OrganizeStrategy,
    pub unknown_policy: UnknownPolicy,
    pub template: Option<Template>,
    pub date_source: Option<DateSource>,
    pub metadata_template: Option<MetadataTemplate>,
    /// Watch stability window in milliseconds.
    pub stability: u64,
    pub rules: Vec<Rule>,
}

pub struct ValidatedView {
    pub version: i64,
    pub strategy: OrganizeStrategy,
    pub unknown_policy: UnknownPolicy,
    pub template: Option<TemplateView>,
    pub date_source: Option<DateSource>,
    pub metadata_template: Option<MetaTemplateView>,
    pub stability: u64,
    pub rules: Seq<Rule>,
}

pub open spec fn opt_template_view(t: Option<Template>) -> Option<TemplateView> {
    match t {
        Some(x) => Some(x@),
        None => None,
    }
}

pub open spec fn opt_meta_view(t: Option<MetadataTemplate>) -> Option<MetaTemplateView> {
    match t {
        Some(x) => Some(x@),
        None => None,
    }
}

/// The metadata template a metadata strategy's `organize.template` parses
/// to (`None` for the other strategies).
pub open spec fn meta_template_check(st: OrganizeStrategy, o: RawOrganize) -> Result<
    Option<MetaTemplateView>,
    Seq<char>,
> {
    if is_metadata_strategy(st) {
        match o.template {
            Some(t) => match meta_template_parse(st, t@) {
                Ok(v) => Ok(Some(v)),
                Err(e) => Err(e),
            },
            None => Ok(None),
        }
    } else {
        Ok(None)
    }
}

pub open spec fn validated_view(v: Validated) -> ValidatedView {
    ValidatedView {
        version: v.version,
        strategy: v.strategy,
        unknown_policy: v.unknown_policy,
        template: opt_template_view(v.template),
        date_source: v.date_source,
        metadata_template: opt_meta_view(v.metadata_template),
        stability: v.stability,
        rules: v.rules@,
    }
}

/// The first rule (in file order) that fails `rule_check`, as its error.
pub open spec fn rules_check(rules: Seq<Rule>) -> Result<(), Seq<char>>
    decreases rules.len(),
{
    if rules.len() == 0 {
        Ok(())
    } else {
        match rules_check(rules.drop_last()) {
            Err(e) => Err(e),
            Ok(()) => rule_check(rules.last()),
        }
    }
}

pub open spec fn version_msg(v: int) -> Seq<char> {
    "Unsupported .sift.toml version "@ + dec_signed_padded(v, 0)
        + ".\nThis Sift build supports version 1."@
}

pub open spec fn stability_msg(secs: int) -> Seq<char> {
    "watch.stability_seconds must be between 1 and 300 (got "@ + dec_signed_padded(secs, 0)
        + ")."@
}

pub open spec fn opt_view(o: Option<String>) -> Option<Seq<char>> {
    match o {
        Some(s) => Some(s@),
        None => None,
    }
}

/// Strategy, unknown policy, template and date source, or the first
/// error among them.
pub open spec fn organize_check(o: RawOrganize) -> Result<
    (OrganizeStrategy, UnknownPolicy, Option<TemplateView>, Option<DateSource>),
    Seq<char>,
> {
    let strategy = match o.strategy {
        Some(s) => parse_strategy(s@),
        None => Ok(OrganizeStrategy::Type),
    };
    let unknown = match o.unknown {
        Some(s) => parse_unknown(s@),
        None => Ok(UnknownPolicy::Other),
    };
    match strategy {
        Err(e) => Err(e),
        Ok(st) => match unknown {
            Err(e) => Err(e),
            Ok(un) => match st {
                OrganizeStrategy::Type => if o.template is Some {
                    Err("organize.template is only valid with strategy = \"date\""@)
                } else if o.date_source is Some {
                    Err("organize.date_source is only valid with strategy = \"date\""@)
                } else {
                    Ok((st, un, None, None))
                },
                OrganizeStrategy::Date => match o.template {
                    None => Err("strategy = \"date\" requires organize.template"@),
                    Some(t) => match template_parse(t@) {
                        Err(e) => Err(e),
                        Ok(tv) => match o.date_source {
                            None => Ok((st, un, Some(tv), Some(DateSource::Modified))),
                            Some(ds) => match parse_date_source(ds@) {
                                Err(e) => Err(e),
                                Ok(d) => Ok((st, un, Some(tv), Some(d))),
                            },
                        },
                    },
                },
                _ => if o.date_source is Some {
                    Err("organize.date_source is only valid with strategy = \"date\""@)
                } else if o.template is None {
                    Err("strategy = \""@ + strategy_name(st) + "\" requires organize.template"@)
                } else {
                    Ok((st, un, None, None))
                },
            },
        },
    }
}

/// `validate`'s decision: every refusal, in the order the checks run.
pub open spec fn validate_spec(raw: RawConfig) -> Result<ValidatedView, Seq<char>> {
    let version: i64 = match raw.version {
        Some(v) => v,
        None => 1,
    };
    if version != 1 {
        Err(version_msg(version as int))
    } else {
        match organize_check(raw.organize) {
            Err(e) => Err(e),
            Ok((st, un, tv, ds)) => match meta_template_check(st, raw.organize) {
            Err(e) => Err(e),
            Ok(mt) => {
                let stab: Result<u64, Seq<char>> = match raw.watch.stability_seconds {
                    Some(secs) => if 1 <= secs <= 300 {
                        Ok((secs * 1000) as u64)
                    } else {
                        Err(stability_msg(secs as int))
                    },
                    None => Ok(2500u64),
                };
                match stab {
                    Err(e) => Err(e),
                    Ok(ms) => match rules_check(raw.rules@) {
                        Err(e) => Err(e),
                        Ok(()) => Ok(
                            ValidatedView {
                                version,
                                strategy: st,
                                unknown_policy: un,
                                template: tv,
                                date_source: ds,
                                metadata_template: mt,
                                stability: ms,
                                rules: raw.rules@,
                            },
                        ),
                    },
                }
            },
            },
        }
    }
}

proof fn lemma_rules_check_err(rules: Seq<Rule>, i: int, e: Seq<char>)
    requires
        0 <= i <= rules.len(),
        rules_check(rules.subrange(0, i)) == Err::<(), Seq<char>>(e),
    ensures
        rules_check(rules) == Err::<(), Seq<char>>(e),
    decreases rules.len() - i,
{
    if i < rules.len() {
        assert(rules.subrange(0, i + 1).drop_last() =~= rules.subrange(0, i));
        lemma_rules_check_err(rules, i + 1, e);
    } else {
        assert(rules.subrange(0, i) =~= rules);
    }
}

fn check_organize(o: &RawOrganize) -> (r: Result<
    (OrganizeStrategy, UnknownPolicy, Option<Template>, Option<DateSource>),
    String,
>)
    ensures
        match r {
            Ok((st, un, t, d)) => organize_check(*o) == Ok::<
                (OrganizeStrategy, UnknownPolicy, Option<TemplateView>, Option<DateSource>),
                Seq<char>,
            >((st, un, opt_template_view(t), d)),
            Err(e) => organize_check(*o) == Err::<
                (OrganizeStrategy, UnknownPolicy, Option<TemplateView>, Option<DateSource>),
                Seq<char>,
            >(e@),
        },
{
    let strategy = match &o.strategy {
        Some(s) => match OrganizeStrategy::parse(s.as_str()) {
            Ok(x) => x,
            Err(e) => {
                return Err(e);
            },
        },
        None => OrganizeStrategy::Type,
    };
    let unknown_policy = match &o.unknown {
        Some(s) => match UnknownPolicy::parse(s.as_str()) {
            Ok(x) => x,
            Err(e) => {
                return Err(e);
            },
        },
        None => UnknownPolicy::Other,
    };
    match strategy {
        OrganizeStrategy::Type => {
            if o.template.is_some() {
                return Err(
                    crate::text::str_to_string(
                        "organize.template is only valid with strategy = \"date\"",
                    ),
                );
            }
            if o.date_source.is_some() {
                return Err(
                    crate::text::str_to_string(
                        "organize.date_source is only valid with strategy = \"date\"",
                    ),
                );
            }
            Ok((strategy, unknown_policy, None, None))
        },
        OrganizeStrategy::Date => {
            let template = match &o.template {
                Some(t) => match Template::parse(t.as_str()) {
                    Ok(x) => x,
                    Err(e) => {
                        return Err(e);
                    },
                },
                None => {
                    return Err(
                        crate::text::str_to_string(
                            "strategy = \"date\" requires organize.template",
                        ),
                    );
                },
            };
            let date_source = match &o.date_source {
                Some(s) => match DateSource::parse(s.as_str()) {
                    Ok(x) => x,
                    Err(e) => {
                        return Err(e);
                    },
                },
                None => DateSource::Modified,
            };
            Ok((strategy, unknown_policy, Some(template), Some(date_source)))
        },
        _ => {
            if o.date_source.is_some() {
                return Err(
                    crate::text::str_to_string(
                        "organize.date_source is only valid with strategy = \"date\"",
                    ),
                );
            }
            if o.template.is_none() {
                return Err(concat3("strategy = \"", strategy.as_str(), "\" requires organize.template"));
            }
            Ok((strategy, unknown_policy, None, None))
        },
    }
}

fn check_meta_template(st: OrganizeStrategy, o: &RawOrganize) -> (r: Result<Option<MetadataTemplate>, String>)
    ensures
        match r {
            Ok(t) => meta_template_check(st, *o) == Ok::<Option<MetaTemplateView>, Seq<char>>(
                opt_meta_view(t),
            ),
            Err(e) => meta_template_check(st, *o) == Err::<Option<MetaTemplateView>, Seq<char>>(e@),
        },
{
    if !st.supports_recursive() {
        match &o.template {
            Some(t) => match MetadataTemplate::parse(t.as_str(), st) {
                Ok(x) => Ok(Some(x)),
                Err(e) => Err(e),
            },
            None => Ok(None),
        }
    } else {
        Ok(None)
    }
}

/// Validates a decoded config: version, strategy and its template/date
/// source, unknown policy, stability window and every rule. Any problem is
/// an error; nothing is silently defaulted or ignored.
pub fn validate(raw: RawConfig) -> (r: Result<Validated, String>)
    ensures
        match r {
            Ok(v) => validate_spec(raw) == Ok::<ValidatedView, Seq<char>>(validated_view(v)),
            Err(e) => validate_spec(raw) == Err::<ValidatedView, Seq<char>>(e@),
        },
{
    let version = match raw.version {
        Some(v) => v,
        None => SUPPORTED_VERSION,
    };
    if version != SUPPORTED_VERSION {
        let a = concat("Unsupported .sift.toml version ", fmt_i64(version, 0).as_str());
        return Err(concat(a.as_str(), ".\nThis Sift build supports version 1."));
    }
    let (strategy, unknown_policy, template, date_source) = match check_organize(&raw.organize) {
        Ok(x) => x,
        Err(e) => {
            return Err(e);
        },
    };
    let metadata_template = match check_meta_template(strategy, &raw.organize) {
        Ok(x) => x,
        Err(e) => {
            return Err(e);
        },
    };
    let stability: u64 = match raw.watch.stability_seconds {
        Some(secs) => {
            if !(MIN_STABILITY_SECONDS <= secs && secs <= MAX_STABILITY_SECONDS) {
                let a = concat(
                    "watch.stability_seconds must be between 1 and 300 (got ",
                    fmt_i64(secs, 0).as_str(),
                );
                return Err(concat(a.as_str(), ")."));
            }
            (secs as u64) * 1000
        },
        None => DEFAULT_STABILITY_MS,
    };
    let mut i: usize = 0;
    while i < raw.rules.len()
        invariant
            i <= raw.rules@.len(),
            rules_check(raw.rules@.subrange(0, i as int)) == Ok::<(), Seq<char>>(()),
            version == 1,
            version == (match raw.version {
                Some(v) => v,
                None => 1,
            }),
            organize_check(raw.organize) == Ok::<
                (OrganizeStrategy, UnknownPolicy, Option<TemplateView>, Option<DateSource>),
                Seq<char>,
            >((strategy, unknown_policy, opt_template_view(template), date_source)),
            meta_template_check(strategy, raw.organize) == Ok::<Option<MetaTemplateView>, Seq<char>>(
                opt_meta_view(metadata_template),
            ),
            match raw.watch.stability_seconds {
                Some(secs) => 1 <= secs <= 300 && stability == secs * 1000,
                None => stability == 2500,
            },
        decreases raw.rules@.len() - i,
    {
        assert(raw.rules@.subrange(0, i + 1).drop_last() =~= raw.rules@.subrange(0, i as int));
        match validate_rule(&raw.rules[i]) {
            Err(e) => {
                proof {
                    lemma_rules_check_err(raw.rules@, i + 1, e@);
                }
                return Err(e);
            },
            Ok(()) => {},
        }
        i += 1;
    }
    assert(raw.rules@.subrange(0, raw.rules@.len() as int) =~= raw.rules@);
    Ok(
        Validated {
            version,
            strategy,
            unknown_policy,
            template,
            date_source,
            metadata_template,
            stability,
            rules: raw.rules,
        },
    )
}


// ------------------------------------------------------ effective policy

/// Where an `EffectivePolicy` came from.
#[derive(Debug)]
pub enum PolicySource {
    Local { path: String },
    Global { path: String },
    Default,
}

impl Clone for PolicySource {
    fn clone(&self) -> (r: Self)
        ensures
            r == *self,
    {
        match self {
            PolicySource::Local { path } => PolicySource::Local { path: path.clone() },
            PolicySource::Global { path } => PolicySource::Global { path: path.clone() },
            PolicySource::Default => PolicySource::Default,
        }
    }
}

impl PolicySource {
    pub fn describe(&self) -> (r: String)
        ensures
            r@ == (match *self {
                PolicySource::Local { path } => path@,
                PolicySource::Global { path } => path@,
                PolicySource::Default => "built-in defaults"@,
            }),
    {
        match self {
            PolicySource::Local { path } | PolicySource::Global { path } => path.clone(),
            PolicySource::Default => crate::text::str_to_string("built-in defaults"),
        }
    }

    pub fn label(&self) -> (r: &'static str)
        ensures
            r@ == (match *self {
                PolicySource::Local { .. } => ".sift.toml"@,
                PolicySource::Global { .. } => "global"@,
                PolicySource::Default => "built-in defaults"@,
            }),
    {
        match self {
            PolicySource::Local { .. } => ".sift.toml",
            PolicySource::Global { .. } => "global",
            PolicySource::Default => "built-in defaults",
        }
    }
}

/// The fully resolved, validated policy in effect for one root.
#[derive(Debug)]
pub struct EffectivePolicy {
    pub source: PolicySource,
    pub version: i64,
    pub strategy: OrganizeStrategy,
    pub unknown_policy: UnknownPolicy,
    /// `Some` exactly when `strategy` is `Date`.
    pub template: Option<Template>,
    /// `Some` exactly when `strategy` is `Date`.
    pub date_source: Option<DateSource>,
    /// `Some` exactly when `strategy` is a metadata strategy.
    pub metadata_template: Option<MetadataTemplate>,
    /// Watch stability window in milliseconds.
    pub stability: u64,
    pub rules: Vec<Rule>,
}

/// The invariant every resolved policy has: a template and a date source
/// exactly for the `date` strategy.
pub open spec fn policy_wf(p: EffectivePolicy) -> bool {
    &&& (p.strategy == OrganizeStrategy::Date) == (p.template is Some)
    &&& (p.strategy == OrganizeStrategy::Date) == (p.date_source is Some)
    &&& is_metadata_strategy(p.strategy) == (p.metadata_template is Some)
    &&& p.metadata_template matches Some(m) ==> m@.strategy == p.strategy
}

impl Default for EffectivePolicy {
    /// Built-in defaults: no config file, always valid.
    fn default() -> (r: Self)
        ensures
            r.source == PolicySource::Default,
            r.version == 1,
            r.strategy == OrganizeStrategy::Type,
            r.unknown_policy == UnknownPolicy::Other,
            r.template is None,
            r.date_source is None,
            r.metadata_template is None,
            r.stability == 2500,
            r.rules@.len() == 0,
    {
        EffectivePolicy {
            source: PolicySource::Default,
            version: SUPPORTED_VERSION,
            strategy: OrganizeStrategy::Type,
            unknown_policy: UnknownPolicy::Other,
            template: None,
            date_source: None,
            metadata_template: None,
            stability: DEFAULT_STABILITY_MS,
            rules: Vec::new(),
        }
    }
}

impl EffectivePolicy {
    /// The same policy with `rules` as its rule set.
    pub fn with_rules(self, rules: Vec<Rule>) -> (r: Self)
        ensures
            r == (EffectivePolicy { rules, ..self }),
    {
        let mut p = self;
        p.rules = rules;
        p
    }
}

/// Why a config file's text could not be turned into a `RawConfig`.
#[derive(Debug)]
pub enum ConfigReadError {
    /// The file exists but could not be read.
    Io(String),
    /// The file is not valid TOML for the config schema.
    Syntax(String),
}

/// One config file that exists: its path and what reading and decoding it
/// gave.
#[derive(Debug)]
pub struct ConfigFile {
    pub path: String,
    pub contents: Result<RawConfig, ConfigReadError>,
}

pub open spec fn file_error(path: Seq<char>, e: Seq<char>) -> Seq<char> {
    path + ": "@ + e
}

/// The policy one existing config file yields, or the error that fails
/// the lookup closed (always prefixed with the file's path).
pub open spec fn file_policy(f: ConfigFile) -> Result<ValidatedView, Seq<char>> {
    match f.contents {
        Err(ConfigReadError::Io(e)) => Err(file_error(f.path@, e@)),
        Err(ConfigReadError::Syntax(e)) => Err(
            file_error(f.path@, "invalid .sift.toml: "@ + e@),
        ),
        Ok(raw) => match validate_spec(raw) {
            Err(e) => Err(file_error(f.path@, e)),
            Ok(v) => Ok(v),
        },
    }
}

pub open spec fn policy_matches(p: EffectivePolicy, v: ValidatedView) -> bool {
    p.version == v.version && p.strategy == v.strategy && p.unknown_policy == v.unknown_policy
        && opt_template_view(p.template) == v.template && p.date_source == v.date_source
        && opt_meta_view(p.metadata_template) == v.metadata_template
        && p.stability == v.stability && p.rules@ == v.rules
}

fn policy_from_file(f: ConfigFile, local: bool) -> (r: Result<EffectivePolicy, String>)
    ensures
        r matches Ok(p) ==> policy_wf(p),
        match r {
            Ok(p) => file_policy(f) matches Ok(v) && policy_matches(p, v) && p.source == (if local {
                PolicySource::Local { path: f.path }
            } else {
                PolicySource::Global { path: f.path }
            }),
            Err(e) => file_policy(f) == Err::<ValidatedView, Seq<char>>(e@),
        },
{
    let ConfigFile { path, contents } = f;
    match contents {
        Err(ConfigReadError::Io(e)) => Err(concat3(path.as_str(), ": ", e.as_str())),
        Err(ConfigReadError::Syntax(e)) => {
            let m = concat("invalid .sift.toml: ", e.as_str());
            Err(concat3(path.as_str(), ": ", m.as_str()))
        },
        Ok(raw) => match validate(raw) {
            Err(e) => Err(concat3(path.as_str(), ": ", e.as_str())),
            Ok(v) => {
                let source = if local {
                    PolicySource::Local { path }
                } else {
                    PolicySource::Global { path }
                };
                Ok(
                    EffectivePolicy {
                        source,
                        version: v.version,
                        strategy: v.strategy,
                        unknown_policy: v.unknown_policy,
                        template: v.template,
                        date_source: v.date_source,
                        metadata_template: v.metadata_template,
                        stability: v.stability,
                        rules: v.rules,
                    },
                )
            },
        },
    }
}

/// The one configuration resolver: `<root>/.sift.toml` if it exists, else
/// the global config if it exists, else built-in defaults. A file that
/// exists but does not read, decode or validate is an error, never skipped
/// in favour of the next level; a local file is never merged with the
/// global one.
pub fn resolve_policy_from(local: Option<ConfigFile>, global: Option<ConfigFile>) -> (r: Result<
    EffectivePolicy,
    String,
>)
    ensures
        r matches Ok(p) ==> policy_wf(p),
        match local {
            Some(f) => match r {
                Ok(p) => file_policy(f) matches Ok(v) && policy_matches(p, v) && p.source
                    == PolicySource::Local { path: f.path },
                Err(e) => file_policy(f) == Err::<ValidatedView, Seq<char>>(e@),
            },
            None => match global {
                Some(g) => match r {
                    Ok(p) => file_policy(g) matches Ok(v) && policy_matches(p, v) && p.source
                        == PolicySource::Global { path: g.path },
                    Err(e) => file_policy(g) == Err::<ValidatedView, Seq<char>>(e@),
                },
                None => r matches Ok(p) && p.source == PolicySource::Default && p.strategy
                    == OrganizeStrategy::Type && p.unknown_policy == UnknownPolicy::Other
                    && p.template is None && p.date_source is None && p.stability == 2500
                    && p.rules@.len() == 0 && p.version == 1,
            },
        },
{
    match local {
        Some(f) => policy_from_file(f, true),
        None => match global {
            Some(g) => policy_from_file(g, false),
            None => Ok(EffectivePolicy::default()),
        },
    }
}

} // verus!
