//! The pieces of human-readable output that carry a decision: colouring,
//! relative display of paths, timestamps, and the recognition of the
//! reasons a listing treats specially. Printing happens elsewhere.
use vstd::prelude::*;
use crate::domain::{ActionResult, Category, Entry, Op, Action};
use crate::path::{
    comps_text,
    components,
    file_name,
    paths_equal,
    path_strip_prefix,
    push_all,
    same_path,
    strip_prefix,
};
use crate::planner::{
    builtin_dest_spec,
    builtin_destination,
    identical_duplicate_prefix,
    renamed_collision_suffix,
    identical_duplicate_reason_prefix,
    renamed_collision_reason_suffix,
};
use crate::text::{
    concat,
    concat3,
    dec_padded,
    dec_signed_padded,
    ends_with,
    fmt_i64,
    fmt_u64,
    starts_with,
    str_ends_with,
    str_eq,
    str_starts_with,
};
use crate::utils::civil_from_unix_secs;
use crate::config::{
    policy_wf,
    strategy_name,
    EffectivePolicy,
    OrganizeStrategy,
    PolicySource,
    UnknownPolicy,
};
use crate::text::{chars_of, dec, string_of};
use crate::explain::{Explanation, SafetyCheck};
use crate::path::{extension, path_extension, path_file_name};
use crate::text::str_to_string;

verus! {

/// `s` wrapped in the ANSI colour `code` when colour is enabled.
pub fn colorize(s: &str, code: &str, enabled: bool) -> (r: String)
    ensures
        r@ == if enabled {
            "\x1b["@ + code@ + "m"@ + s@ + "\x1b[0m"@
        } else {
            s@
        },
{
    if enabled {
        let a = concat3("\x1b[", code, "m");
        concat3(a.as_str(), s, "\x1b[0m")
    } else {
        s.to_owned()
    }
}

/// `path` relative to `base` for display (rebuilt from its components),
/// or `path` unchanged when it is not under `base`.
pub open spec fn display_rel_spec(path: Seq<char>, base: Seq<char>) -> Seq<char> {
    match strip_prefix(path, base) {
        Some(rest) => push_all(Seq::empty(), rest),
        None => path,
    }
}

pub fn display_rel(path: &str, base: &str) -> (r: String)
    ensures
        r@ == display_rel_spec(path@, base@),
{
    match path_strip_prefix(path, base) {
        Some(rest) => comps_text(&rest),
        None => path.to_owned(),
    }
}

/// `YYYY-MM-DD HH:MM UTC` of a timestamp (read as an `i64`; the time of
/// day comes from the Euclidean remainder).
pub open spec fn timestamp_spec(secs: int) -> Seq<char> {
    let s = crate::utils::wrapped_secs(secs);
    let c = crate::utils::civil_any(s);
    let rem = s % 86400;
    dec_signed_padded(c.0, 4) + "-"@ + dec_padded(c.1 as nat, 2) + "-"@ + dec_padded(c.2 as nat, 2)
        + " "@ + dec_padded((rem / 3600) as nat, 2) + ":"@ + dec_padded(((rem % 3600) / 60) as nat, 2)
        + " UTC"@
}

/// Formats a Unix timestamp (seconds) as `YYYY-MM-DD HH:MM UTC`.
pub fn format_timestamp(secs: u64) -> (r: String)
    ensures
        r@ == timestamp_spec(secs as int),
{
    let s: i64 = if secs <= 9223372036854775807u64 {
        secs as i64
    } else {
        -((18446744073709551615u64 - secs) as i64) - 1
    };
    assert(s as int == crate::utils::wrapped_secs(secs as int));
    let r0 = s % 86400;
    let rem = if r0 < 0 {
        r0 + 86400
    } else {
        r0
    };
    assert(rem as int == (s as int) % 86400);
    let hour = rem / 3600;
    let minute = (rem % 3600) / 60;
    let (year, month, day) = civil_from_unix_secs(s);
    let y = fmt_i64(year, 4);
    let mo = fmt_u64(month as u64, 2);
    let d = fmt_u64(day as u64, 2);
    let h = fmt_u64(hour as u64, 2);
    let mi = fmt_u64(minute as u64, 2);
    let mut out = concat3(y.as_str(), "-", mo.as_str());
    out.append("-");
    out.append(d.as_str());
    out.append(" ");
    out.append(h.as_str());
    out.append(":");
    out.append(mi.as_str());
    out.append(" UTC");
    out
}

/// `""` for one, `"s"` otherwise.
pub fn plural(n: usize) -> (r: &'static str)
    ensures
        r@ == if n == 1 {
            ""@
        } else {
            "s"@
        },
{
    if n == 1 {
        ""
    } else {
        "s"
    }
}

/// Skip reasons that only ever apply to directories.
pub open spec fn dir_like_reason(r: Seq<char>) -> bool {
    r == "software project"@ || r == "protected directory"@ || r == "directory"@ || r
        == "hidden directory"@
}

/// A listing name with a trailing `/` when its skip reason marks it as a
/// directory.
pub fn with_dir_suffix(name: String, reason: &str) -> (r: String)
    ensures
        r@ == if dir_like_reason(reason@) {
            name@ + "/"@
        } else {
            name@
        },
{
    if str_eq(reason, "software project") || str_eq(reason, "protected directory") || str_eq(
        reason,
        "directory",
    ) || str_eq(reason, "hidden directory") {
        concat(name.as_str(), "/")
    } else {
        name
    }
}

/// Whether a reason names one of the automatic duplicate-collision
/// resolutions, which listings always surface on their own.
pub open spec fn duplicate_collision_spec(r: Seq<char>) -> bool {
    starts_with(r, identical_duplicate_prefix()) || ends_with(r, renamed_collision_suffix())
}

pub fn is_duplicate_collision_reason(reason: &str) -> (r: bool)
    ensures
        r == duplicate_collision_spec(reason@),
{
    str_starts_with(reason, identical_duplicate_reason_prefix()) || str_ends_with(
        reason,
        renamed_collision_reason_suffix(),
    )
}

/// Whether an action is a skip at a recursive-traversal boundary.
pub fn is_traversal_boundary(action: &Action) -> (r: bool)
    ensures
        r == match action.reason {
            Some(m) => crate::scanner::is_traversal_boundary_reason(m@),
            None => false,
        },
{
    match &action.reason {
        Some(m) => {
            let r = m.as_str();
            str_eq(r, "symlink") || str_eq(r, "software project") || str_eq(r, "protected directory")
                || str_eq(r, "hidden directory") || str_eq(r, "category directory") || str_eq(
                r,
                "build output",
            )
        },
        None => false,
    }
}

/// Header of one directory's section in a recursive listing: the root by
/// its own name, any other directory relative to it.
pub open spec fn dir_header_spec(dir: Seq<char>, target: Seq<char>) -> Seq<char> {
    if same_path(dir, target) {
        match file_name(target) {
            Some(n) => n + "/"@,
            None => "."@,
        }
    } else {
        display_rel_spec(dir, target) + "/"@
    }
}

pub fn dir_header(dir: &str, target: &str) -> (r: String)
    ensures
        r@ == dir_header_spec(dir@, target@),
{
    if paths_equal(dir, target) {
        match crate::path::path_file_name(target) {
            Some(n) => concat(n.as_str(), "/"),
            None => ".".to_owned(),
        }
    } else {
        let d = display_rel(dir, target);
        concat(d.as_str(), "/")
    }
}

pub open spec fn count_ok_spec(v: Seq<ActionResult>, op: Op) -> nat
    decreases v.len(),
{
    if v.len() == 0 {
        0
    } else {
        count_ok_spec(v.drop_last(), op) + if v.last().op == op && v.last().result is Ok {
            1nat
        } else {
            0nat
        }
    }
}

/// How many outcomes of kind `op` succeeded.
pub fn count_ok(outcomes: &[ActionResult], op: Op) -> (r: usize)
    ensures
        r == count_ok_spec(outcomes@, op),
{
    let mut n: usize = 0;
    let mut i: usize = 0;
    while i < outcomes.len()
        invariant
            i <= outcomes@.len(),
            n == count_ok_spec(outcomes@.subrange(0, i as int), op),
            n <= i,
        decreases outcomes@.len() - i,
    {
        assert(outcomes@.subrange(0, i + 1).drop_last() =~= outcomes@.subrange(0, i as int));
        if outcomes[i].op == op && outcomes[i].result.is_ok() {
            n += 1;
        }
        i += 1;
    }
    assert(outcomes@.subrange(0, outcomes@.len() as int) =~= outcomes@);
    n
}

/// The actions of one kind, in order.
pub fn filter_op(actions: &[Action], op: Op) -> (r: Vec<Action>)
    ensures
        r@ == actions@.filter(|a: Action| a.op == op),
{
    let mut out: Vec<Action> = Vec::new();
    let mut i: usize = 0;
    assert(actions@.subrange(0, 0).filter(|a: Action| a.op == op) =~= Seq::<Action>::empty()) by {
        reveal(Seq::filter);
    }
    while i < actions.len()
        invariant
            i <= actions@.len(),
            out@ == actions@.subrange(0, i as int).filter(|a: Action| a.op == op),
        decreases actions@.len() - i,
    {
        assert(actions@.subrange(0, i + 1) =~= actions@.subrange(0, i as int).push(actions@[i as int]));
        proof {
            actions@.subrange(0, i as int).lemma_filter_push(actions@[i as int], |a: Action| a.op == op);
        }
        if actions[i].op == op {
            out.push(actions[i].clone());
        }
        i += 1;
    }
    assert(actions@.subrange(0, actions@.len() as int) =~= actions@);
    out
}

pub open spec fn entry_type_label_spec(e: Entry) -> Seq<char> {
    if e.is_symlink {
        "LINK"@
    } else if e.is_dir {
        "DIR"@
    } else {
        "FILE"@
    }
}

pub fn entry_type_label(e: &Entry) -> (r: &'static str)
    ensures
        r@ == entry_type_label_spec(*e),
{
    if e.is_symlink {
        "LINK"
    } else if e.is_dir {
        "DIR"
    } else {
        "FILE"
    }
}

/// The ANSI colour code of an entry's type.
pub fn entry_type_color(e: &Entry) -> (r: &'static str)
    ensures
        r@ == if e.is_symlink {
            "33"@
        } else if e.is_dir {
            "36"@
        } else {
            "37"@
        },
{
    if e.is_symlink {
        "33"
    } else if e.is_dir {
        "36"
    } else {
        "37"
    }
}

/// `"  (project root, hidden)"`-style flags of an entry, or nothing.
pub open spec fn entry_flags_spec(e: Entry) -> Seq<char> {
    let first: Option<Seq<char>> = if e.project_root {
        Some("project root"@)
    } else if e.protected {
        Some("protected"@)
    } else {
        None
    };
    match (first, e.hidden) {
        (None, false) => Seq::empty(),
        (None, true) => "  (hidden)"@,
        (Some(f), false) => "  ("@ + f + ")"@,
        (Some(f), true) => "  ("@ + f + ", hidden)"@,
    }
}

pub fn entry_flags(e: &Entry) -> (r: String)
    ensures
        r@ == entry_flags_spec(*e),
{
    let first: Option<&str> = if e.project_root {
        Some("project root")
    } else if e.protected {
        Some("protected")
    } else {
        None
    };
    match (first, e.hidden) {
        (None, false) => String::new(),
        (None, true) => "  (hidden)".to_owned(),
        (Some(f), false) => concat3("  (", f, ")"),
        (Some(f), true) => concat3("  (", f, ", hidden)"),
    }
}

/// The built-in destination directory name of a category, or `?`.
pub fn folder_dest_label(cat: Category) -> (r: &'static str)
    ensures
        r@ == match builtin_dest_spec(cat) {
            Some((n, _)) => n,
            None => "?"@,
        },
{
    match builtin_destination(cat) {
        Some((name, _)) => name,
        None => "?",
    }
}

// ------------------------------------------------------------------ explain

pub open spec fn lines_view(v: Seq<String>) -> Seq<Seq<char>> {
    v.map_values(|s: String| s@)
}

pub(crate) fn push_line(out: &mut Vec<String>, s: String)
    ensures
        lines_view(final(out)@) == lines_view(old(out)@).push(s@),
{
    let ghost b = lines_view(out@);
    out.push(s);
    assert(lines_view(out@) =~= b.push(s@));
}

pub(crate) fn push_str(out: &mut Vec<String>, s: &str)
    ensures
        lines_view(final(out)@) == lines_view(old(out)@).push(s@),
{
    push_line(out, str_to_string(s));
}

/// How `{:?}` prints a category.
pub open spec fn category_debug(c: Category) -> Seq<char> {
    match c {
        Category::Document => "Document"@,
        Category::Image => "Image"@,
        Category::Video => "Video"@,
        Category::Audio => "Audio"@,
        Category::Archive => "Archive"@,
        Category::ThreeD => "ThreeD"@,
        Category::Code => "Code"@,
        Category::Data => "Data"@,
        Category::Other => "Other"@,
        Category::Junk => "Junk"@,
        Category::BuildOutput => "BuildOutput"@,
        Category::Sensitive => "Sensitive"@,
        Category::Unknown => "Unknown"@,
    }
}

pub fn category_debug_name(c: Category) -> (r: &'static str)
    ensures
        r@ == category_debug(c),
{
    match c {
        Category::Document => "Document",
        Category::Image => "Image",
        Category::Video => "Video",
        Category::Audio => "Audio",
        Category::Archive => "Archive",
        Category::ThreeD => "ThreeD",
        Category::Code => "Code",
        Category::Data => "Data",
        Category::Other => "Other",
        Category::Junk => "Junk",
        Category::BuildOutput => "BuildOutput",
        Category::Sensitive => "Sensitive",
        Category::Unknown => "Unknown",
    }
}

/// The upper-case name of an operation.
pub open spec fn op_upper(op: Op) -> Seq<char> {
    match op {
        Op::Move => "MOVE"@,
        Op::Trash => "TRASH"@,
        Op::Skip => "SKIP"@,
        Op::CreateDir => "CREATEDIR"@,
        Op::MoveDir => "MOVEDIR"@,
    }
}

pub fn op_upper_name(op: Op) -> (r: &'static str)
    ensures
        r@ == op_upper(op),
{
    match op {
        Op::Move => "MOVE",
        Op::Trash => "TRASH",
        Op::Skip => "SKIP",
        Op::CreateDir => "CREATEDIR",
        Op::MoveDir => "MOVEDIR",
    }
}

pub open spec fn or_none(o: Option<String>) -> Seq<char> {
    match o {
        Some(s) => s@,
        None => "(none)"@,
    }
}

/// The opening sections: file, policy and strategy.
pub open spec fn explain_head(e: Explanation) -> Seq<Seq<char>> {
    seq![
        "Sift explain"@,
        match file_name(e.file@) {
            Some(n) => n,
            None => e.file@,
        },
        ""@,
        "Policy"@,
        "  "@ + policy_source_text(e.source),
        ""@,
        "Strategy"@,
        if e.matched_rule is Some {
            "  "@ + strategy_name(e.strategy) + " (not used because rule matched)"@
        } else {
            "  "@ + strategy_name(e.strategy)
        },
        ""@,
    ]
}

pub open spec fn policy_source_text(s: PolicySource) -> Seq<char> {
    match s {
        PolicySource::Local { path } => path@,
        PolicySource::Global { path } => path@,
        PolicySource::Default => "built-in defaults"@,
    }
}

/// The rule section.
pub open spec fn explain_rule(e: Explanation) -> Seq<Seq<char>> {
    match e.matched_rule {
        Some((pat, act, dest)) => seq![
            "Rule"@,
            match dest {
                Some(d) => "  "@ + pat@ + " → "@ + act@ + " "@ + d@ + "/"@,
                None => "  "@ + pat@ + " → "@ + act@,
            },
            ""@,
        ],
        None => seq!["Rules"@, "  no matching rule"@, ""@],
    }
}

pub open spec fn unknown_name(p: UnknownPolicy) -> Seq<char> {
    match p {
        UnknownPolicy::Other => "other"@,
        UnknownPolicy::Skip => "skip"@,
    }
}

/// The strategy's own evidence, shown only when no rule decided.
pub open spec fn explain_evidence(e: Explanation) -> Seq<Seq<char>> {
    if e.matched_rule is Some {
        Seq::empty()
    } else {
        match e.strategy {
            OrganizeStrategy::Type => match (e.classification, e.unknown_fallback) {
                (Some(_), Some(p)) => seq![
                    "Classification"@,
                    "  unknown"@,
                    ""@,
                    "Policy (unknown)"@,
                    "  unknown → "@ + unknown_name(p),
                ],
                (Some(c), None) => seq![
                    "Classification"@,
                    "  "@ + match extension(e.file@) {
                        Some(x) => "."@ + x,
                        None => "(no extension)"@,
                    } + " → "@ + category_debug(c),
                ],
                (None, _) => seq!["Classification"@, "  n/a"@],
            },
            OrganizeStrategy::Date => seq!["Metadata"@] + match e.date_metadata {
                Some(m) => seq![
                    "  modified     "@ + dec_signed_padded(m.year as int, 4) + "-"@ + dec_padded(m.month as nat, 2) + "-"@
                        + dec_padded(m.day as nat, 2),
                    "  year         "@ + dec_signed_padded(m.year as int, 4),
                    "  month        "@ + dec_padded(m.month as nat, 2),
                    "  day          "@ + dec_padded(m.day as nat, 2),
                ],
                None => seq!["  unavailable"@],
            } + seq![""@, "Template"@, "  "@ + or_none(e.template)],
            _ => seq!["Template"@, "  "@ + or_none(e.template)],
        }
    }
}

/// One safety line.
pub open spec fn check_line(c: SafetyCheck, color: bool) -> Seq<char> {
    let mark = if c.ok {
        colorize_spec("✓"@, "32"@, color)
    } else {
        colorize_spec("✗"@, "31"@, color)
    };
    match c.detail {
        Some(d) => "  "@ + mark + " "@ + c.label@ + " — "@ + d@,
        None => "  "@ + mark + " "@ + c.label@,
    }
}

pub open spec fn colorize_spec(s: Seq<char>, code: Seq<char>, enabled: bool) -> Seq<char> {
    if enabled {
        "\x1b["@ + code + "m"@ + s + "\x1b[0m"@
    } else {
        s
    }
}

/// The closing sections: destination, decision and safety checks.
pub open spec fn explain_tail(e: Explanation, color: bool) -> Seq<Seq<char>> {
    seq![
        ""@,
        "Destination"@,
        "  "@ + or_none(e.destination),
        ""@,
        "Decision"@,
        "  "@ + op_upper(e.op),
        "  "@ + e.reason@,
        ""@,
        "Safety"@,
    ] + e.checks@.map_values(|c: SafetyCheck| check_line(c, color)) + seq![""@, "No changes were made."@]
}

/// The `explain` report, line by line.
pub open spec fn explain_text(e: Explanation, color: bool) -> Seq<Seq<char>> {
    explain_head(e) + explain_rule(e) + explain_evidence(e) + explain_tail(e, color)
}

fn opt_text(o: &Option<String>) -> (r: String)
    ensures
        r@ == or_none(*o),
{
    match o {
        Some(s) => s.clone(),
        None => str_to_string("(none)"),
    }
}

fn explain_head_lines(e: &Explanation, out: &mut Vec<String>)
    ensures
        lines_view(final(out)@) == lines_view(old(out)@) + explain_head(*e),
{
    let ghost b = lines_view(out@);
    push_str(out, "Sift explain");
    match path_file_name(e.file.as_str()) {
        Some(n) => push_line(out, n),
        None => push_line(out, e.file.clone()),
    }
    push_str(out, "");
    push_str(out, "Policy");
    let d = e.source.describe();
    push_line(out, concat("  ", d.as_str()));
    push_str(out, "");
    push_str(out, "Strategy");
    if e.matched_rule.is_some() {
        push_line(out, concat3("  ", e.strategy.as_str(), " (not used because rule matched)"));
    } else {
        push_line(out, concat("  ", e.strategy.as_str()));
    }
    push_str(out, "");
    assert(lines_view(out@) =~= b + explain_head(*e));
}

fn explain_rule_lines(e: &Explanation, out: &mut Vec<String>)
    ensures
        lines_view(final(out)@) == lines_view(old(out)@) + explain_rule(*e),
{
    let ghost b = lines_view(out@);
    match &e.matched_rule {
        Some((pat, act, dest)) => {
            push_str(out, "Rule");
            let a = concat3("  ", pat.as_str(), " → ");
            let a2 = concat(a.as_str(), act.as_str());
            match dest {
                Some(d) => {
                    let a3 = concat3(a2.as_str(), " ", d.as_str());
                    push_line(out, concat(a3.as_str(), "/"));
                },
                None => push_line(out, a2),
            }
        },
        None => {
            push_str(out, "Rules");
            push_str(out, "  no matching rule");
        },
    }
    push_str(out, "");
    assert(lines_view(out@) =~= b + explain_rule(*e));
}

fn explain_evidence_lines(e: &Explanation, out: &mut Vec<String>)
    ensures
        lines_view(final(out)@) == lines_view(old(out)@) + explain_evidence(*e),
{
    let ghost b = lines_view(out@);
    if e.matched_rule.is_some() {
        assert(lines_view(out@) =~= b + explain_evidence(*e));
        return;
    }
    match e.strategy {
        OrganizeStrategy::Type => match (e.classification, e.unknown_fallback) {
            (Some(_), Some(p)) => {
                push_str(out, "Classification");
                push_str(out, "  unknown");
                push_str(out, "");
                push_str(out, "Policy (unknown)");
                push_line(out, concat("  unknown → ", p.as_str()));
                assert(lines_view(out@) =~= b + explain_evidence(*e));
            },
            (Some(c), None) => {
                push_str(out, "Classification");
                let ext = match path_extension(e.file.as_str()) {
                    Some(x) => concat(".", x.as_str()),
                    None => str_to_string("(no extension)"),
                };
                let ghost exts: Seq<char> = match extension(e.file@) {
                    Some(x) => "."@ + x,
                    None => "(no extension)"@,
                };
                assert(ext@ == exts);
                let tail = concat(" → ", category_debug_name(c));
                let line = concat3("  ", ext.as_str(), tail.as_str());
                assert(line@ =~= "  "@ + exts + " → "@ + category_debug(c));
                push_line(out, line);
                assert(lines_view(out@) =~= b + explain_evidence(*e));
            },
            (None, _) => {
                push_str(out, "Classification");
                push_str(out, "  n/a");
                assert(lines_view(out@) =~= b + explain_evidence(*e));
            },
        },
        OrganizeStrategy::Date => {
            push_str(out, "Metadata");
            match e.date_metadata {
                Some(m) => {
                    let y = fmt_i64(m.year, 4);
                    let mo = fmt_u64(m.month as u64, 2);
                    let d = fmt_u64(m.day as u64, 2);
                    let l1 = concat3("  modified     ", y.as_str(), "-");
                    let l2 = concat3(l1.as_str(), mo.as_str(), "-");
                    push_line(out, concat(l2.as_str(), d.as_str()));
                    push_line(out, concat("  year         ", y.as_str()));
                    push_line(out, concat("  month        ", mo.as_str()));
                    push_line(out, concat("  day          ", d.as_str()));
                },
                None => push_str(out, "  unavailable"),
            }
            push_str(out, "");
            push_str(out, "Template");
            let t = opt_text(&e.template);
            push_line(out, concat("  ", t.as_str()));
            assert(lines_view(out@) =~= b + explain_evidence(*e));
        },
        _ => {
            push_str(out, "Template");
            let t = opt_text(&e.template);
            push_line(out, concat("  ", t.as_str()));
            assert(lines_view(out@) =~= b + explain_evidence(*e));
        },
    }
    assert(lines_view(out@) =~= b + explain_evidence(*e));
}

fn explain_tail_lines(e: &Explanation, color: bool, out: &mut Vec<String>)
    ensures
        lines_view(final(out)@) == lines_view(old(out)@) + explain_tail(*e, color),
{
    let ghost b = lines_view(out@);
    push_str(out, "");
    push_str(out, "Destination");
    let d = opt_text(&e.destination);
    push_line(out, concat("  ", d.as_str()));
    push_str(out, "");
    push_str(out, "Decision");
    push_line(out, concat("  ", op_upper_name(e.op)));
    push_line(out, concat("  ", e.reason.as_str()));
    push_str(out, "");
    push_str(out, "Safety");
    let ghost mid = lines_view(out@);
    let mut i: usize = 0;
    assert(e.checks@.subrange(0, 0).map_values(|c: SafetyCheck| check_line(c, color)) =~= Seq::<Seq<char>>::empty());
    while i < e.checks.len()
        invariant
            i <= e.checks@.len(),
            lines_view(out@) == mid + e.checks@.subrange(0, i as int).map_values(|c: SafetyCheck| check_line(c, color)),
        decreases e.checks@.len() - i,
    {
        let c = &e.checks[i];
        let mark = if c.ok {
            colorize("✓", "32", color)
        } else {
            colorize("✗", "31", color)
        };
        let head = concat3("  ", mark.as_str(), " ");
        let line = match &c.detail {
            Some(det) => {
                let h2 = concat3(head.as_str(), c.label, " — ");
                concat(h2.as_str(), det.as_str())
            },
            None => concat(head.as_str(), c.label),
        };
        push_line(out, line);
        assert(e.checks@.subrange(0, i + 1).map_values(|c: SafetyCheck| check_line(c, color)) =~= e.checks@.subrange(
            0,
            i as int,
        ).map_values(|c: SafetyCheck| check_line(c, color)).push(check_line(e.checks@[i as int], color)));
        i += 1;
    }
    assert(e.checks@.subrange(0, e.checks@.len() as int) =~= e.checks@);
    push_str(out, "");
    push_str(out, "No changes were made.");
    assert(lines_view(out@) =~= b + explain_tail(*e, color));
}

/// The `explain` report as lines to print; `color` turns on the marks'
/// terminal colors.
pub fn explain_lines(e: &Explanation, color: bool) -> (r: Vec<String>)
    ensures
        lines_view(r@) == explain_text(*e, color),
{
    let mut out: Vec<String> = Vec::new();
    assert(lines_view(out@) =~= Seq::<Seq<char>>::empty());
    explain_head_lines(e, &mut out);
    explain_rule_lines(e, &mut out);
    explain_evidence_lines(e, &mut out);
    explain_tail_lines(e, color, &mut out);
    assert(lines_view(out@) =~= explain_text(*e, color));
    out
}

// ------------------------------------------------------------ config check

/// `str::lines`: split at `\n`; a `\r` just before a `\n` is dropped; a
/// final line ending adds no empty line.
pub open spec fn text_lines(s: Seq<char>) -> Seq<Seq<char>>
    decreases s.len(),
{
    if s.len() == 0 {
        Seq::empty()
    } else {
        match crate::metadata::index_of_char(s, '\n') {
            None => seq![s],
            Some(i) => if 0 <= i < s.len() {
                let line = if i > 0 && s[i - 1] == '\r' {
                    s.subrange(0, i - 1)
                } else {
                    s.subrange(0, i)
                };
                seq![line] + text_lines(s.subrange(i + 1, s.len() as int))
            } else {
                seq![s]
            },
        }
    }
}

pub(crate) fn push_text_lines(out: &mut Vec<String>, text: &str)
    ensures
        lines_view(final(out)@) == lines_view(old(out)@) + text_lines(text@).map_values(
            |l: Seq<char>| "  "@ + l,
        ),
{
    let v = chars_of(text);
    let ghost b = lines_view(out@);
    let mut start: usize = 0;
    let mut i: usize = 0;
    assert(v@.subrange(0, v@.len() as int) =~= v@);
    assert(b + Seq::<Seq<char>>::empty() =~= b);
    while i < v.len()
        invariant
            start <= i <= v@.len(),
            v@ == text@,
            forall|k: int| start <= k < i ==> v@[k] != '\n',
            lines_view(out@) + text_lines(v@.subrange(start as int, v@.len() as int)).map_values(
                |l: Seq<char>| "  "@ + l,
            ) == b + text_lines(text@).map_values(|l: Seq<char>| "  "@ + l),
        decreases v@.len() - i,
    {
        if v[i] == '\n' {
            let ghost rest = v@.subrange(start as int, v@.len() as int);
            proof {
                assert(rest[i - start] == '\n');
                assert forall|k: int| 0 <= k < i - start implies rest[k] != '\n' by {
                    assert(rest[k] == v@[start + k]);
                }
                crate::metadata::lemma_index_unique_pub(rest, '\n', i - start);
                assert(rest.subrange(i - start + 1, rest.len() as int) =~= v@.subrange(i + 1, v@.len() as int));
            }
            let end = if i > start && v[i - 1] == '\r' {
                i - 1
            } else {
                i
            };
            proof {
                if i > start && v@[i - 1] == '\r' {
                    assert(rest[i - start - 1] == '\r');
                    assert(rest.subrange(0, i - start - 1) =~= v@.subrange(start as int, (i - 1) as int));
                } else {
                    assert(rest.subrange(0, i - start) =~= v@.subrange(start as int, i as int));
                }
            }
            let line = string_of(&v, start, end);
            let ghost before = lines_view(out@);
            push_line(out, concat("  ", line.as_str()));
            proof {
                let tail = text_lines(v@.subrange(i + 1, v@.len() as int));
                assert(text_lines(rest) == seq![line@] + tail);
                assert((seq![line@] + tail).map_values(|l: Seq<char>| "  "@ + l) =~= seq!["  "@ + line@]
                    + tail.map_values(|l: Seq<char>| "  "@ + l));
                assert(lines_view(out@) =~= before.push("  "@ + line@));
                assert(before.push("  "@ + line@) + tail.map_values(|l: Seq<char>| "  "@ + l) =~= before + (
                seq!["  "@ + line@] + tail.map_values(|l: Seq<char>| "  "@ + l)));
            }
            start = i + 1;
        }
        i += 1;
    }
    if start < v.len() {
        let ghost rest = v@.subrange(start as int, v@.len() as int);
        proof {
            assert forall|k: int| 0 <= k < rest.len() implies rest[k] != '\n' by {
                assert(rest[k] == v@[start + k]);
            }
            crate::metadata::lemma_index_none_pub(rest, '\n');
            assert(text_lines(rest) == seq![rest]);
        }
        let line = string_of(&v, start, v.len());
        let ghost before = lines_view(out@);
        push_line(out, concat("  ", line.as_str()));
        assert(seq![rest].map_values(|l: Seq<char>| "  "@ + l) =~= seq!["  "@ + rest]);
        assert(lines_view(out@) =~= before + seq!["  "@ + rest]);
    } else {
        assert(v@.subrange(start as int, v@.len() as int).len() == 0);
        assert(text_lines(v@.subrange(start as int, v@.len() as int)).map_values(|l: Seq<char>| "  "@ + l)
            =~= Seq::<Seq<char>>::empty());
        assert(lines_view(out@) + Seq::<Seq<char>>::empty() =~= lines_view(out@));
    }
}

/// The `config check` report for a directory's resolved policy.
pub open spec fn config_check_text(path: Seq<char>, result: Result<EffectivePolicy, String>, color: bool) -> Seq<Seq<char>> {
    seq!["Sift config"@, path, ""@] + match result {
        Ok(p) => seq![
            colorize_spec("✓"@, "32"@, color) + " Configuration valid"@,
            ""@,
            "Source"@,
            "  "@ + policy_source_text(p.source),
            ""@,
            "Version"@,
            "  "@ + dec_signed_padded(p.version as int, 0),
            ""@,
            "Organization"@,
            "  strategy     "@ + strategy_name(p.strategy),
        ] + match p.strategy {
            OrganizeStrategy::Type => seq!["  unknown      "@ + unknown_name(p.unknown_policy)],
            OrganizeStrategy::Date => seq![
                "  date source  "@ + "modified"@,
                "  template     "@ + p.template.unwrap()@.raw,
            ],
            _ => seq!["  template     "@ + p.metadata_template.unwrap()@.raw],
        } + seq![
            ""@,
            "Watch"@,
            "  stability    "@ + dec_padded((p.stability / 1000) as nat, 0) + "s"@,
            ""@,
            "Rules"@,
            "  "@ + dec_padded(p.rules@.len(), 0),
        ],
        Err(e) => seq![colorize_spec("✗"@, "31"@, color) + " Invalid configuration"@, ""@] + text_lines(e@).map_values(
            |l: Seq<char>| "  "@ + l,
        ),
    } + seq![""@, "No filesystem changes were made."@]
}

/// The `config check` report, line by line.
pub fn config_check_lines(path: &str, result: &Result<EffectivePolicy, String>, color: bool) -> (r: Vec<String>)
    requires
        *result matches Ok(p) ==> policy_wf(p),
    ensures
        lines_view(r@) == config_check_text(path@, *result, color),
{
    let mut out: Vec<String> = Vec::new();
    assert(lines_view(out@) =~= Seq::<Seq<char>>::empty());
    push_str(&mut out, "Sift config");
    push_str(&mut out, path);
    push_str(&mut out, "");
    let ghost head = lines_view(out@);
    match result {
        Ok(p) => {
            let mark = colorize("✓", "32", color);
            push_line(&mut out, concat(mark.as_str(), " Configuration valid"));
            push_str(&mut out, "");
            push_str(&mut out, "Source");
            let d = p.source.describe();
            push_line(&mut out, concat("  ", d.as_str()));
            push_str(&mut out, "");
            push_str(&mut out, "Version");
            let v = fmt_i64(p.version, 0);
            push_line(&mut out, concat("  ", v.as_str()));
            push_str(&mut out, "");
            push_str(&mut out, "Organization");
            push_line(&mut out, concat("  strategy     ", p.strategy.as_str()));
            let ghost s1 = lines_view(out@);
            assert(s1 =~= head + seq![
                colorize_spec("✓"@, "32"@, color) + " Configuration valid"@,
                ""@,
                "Source"@,
                "  "@ + policy_source_text(p.source),
                ""@,
                "Version"@,
                "  "@ + dec_signed_padded(p.version as int, 0),
                ""@,
                "Organization"@,
                "  strategy     "@ + strategy_name(p.strategy),
            ]);
            match p.strategy {
                OrganizeStrategy::Type => {
                    push_line(&mut out, concat("  unknown      ", p.unknown_policy.as_str()));
                },
                OrganizeStrategy::Date => {
                    match (&p.date_source, &p.template) {
                        (Some(ds), Some(t)) => {
                            push_line(&mut out, concat("  date source  ", ds.as_str()));
                            push_line(&mut out, concat("  template     ", t.raw()));
                        },
                        _ => {},
                    }
                },
                _ => {
                    match &p.metadata_template {
                        Some(t) => {
                            push_line(&mut out, concat("  template     ", t.raw()));
                        },
                        None => {},
                    }
                },
            }
            let ghost s2 = lines_view(out@);
            assert(s2 =~= s1 + match p.strategy {
                OrganizeStrategy::Type => seq!["  unknown      "@ + unknown_name(p.unknown_policy)],
                OrganizeStrategy::Date => seq![
                    "  date source  "@ + "modified"@,
                    "  template     "@ + p.template.unwrap()@.raw,
                ],
                _ => seq!["  template     "@ + p.metadata_template.unwrap()@.raw],
            });
            push_str(&mut out, "");
            push_str(&mut out, "Watch");
            let s = fmt_u64(p.stability / 1000, 0);
            let st = concat("  stability    ", s.as_str());
            push_line(&mut out, concat(st.as_str(), "s"));
            push_str(&mut out, "");
            push_str(&mut out, "Rules");
            let n = fmt_u64(p.rules.len() as u64, 0);
            push_line(&mut out, concat("  ", n.as_str()));
            proof {
                let mid: Seq<Seq<char>> = match p.strategy {
                    OrganizeStrategy::Type => seq!["  unknown      "@ + unknown_name(p.unknown_policy)],
                    OrganizeStrategy::Date => seq![
                        "  date source  "@ + "modified"@,
                        "  template     "@ + p.template.unwrap()@.raw,
                    ],
                    _ => seq!["  template     "@ + p.metadata_template.unwrap()@.raw],
                };
                assert(lines_view(out@) =~= head + seq![
                    colorize_spec("✓"@, "32"@, color) + " Configuration valid"@,
                    ""@,
                    "Source"@,
                    "  "@ + policy_source_text(p.source),
                    ""@,
                    "Version"@,
                    "  "@ + dec_signed_padded(p.version as int, 0),
                    ""@,
                    "Organization"@,
                    "  strategy     "@ + strategy_name(p.strategy),
                ] + mid + seq![
                    ""@,
                    "Watch"@,
                    "  stability    "@ + dec_padded((p.stability / 1000) as nat, 0) + "s"@,
                    ""@,
                    "Rules"@,
                    "  "@ + dec_padded(p.rules@.len(), 0),
                ]);
            }
        },
        Err(e) => {
            let mark = colorize("✗", "31", color);
            push_line(&mut out, concat(mark.as_str(), " Invalid configuration"));
            push_str(&mut out, "");
            push_text_lines(&mut out, e.as_str());
        },
    }
    push_str(&mut out, "");
    push_str(&mut out, "No filesystem changes were made.");
    assert(lines_view(out@) =~= config_check_text(path@, *result, color));
    out
}

// ------------------------------------------------------------ apply results

pub open spec fn count_op(v: Seq<ActionResult>, op: Op) -> nat
    decreases v.len(),
{
    if v.len() == 0 {
        0
    } else {
        count_op(v.drop_last(), op) + if v.last().op == op {
            1nat
        } else {
            0nat
        }
    }
}

pub open spec fn count_failed(v: Seq<ActionResult>) -> nat
    decreases v.len(),
{
    if v.len() == 0 {
        0
    } else {
        count_failed(v.drop_last()) + if v.last().result is Err {
            1nat
        } else {
            0nat
        }
    }
}

pub open spec fn any_undoable(v: Seq<ActionResult>) -> bool {
    exists|i: int| 0 <= i < v.len() && (#[trigger] v[i]).undoable
}

/// `n` with `"y"` or `"ies"`: "1 directory", "2 directories".
pub open spec fn y_ies(n: nat) -> Seq<char> {
    if n == 1 {
        "y"@
    } else {
        "ies"@
    }
}

pub open spec fn plural_spec(n: nat) -> Seq<char> {
    if n == 1 {
        ""@
    } else {
        "s"@
    }
}

/// The failure lines: `"  <src>  <error>"` for each failed outcome.
pub open spec fn failure_lines(v: Seq<ActionResult>) -> Seq<Seq<char>>
    decreases v.len(),
{
    if v.len() == 0 {
        Seq::empty()
    } else {
        failure_lines(v.drop_last()) + match v.last().result {
            Err(e) => seq!["  "@ + v.last().src@ + "  "@ + e@],
            Ok(_) => Seq::empty(),
        }
    }
}

/// The duplicate-collision lines of the first `m` (action, outcome) pairs.
pub open spec fn dup_lines_upto(actions: Seq<Action>, outcomes: Seq<ActionResult>, m: int) -> Seq<Seq<char>>
    decreases m,
{
    if m <= 0 {
        Seq::empty()
    } else {
        dup_lines_upto(actions, outcomes, m - 1) + dup_tail(actions[m - 1], outcomes[m - 1])
    }
}

/// The duplicate-collision lines of an applied plan: each such action with
/// its reason, or why execution refused it (actions and outcomes paired in
/// order).
pub open spec fn dup_warning_lines(actions: Seq<Action>, outcomes: Seq<ActionResult>) -> Seq<Seq<char>> {
    dup_lines_upto(
        actions,
        outcomes,
        if actions.len() < outcomes.len() {
            actions.len() as int
        } else {
            outcomes.len() as int
        },
    )
}


pub open spec fn apply_head(outcomes: Seq<ActionResult>, color: bool) -> Seq<Seq<char>> {
    let failed = count_failed(outcomes);
    seq![
        if failed == 0 {
            colorize_spec("✓"@, "32"@, color) + " Applied successfully"@
        } else {
            colorize_spec("⚠"@, "33"@, color) + " Applied with "@ + dec(failed) + " failure"@ + plural_spec(failed)
        },
        ""@,
    ]
}

pub open spec fn apply_counts(outcomes: Seq<ActionResult>) -> Seq<Seq<char>> {
    let failed = count_failed(outcomes);
    let moved = count_ok_spec(outcomes, Op::Move);
    let created = count_ok_spec(outcomes, Op::CreateDir);
    let trashed = count_ok_spec(outcomes, Op::Trash);
    let skipped = count_op(outcomes, Op::Skip);
    (if count_op(outcomes, Op::Move) > 0 {
        seq!["  "@ + dec(moved) + " file"@ + plural_spec(moved) + " moved"@]
    } else {
        Seq::empty()
    }) + (if count_op(outcomes, Op::CreateDir) > 0 {
        seq!["  "@ + dec(created) + " director"@ + y_ies(created) + " created"@]
    } else {
        Seq::empty()
    }) + (if count_op(outcomes, Op::Trash) > 0 {
        seq!["  "@ + dec(trashed) + " file"@ + plural_spec(trashed) + " trashed"@]
    } else {
        Seq::empty()
    }) + seq![
        "  "@ + dec(skipped) + " entr"@ + y_ies(skipped) + " skipped"@,
        "  "@ + dec(failed) + " failure"@ + plural_spec(failed),
    ]
}

pub open spec fn apply_tail(actions: Seq<Action>, outcomes: Seq<ActionResult>, hist_id: Seq<char>, color: bool) -> Seq<Seq<char>> {
    apply_failures(outcomes) + apply_warnings(actions, outcomes, color) + apply_history(outcomes, hist_id)
}

/// What an applied organize or clean reports (after its two header lines).
pub open spec fn apply_outcome_text(actions: Seq<Action>, outcomes: Seq<ActionResult>, hist_id: Seq<char>, color: bool) -> Seq<Seq<char>> {
    apply_head(outcomes, color) + apply_counts(outcomes) + apply_tail(actions, outcomes, hist_id, color)
}

pub(crate) fn count_of_op(outcomes: &[ActionResult], op: Op) -> (r: usize)
    ensures
        r == count_op(outcomes@, op),
        r <= outcomes@.len(),
{
    let mut n: usize = 0;
    let mut i: usize = 0;
    while i < outcomes.len()
        invariant
            i <= outcomes@.len(),
            n == count_op(outcomes@.subrange(0, i as int), op),
            n <= i,
        decreases outcomes@.len() - i,
    {
        assert(outcomes@.subrange(0, i + 1).drop_last() =~= outcomes@.subrange(0, i as int));
        if outcomes[i].op == op {
            n += 1;
        }
        i += 1;
    }
    assert(outcomes@.subrange(0, outcomes@.len() as int) =~= outcomes@);
    n
}

pub(crate) fn count_failures(outcomes: &[ActionResult]) -> (r: usize)
    ensures
        r == count_failed(outcomes@),
        r <= outcomes@.len(),
{
    let mut n: usize = 0;
    let mut i: usize = 0;
    while i < outcomes.len()
        invariant
            i <= outcomes@.len(),
            n == count_failed(outcomes@.subrange(0, i as int)),
            n <= i,
        decreases outcomes@.len() - i,
    {
        assert(outcomes@.subrange(0, i + 1).drop_last() =~= outcomes@.subrange(0, i as int));
        if outcomes[i].result.is_err() {
            n += 1;
        }
        i += 1;
    }
    assert(outcomes@.subrange(0, outcomes@.len() as int) =~= outcomes@);
    n
}

pub(crate) fn dec_text(n: usize) -> (r: String)
    ensures
        r@ == dec(n as nat),
{
    fmt_u64(n as u64, 0)
}

pub(crate) fn y_ies_text(n: usize) -> (r: &'static str)
    ensures
        r@ == y_ies(n as nat),
{
    if n == 1 {
        "y"
    } else {
        "ies"
    }
}

pub(crate) fn count_line(out: &mut Vec<String>, n: usize, noun: &str, suffix: &str, tail: &str)
    ensures
        lines_view(final(out)@) == lines_view(old(out)@).push("  "@ + dec(n as nat) + noun@ + suffix@ + tail@),
{
    let d = dec_text(n);
    let a = concat3("  ", d.as_str(), noun);
    let b = concat3(a.as_str(), suffix, tail);
    push_line(out, b);
}

pub(crate) fn add_failure_lines(out: &mut Vec<String>, outcomes: &[ActionResult])
    ensures
        lines_view(final(out)@) == lines_view(old(out)@) + failure_lines(outcomes@),
{
    let ghost b = lines_view(out@);
    let mut i: usize = 0;
    assert(failure_lines(outcomes@.subrange(0, 0)) =~= Seq::<Seq<char>>::empty());
    assert(b + Seq::<Seq<char>>::empty() =~= b);
    while i < outcomes.len()
        invariant
            i <= outcomes@.len(),
            lines_view(out@) == b + failure_lines(outcomes@.subrange(0, i as int)),
        decreases outcomes@.len() - i,
    {
        assert(outcomes@.subrange(0, i + 1).drop_last() =~= outcomes@.subrange(0, i as int));
        assert(outcomes@.subrange(0, i + 1).last() == outcomes@[i as int]);
        let ghost before = lines_view(out@);
        match &outcomes[i].result {
            Err(e) => {
                let a = concat3("  ", outcomes[i].src.as_str(), "  ");
                push_line(out, concat(a.as_str(), e.as_str()));
            },
            Ok(_) => {},
        }
        assert(lines_view(out@) =~= b + failure_lines(outcomes@.subrange(0, i + 1)));
        i += 1;
    }
    assert(outcomes@.subrange(0, outcomes@.len() as int) =~= outcomes@);
}

fn add_dup_warning_lines(out: &mut Vec<String>, actions: &[Action], outcomes: &[ActionResult])
    ensures
        lines_view(final(out)@) == lines_view(old(out)@) + dup_warning_lines(actions@, outcomes@),
{
    let ghost b = lines_view(out@);
    let n = if actions.len() < outcomes.len() {
        actions.len()
    } else {
        outcomes.len()
    };
    let mut i: usize = 0;
    assert(b + Seq::<Seq<char>>::empty() =~= b);
    while i < n
        invariant
            i <= n,
            n <= actions@.len(),
            n <= outcomes@.len(),
            lines_view(out@) == b + dup_lines_upto(actions@, outcomes@, i as int),
        decreases n - i,
    {
        let a = &actions[i];
        let ghost before = lines_view(out@);
        match &a.reason {
            Some(r) => {
                if is_duplicate_collision_reason(r.as_str()) {
                    push_line(out, concat("  ", a.src.as_str()));
                    match &outcomes[i].result {
                        Ok(_) => push_line(out, concat("    ", r.as_str())),
                        Err(e) => push_line(out, concat("    refused — ", e.as_str())),
                    }
                }
            },
            None => {},
        }
        assert(lines_view(out@) =~= before + dup_tail(actions@[i as int], outcomes@[i as int]));
        assert(lines_view(out@) =~= b + dup_lines_upto(actions@, outcomes@, i + 1));
        i += 1;
    }
}

pub open spec fn dup_tail(a: Action, o: ActionResult) -> Seq<Seq<char>> {
    match a.reason {
        Some(r) => if duplicate_collision_spec(r@) {
            seq![
                "  "@ + a.src@,
                match o.result {
                    Ok(_) => "    "@ + r@,
                    Err(e) => "    refused — "@ + e@,
                },
            ]
        } else {
            Seq::empty()
        },
        None => Seq::empty(),
    }
}

pub(crate) fn any_undoable_exec(outcomes: &[ActionResult]) -> (r: bool)
    ensures
        r == any_undoable(outcomes@),
{
    let mut i: usize = 0;
    while i < outcomes.len()
        invariant
            i <= outcomes@.len(),
            forall|k: int| 0 <= k < i ==> !(#[trigger] outcomes@[k]).undoable,
        decreases outcomes@.len() - i,
    {
        if outcomes[i].undoable {
            assert(outcomes@[i as int].undoable);
            return true;
        }
        i += 1;
    }
    false
}

fn add_apply_counts(out: &mut Vec<String>, outcomes: &[ActionResult])
    ensures
        lines_view(final(out)@) == lines_view(old(out)@) + apply_counts(outcomes@),
{
    let failed = count_failures(outcomes);
    let moved = count_ok(outcomes, Op::Move);
    let created = count_ok(outcomes, Op::CreateDir);
    let trashed = count_ok(outcomes, Op::Trash);
    let skipped = count_of_op(outcomes, Op::Skip);
    let ghost s0 = lines_view(out@);
    if count_of_op(outcomes, Op::Move) > 0 {
        count_line(out, moved, " file", plural(moved), " moved");
    }
    let ghost s1 = lines_view(out@);
    if count_of_op(outcomes, Op::CreateDir) > 0 {
        count_line(out, created, " director", y_ies_text(created), " created");
    }
    let ghost s2 = lines_view(out@);
    if count_of_op(outcomes, Op::Trash) > 0 {
        count_line(out, trashed, " file", plural(trashed), " trashed");
    }
    let ghost s3 = lines_view(out@);
    count_line(out, skipped, " entr", y_ies_text(skipped), " skipped");
    let d = dec_text(failed);
    let a = concat3("  ", d.as_str(), " failure");
    push_line(out, concat(a.as_str(), plural(failed)));
    assert(lines_view(out@) =~= s0 + apply_counts(outcomes@));
}

pub open spec fn apply_failures(outcomes: Seq<ActionResult>) -> Seq<Seq<char>> {
    if count_failed(outcomes) > 0 {
        seq![""@, "Failures"@] + failure_lines(outcomes)
    } else {
        Seq::empty()
    }
}

pub open spec fn apply_warnings(actions: Seq<Action>, outcomes: Seq<ActionResult>, color: bool) -> Seq<Seq<char>> {
    let warn = dup_warning_lines(actions, outcomes);
    if warn.len() > 0 {
        seq![
            ""@,
            colorize_spec("⚠"@, "33"@, color) + " Duplicate name"@ + plural_spec(warn.len() / 2)
                + " handled automatically"@,
        ] + warn
    } else {
        Seq::empty()
    }
}

pub open spec fn apply_history(outcomes: Seq<ActionResult>, hist_id: Seq<char>) -> Seq<Seq<char>> {
    seq![""@, "History"@, "  "@ + hist_id] + (if any_undoable(outcomes) {
        seq![""@, "Undo"@, "  sift undo "@ + hist_id]
    } else {
        Seq::empty()
    })
}

pub(crate) fn add_apply_failures(out: &mut Vec<String>, outcomes: &[ActionResult])
    ensures
        lines_view(final(out)@) == lines_view(old(out)@) + apply_failures(outcomes@),
{
    let ghost s = lines_view(out@);
    if count_failures(outcomes) > 0 {
        push_str(out, "");
        push_str(out, "Failures");
        add_failure_lines(out, outcomes);
        assert(lines_view(out@) =~= s + apply_failures(outcomes@));
    } else {
        assert(lines_view(out@) =~= s + apply_failures(outcomes@));
    }
}

fn add_apply_warnings(out: &mut Vec<String>, actions: &[Action], outcomes: &[ActionResult], color: bool)
    ensures
        lines_view(final(out)@) == lines_view(old(out)@) + apply_warnings(actions@, outcomes@, color),
{
    let ghost s = lines_view(out@);
    let mut warn: Vec<String> = Vec::new();
    assert(lines_view(warn@) =~= Seq::<Seq<char>>::empty());
    add_dup_warning_lines(&mut warn, actions, outcomes);
    let ghost wv = lines_view(warn@);
    if warn.len() > 0 {
        push_str(out, "");
        let m = colorize("⚠", "33", color);
        let a = concat3(m.as_str(), " Duplicate name", plural(warn.len() / 2));
        push_line(out, concat(a.as_str(), " handled automatically"));
        let ghost w0 = lines_view(out@);
        let mut k: usize = 0;
        while k < warn.len()
            invariant
                k <= warn@.len(),
                wv == lines_view(warn@),
                lines_view(out@) == w0 + wv.subrange(0, k as int),
            decreases warn@.len() - k,
        {
            push_line(out, warn[k].clone());
            assert(wv.subrange(0, k + 1) =~= wv.subrange(0, k as int).push(warn@[k as int]@));
            k += 1;
        }
        assert(wv.subrange(0, wv.len() as int) =~= wv);
        assert(lines_view(out@) =~= s + apply_warnings(actions@, outcomes@, color));
    } else {
        assert(lines_view(out@) =~= s + apply_warnings(actions@, outcomes@, color));
    }
}

fn add_apply_history(out: &mut Vec<String>, outcomes: &[ActionResult], hist_id: &str)
    ensures
        lines_view(final(out)@) == lines_view(old(out)@) + apply_history(outcomes@, hist_id@),
{
    let ghost s = lines_view(out@);
    push_str(out, "");
    push_str(out, "History");
    push_line(out, concat("  ", hist_id));
    if any_undoable_exec(outcomes) {
        push_str(out, "");
        push_str(out, "Undo");
        push_line(out, concat("  sift undo ", hist_id));
    }
    assert(lines_view(out@) =~= s + apply_history(outcomes@, hist_id@));
}

fn add_apply_tail(out: &mut Vec<String>, actions: &[Action], outcomes: &[ActionResult], hist_id: &str, color: bool)
    ensures
        lines_view(final(out)@) == lines_view(old(out)@) + apply_tail(actions@, outcomes@, hist_id@, color),
{
    let ghost s = lines_view(out@);
    add_apply_failures(out, outcomes);
    add_apply_warnings(out, actions, outcomes, color);
    add_apply_history(out, outcomes, hist_id);
    assert(lines_view(out@) =~= s + apply_tail(actions@, outcomes@, hist_id@, color));
}

/// What an applied organize or clean reports, line by line (after its
/// title and path).
pub(crate) fn add_apply_head(out: &mut Vec<String>, outcomes: &[ActionResult], color: bool)
    ensures
        lines_view(final(out)@) == lines_view(old(out)@) + apply_head(outcomes@, color),
{
    let ghost base = lines_view(out@);
    let failed = count_failures(outcomes);
    if failed == 0 {
        let m = colorize("✓", "32", color);
        push_line(out, concat(m.as_str(), " Applied successfully"));
    } else {
        let m = colorize("⚠", "33", color);
        let d = dec_text(failed);
        let a = concat3(m.as_str(), " Applied with ", d.as_str());
        push_line(out, concat3(a.as_str(), " failure", plural(failed)));
    }
    push_str(out, "");
    assert(lines_view(out@) =~= base + apply_head(outcomes@, color));
}

pub fn apply_outcome_lines(actions: &[Action], outcomes: &[ActionResult], hist_id: &str, color: bool) -> (r: Vec<String>)
    ensures
        lines_view(r@) == apply_outcome_text(actions@, outcomes@, hist_id@, color),
{
    let mut out: Vec<String> = Vec::new();
    assert(lines_view(out@) =~= Seq::<Seq<char>>::empty());
    add_apply_head(&mut out, outcomes, color);
    assert(lines_view(out@) =~= apply_head(outcomes@, color));
    add_apply_counts(&mut out, outcomes);
    add_apply_tail(&mut out, actions, outcomes, hist_id, color);
    assert(lines_view(out@) =~= apply_outcome_text(actions@, outcomes@, hist_id@, color));
    out
}

} // verus!
