//! `explain`: a read-only, single-file report of exactly what organize
//! would do to one file and why, under the effective policy of a root.
//! It reuses the planner's own decision and observations; there is no
//! second classifier here, only a more granular report of the same one.
use vstd::prelude::*;
use crate::classifier::CategoryDB;
use crate::config::{
    by_priority,
    policy_wf,
    rules_by_priority,
    DateMetadata,
    EffectivePolicy,
    OrganizeStrategy,
    PolicySource,
    UnknownPolicy,
};
use crate::domain::{Category, Entry, Op};
use crate::path::{
    components,
    file_name,
    join,
    path_components,
    push_all,
    comps_view,
    comp_string,
    path_file_name,
    path_join,
};
use crate::planner::{
    classify_for_date,
    classify_for_organize,
    date_decision,
    destination_levels,
    destination_levels_spec,
    dir_status_at,
    extends,
    kind_at,
    organize_decision,
    opt_view,
    decision_view,
    Decision,
    DecisionCause,
    DirStatus,
    FsSnapshot,
    PathKind,
    Query,
};
use crate::text::{concat};

verus! {

/// One line of the safety report.
#[derive(Debug)]
pub struct SafetyCheck {
    pub label: &'static str,
    pub ok: bool,
    pub detail: Option<String>,
}

/// What organize would do to one file, and why.
#[derive(Debug)]
pub struct Explanation {
    pub file: String,
    pub root: String,
    pub source: PolicySource,
    pub strategy: OrganizeStrategy,
    /// The raw `organize.template`, for `strategy = "date"`.
    pub template: Option<String>,
    /// `(pattern, action, destination)` of the rule that decided.
    pub matched_rule: Option<(String, String, Option<String>)>,
    /// The classifier's category, when the type strategy decided.
    pub classification: Option<Category>,
    /// Set when `organize.unknown` is what decided.
    pub unknown_fallback: Option<UnknownPolicy>,
    /// Set when the date strategy decided.
    pub date_metadata: Option<DateMetadata>,
    pub op: Op,
    pub reason: String,
    pub destination: Option<String>,
    pub checks: Vec<SafetyCheck>,
}

/// The decision `policy`'s strategy makes for `e` under `root`.
pub open spec fn strategy_decision(
    snap: FsSnapshot,
    e: Entry,
    root: Seq<char>,
    p: EffectivePolicy,
    table: Seq<(Seq<char>, Category)>,
) -> Decision<Seq<char>> {
    match p.strategy {
        OrganizeStrategy::Type => organize_decision(
            snap,
            e,
            root,
            by_priority(p.rules@),
            table,
            p.unknown_policy,
        ),
        OrganizeStrategy::Date => date_decision(
            snap,
            e,
            root,
            by_priority(p.rules@),
            p.template.unwrap()@,
        ),
        _ => crate::meta_plan::meta_decision(
            snap,
            e,
            root,
            by_priority(p.rules@),
            p.metadata_template.unwrap()@,
        ),
    }
}

pub open spec fn decision_cause(d: Decision<Seq<char>>) -> DecisionCause<Seq<char>> {
    match d {
        Decision::Skip(_, c) => c,
        Decision::Trash(_, c) => c,
        Decision::Move { cause, .. } => cause,
    }
}

/// What the decision's cause tells about the matched rule.
pub open spec fn cause_rule(c: DecisionCause<Seq<char>>) -> Option<(Seq<char>, Seq<char>, Option<Seq<char>>)> {
    match c {
        DecisionCause::Rule { pattern, action, destination } => Some((pattern, action, destination)),
        _ => None,
    }
}

/// What the decision's cause tells about the classification.
pub open spec fn cause_category(c: DecisionCause<Seq<char>>) -> Option<Category> {
    match c {
        DecisionCause::BuiltinJunk => Some(Category::Junk),
        DecisionCause::Classified(cat) => Some(cat),
        DecisionCause::UnknownFallback(_) => Some(Category::Other),
        _ => None,
    }
}

pub open spec fn cause_unknown(c: DecisionCause<Seq<char>>) -> Option<UnknownPolicy> {
    match c {
        DecisionCause::UnknownFallback(u) => Some(u),
        _ => None,
    }
}

pub open spec fn cause_date(c: DecisionCause<Seq<char>>) -> Option<DateMetadata> {
    match c {
        DecisionCause::DateMatched(d) => Some(d),
        _ => None,
    }
}

/// The ancestors of `p` from its parent upward, as `Path::parent` walks
/// them (the bare root or the empty path last).
pub open spec fn ancestors_of(p: Seq<char>) -> Seq<Seq<char>> {
    let c = components(p);
    Seq::new(
        if c.len() >= 2 {
            (c.len() - 1) as nat
        } else {
            0
        },
        |i: int| push_all(Seq::empty(), c.subrange(0, c.len() - 1 - i)),
    )
}

/// Every existing ancestor, up to the first missing one, is a real
/// directory (an unobserved one counts as unsafe).
pub open spec fn ancestors_safe_from(snap: FsSnapshot, anc: Seq<Seq<char>>) -> bool
    decreases anc.len(),
{
    if anc.len() == 0 {
        true
    } else {
        match kind_at(snap.kinds@, anc[0]) {
            Some(PathKind::Dir) => ancestors_safe_from(snap, anc.drop_first()),
            Some(PathKind::Absent) => true,
            _ => false,
        }
    }
}

pub open spec fn ancestors_are_safe_spec(snap: FsSnapshot, p: Seq<char>) -> bool {
    ancestors_safe_from(snap, ancestors_of(p))
}

/// Whether something (anything, or something unobserved) occupies `p`.
pub open spec fn occupied(snap: FsSnapshot, p: Seq<char>) -> bool {
    match kind_at(snap.kinds@, p) {
        Some(PathKind::Absent) => false,
        _ => true,
    }
}

/// Whether any level between `root` and `dest_dir` is blocked.
pub open spec fn any_level_blocked(snap: FsSnapshot, root: Seq<char>, dest_dir: Seq<char>) -> bool {
    match destination_levels_spec(root, dest_dir) {
        Some(levels) => exists|i: int|
            0 <= i < levels.len() && dir_status_at(snap, #[trigger] levels[i]) == DirStatus::Blocked,
        None => false,
    }
}

/// The final operation, reason and destination once the destination has
/// been checked.
pub open spec fn explained_outcome(
    snap: FsSnapshot,
    file: Seq<char>,
    root: Seq<char>,
    d: Decision<Seq<char>>,
) -> (Op, Seq<char>, Option<Seq<char>>) {
    match d {
        Decision::Skip(r, _) => (Op::Skip, r, None),
        Decision::Trash(r, _) => (Op::Trash, r, None),
        Decision::Move { dest_dir, reason, cause: _ } => match file_name(file) {
            None => (Op::Skip, "entry has no file name"@, None),
            Some(f) => {
                let dest = join(dest_dir, f);
                if any_level_blocked(snap, root, dest_dir) || occupied(snap, dest) {
                    (Op::Skip, "collision"@, None)
                } else if !ancestors_are_safe_spec(snap, dest) {
                    (Op::Skip, "unsafe destination ancestor"@, None)
                } else {
                    (Op::Move, reason, Some(dest))
                }
            },
        },
    }
}

fn lookup_kind_pub(snap: &FsSnapshot, p: &str, asked: &mut Vec<Query>) -> (r: Option<PathKind>)
    ensures
        r == kind_at(snap.kinds@, p@),
        extends(old(asked)@, final(asked)@),
{
    crate::planner::observed_kind(snap, p, asked)
}

/// Whether every existing ancestor of `p` is a real directory.
pub fn ancestors_are_safe(snap: &FsSnapshot, p: &str, asked: &mut Vec<Query>) -> (r: bool)
    ensures
        r == ancestors_are_safe_spec(*snap, p@),
        extends(old(asked)@, final(asked)@),
{
    let c = path_components(p);
    let ghost cv = comps_view(c@);
    let ghost anc = ancestors_of(p@);
    if c.len() < 2 {
        assert(anc.len() == 0);
        return true;
    }
    let n = c.len();
    let mut i: usize = 0;
    assert(anc.subrange(0, anc.len() as int) =~= anc);
    while i < n - 1
        invariant
            cv == comps_view(c@),
            cv == components(p@),
            n == c@.len(),
            n >= 2,
            anc == ancestors_of(p@),
            anc.len() == n - 1,
            i <= n - 1,
            ancestors_safe_from(*snap, anc) == ancestors_safe_from(
                *snap,
                anc.subrange(i as int, anc.len() as int),
            ),
            extends(old(asked)@, asked@),
        decreases n - 1 - i,
    {
        let ghost rest = anc.subrange(i as int, anc.len() as int);
        assert(rest.drop_first() =~= anc.subrange(i + 1, anc.len() as int));
        let end = n - 1 - i;
        let mut path = String::new();
        let mut k: usize = 0;
        while k < end
            invariant
                k <= end,
                end <= c@.len(),
                cv == comps_view(c@),
                path@ == push_all(Seq::empty(), cv.subrange(0, k as int)),
            decreases end - k,
        {
            assert(cv.subrange(0, k + 1).drop_last() =~= cv.subrange(0, k as int));
            assert(cv.subrange(0, k + 1).last() == crate::path::comp_view(c@[k as int]));
            let part = comp_string(&c[k]);
            path = path_join(path.as_str(), part.as_str());
            k += 1;
        }
        assert(rest[0] == anc[i as int]);
        assert(path@ == anc[i as int]);
        match lookup_kind_pub(snap, path.as_str(), asked) {
            Some(PathKind::Dir) => {},
            Some(PathKind::Absent) => {
                return true;
            },
            _ => {
                return false;
            },
        }
        i += 1;
    }
    true
}

pub open spec fn check_view(c: SafetyCheck) -> (Seq<char>, bool, Option<Seq<char>>) {
    (c.label@, c.ok, opt_view(c.detail))
}

pub open spec fn checks_view(v: Seq<SafetyCheck>) -> Seq<(Seq<char>, bool, Option<Seq<char>>)> {
    v.map_values(|c: SafetyCheck| check_view(c))
}

/// The safety report `explain` gives for `e` and its decision.
pub open spec fn checks_spec(
    snap: FsSnapshot,
    e: Entry,
    file: Seq<char>,
    root: Seq<char>,
    d: Decision<Seq<char>>,
) -> Seq<(Seq<char>, bool, Option<Seq<char>>)> {
    let c = decision_cause(d);
    let base = seq![
        (
            "regular file"@,
            !e.is_dir && !e.is_symlink,
            if e.is_dir {
                Some("is a directory"@)
            } else if e.is_symlink {
                Some("is a symlink"@)
            } else {
                None
            },
        ),
        (
            "not protected"@,
            !(c is Protected),
            match c {
                DecisionCause::Protected(r) => Some(r),
                _ => None,
            },
        ),
    ];
    let with_date = match c {
        DecisionCause::DateUnavailable(m) => base.push(("date metadata available"@, false, Some(m))),
        DecisionCause::MetadataUnavailable(m) => base.push(("metadata available"@, false, Some(m))),
        _ => base,
    };
    match d {
        Decision::Move { dest_dir, .. } => match file_name(file) {
            None => with_date.push(
                ("destination available"@, false, Some("entry has no file name"@)),
            ),
            Some(f) => {
                let dest = join(dest_dir, f);
                let blocked = any_level_blocked(snap, root, dest_dir);
                let collision = occupied(snap, dest);
                with_date + seq![
                    (
                        "destination available"@,
                        !blocked,
                        if blocked {
                            Some("destination category exists but is not a directory"@)
                        } else {
                            None
                        },
                    ),
                    ("no symlink ancestor"@, ancestors_are_safe_spec(snap, dest), None),
                    (
                        "no collision"@,
                        !collision,
                        if collision {
                            Some(dest + " already exists"@)
                        } else {
                            None
                        },
                    ),
                ]
            },
        },
        _ => with_date,
    }
}

fn any_blocked(snap: &FsSnapshot, root: &str, dest_dir: &str, asked: &mut Vec<Query>) -> (r: bool)
    ensures
        r == any_level_blocked(*snap, root@, dest_dir@),
        extends(old(asked)@, final(asked)@),
{
    let levels = match destination_levels(root, dest_dir) {
        Some(l) => l,
        None => {
            return false;
        },
    };
    let ghost ls = crate::path::strings_view(levels@);
    let mut blocked = false;
    let mut i: usize = 0;
    while i < levels.len()
        invariant
            i <= levels@.len(),
            ls == crate::path::strings_view(levels@),
            destination_levels_spec(root@, dest_dir@) == Some(ls),
            blocked == exists|j: int| 0 <= j < i && dir_status_at(*snap, #[trigger] ls[j]) == DirStatus::Blocked,
            extends(old(asked)@, asked@),
        decreases levels@.len() - i,
    {
        let st = crate::planner::dir_status(snap, levels[i].as_str(), asked);
        assert(ls[i as int] == levels@[i as int]@);
        if st == DirStatus::Blocked {
            blocked = true;
        }
        proof {
            if !blocked {
                assert forall|j: int| 0 <= j < i + 1 implies dir_status_at(*snap, #[trigger] ls[j]) != DirStatus::Blocked by {
                    if j == i {
                    }
                }
            }
        }
        i += 1;
    }
    blocked
}

fn cause_of(d: &Decision<String>) -> (r: &DecisionCause<String>)
    ensures
        crate::planner::cause_view(*r) == decision_cause(decision_view(*d)),
{
    match d {
        Decision::Skip(_, c) => c,
        Decision::Trash(_, c) => c,
        Decision::Move { cause, .. } => cause,
    }
}

pub open spec fn rule_view(r: Option<(String, String, Option<String>)>) -> Option<(Seq<char>, Seq<char>, Option<Seq<char>>)> {
    match r {
        Some((p, a, d)) => Some((p@, a@, opt_view(d))),
        None => None,
    }
}

/// Reports, read-only, what organize would do to `file` under `policy`
/// (the resolved policy of `root`); `entry` is `file`'s own description,
/// `None` when it does not exist.
#[verifier::spinoff_prover]
#[verifier::rlimit(60)]
pub fn explain_path(
    file: &str,
    root: &str,
    policy: &EffectivePolicy,
    entry: Option<&Entry>,
    builtin: &CategoryDB,
    snap: &FsSnapshot,
    asked: &mut Vec<Query>,
) -> (r: Result<Explanation, String>)
    requires
        policy_wf(*policy),
    ensures
        match entry {
            None => r matches Err(m) && m@ == file@ + ": no such file"@,
            Some(e) => r matches Ok(x) && {
                let d = strategy_decision(*snap, *e, root@, *policy, builtin@);
                let c = decision_cause(d);
                &&& x.file@ == file@
                &&& x.root@ == root@
                &&& x.source == policy.source
                &&& x.strategy == policy.strategy
                &&& opt_view(x.template) == match policy.template {
                    Some(t) => Some(t@.raw),
                    None => match policy.metadata_template {
                        Some(m) => Some(m@.raw),
                        None => None,
                    },
                }
                &&& rule_view(x.matched_rule) == cause_rule(c)
                &&& x.classification == cause_category(c)
                &&& x.unknown_fallback == cause_unknown(c)
                &&& x.date_metadata == cause_date(c)
                &&& (x.op, x.reason@, opt_view(x.destination)) == explained_outcome(
                    *snap,
                    file@,
                    root@,
                    d,
                )
                &&& checks_view(x.checks@) == checks_spec(*snap, *e, file@, root@, d)
            },
        },
        extends(old(asked)@, final(asked)@),
{
    let e = match entry {
        Some(e) => e,
        None => {
            return Err(concat(file, ": no such file"));
        },
    };
    let rules = rules_by_priority(policy.rules.as_slice());
    let decision = match policy.strategy {
        OrganizeStrategy::Type => classify_for_organize(
            snap,
            e,
            root,
            &rules,
            builtin,
            policy.unknown_policy,
            asked,
        ),
        OrganizeStrategy::Date => {
            let t = policy.template.as_ref().unwrap();
            let ds = policy.date_source.unwrap();
            classify_for_date(snap, e, root, &rules, t, ds, asked)
        },
        _ => {
            let t = policy.metadata_template.as_ref().unwrap();
            crate::meta_plan::classify_for_metadata(snap, e, root, &rules, t, asked)
        },
    };
    let ghost d = decision_view(decision);
    let cause = cause_of(&decision);
    let matched_rule = match cause {
        DecisionCause::Rule { pattern, action, destination } => Some(
            (pattern.clone(), action.clone(), crate::domain::clone_opt_string(destination)),
        ),
        _ => None,
    };
    let classification = match cause {
        DecisionCause::BuiltinJunk => Some(Category::Junk),
        DecisionCause::Classified(cat) => Some(*cat),
        DecisionCause::UnknownFallback(_) => Some(Category::Other),
        _ => None,
    };
    let unknown_fallback = match cause {
        DecisionCause::UnknownFallback(u) => Some(*u),
        _ => None,
    };
    let date_metadata = match cause {
        DecisionCause::DateMatched(dm) => Some(*dm),
        _ => None,
    };
    let mut checks: Vec<SafetyCheck> = Vec::new();
    checks.push(
        SafetyCheck {
            label: "regular file",
            ok: !e.is_dir && !e.is_symlink,
            detail: if e.is_dir {
                Some("is a directory".to_owned())
            } else if e.is_symlink {
                Some("is a symlink".to_owned())
            } else {
                None
            },
        },
    );
    let is_protected = match cause {
        DecisionCause::Protected(_) => true,
        _ => false,
    };
    checks.push(
        SafetyCheck {
            label: "not protected",
            ok: !is_protected,
            detail: match cause {
                DecisionCause::Protected(r) => Some(r.clone()),
                _ => None,
            },
        },
    );
    match cause {
        DecisionCause::DateUnavailable(m) => {
            checks.push(
                SafetyCheck { label: "date metadata available", ok: false, detail: Some(m.clone()) },
            );
        },
        DecisionCause::MetadataUnavailable(m) => {
            checks.push(SafetyCheck { label: "metadata available", ok: false, detail: Some(m.clone()) });
        },
        _ => {},
    }
    let ghost before_move = checks_view(checks@);
    let (op, reason, destination) = match &decision {
        Decision::Skip(r, _) => (Op::Skip, r.clone(), None),
        Decision::Trash(r, _) => (Op::Trash, r.clone(), None),
        Decision::Move { dest_dir, reason, cause: _ } => match path_file_name(file) {
            None => {
                checks.push(
                    SafetyCheck {
                        label: "destination available",
                        ok: false,
                        detail: Some("entry has no file name".to_owned()),
                    },
                );
                (Op::Skip, "entry has no file name".to_owned(), None)
            },
            Some(f) => {
                let dest = path_join(dest_dir.as_str(), f.as_str());
                let blocked = any_blocked(snap, root, dest_dir.as_str(), asked);
                let collision = match crate::planner::observed_kind(snap, dest.as_str(), asked) {
                    Some(PathKind::Absent) => false,
                    _ => true,
                };
                let safe_ancestors = ancestors_are_safe(snap, dest.as_str(), asked);
                checks.push(
                    SafetyCheck {
                        label: "destination available",
                        ok: !blocked,
                        detail: if blocked {
                            Some("destination category exists but is not a directory".to_owned())
                        } else {
                            None
                        },
                    },
                );
                checks.push(SafetyCheck { label: "no symlink ancestor", ok: safe_ancestors, detail: None });
                checks.push(
                    SafetyCheck {
                        label: "no collision",
                        ok: !collision,
                        detail: if collision {
                            Some(concat(dest.as_str(), " already exists"))
                        } else {
                            None
                        },
                    },
                );
                if blocked || collision {
                    (Op::Skip, "collision".to_owned(), None)
                } else if !safe_ancestors {
                    (Op::Skip, "unsafe destination ancestor".to_owned(), None)
                } else {
                    (Op::Move, reason.clone(), Some(dest))
                }
            },
        },
    };
    let template = match &policy.template {
        Some(t) => Some(t.raw().to_owned()),
        None => match &policy.metadata_template {
            Some(m) => Some(m.raw().to_owned()),
            None => None,
        },
    };
    let x = Explanation {
        file: file.to_owned(),
        root: root.to_owned(),
        source: policy.source.clone(),
        strategy: policy.strategy,
        template,
        matched_rule,
        classification,
        unknown_fallback,
        date_metadata,
        op,
        reason,
        destination,
        checks,
    };
    proof {
        let ghost cs = checks_spec(*snap, *e, file@, root@, d);
        assert(checks_view(x.checks@) =~= cs);
    }
    Ok(x)
}

} // verus!
