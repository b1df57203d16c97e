//! `folders`: analyzing a directory's immediate child folders and safely
//! suggesting moves of whole folders into the category directories, from
//! the types of the files they contain. A folder is never dismantled: its
//! whole subtree moves in one `MoveDir` action, or not at all.
use vstd::prelude::*;
use crate::classifier::{classification, CategoryDB};
use crate::domain::{Action, Category, Entry, Op, Plan};
use crate::path::{
    chars_order,
    file_name,
    same_path,
    insert_path_sorted,
    insert_sorted,
    join,
    path_file_name,
    path_join,
    strings_view,
    Order3,
};
use crate::planner::{
    action_view,
    actions_view,
    skip_view,
    trash_view,
    dest_file_at,
    DestinationFileStatus,
    builtin_dest_spec,
    builtin_destination,
    create_dir_view,
    createdir_actions,
    dir_status,
    dir_status_at,
    extends,
    kind_at,
    lemma_asked_seq,
    listing_at,
    listing_index,
    DirStatus,
    observed_kind,
    ActionView,
    FsSnapshot,
    PathKind,
    Query,
};
use crate::scanner::{
    file_name_or_empty,
    is_build_output_dir,
    is_build_output_name,
    is_category_name,
    is_sift_category_dir,
    name_or_empty,
};
use crate::text::{
    chars_of,
    concat,
    ends_with,
    lower_seq,
    str_trim,
    string_of,
    string_of_all,
    to_lower,
    trim_end_chars,
    trim_end_seq,
    trim_seq,
};

verus! {

/// Bounds that keep profiling any tree finite; hitting one marks the
/// profile truncated, which can never upgrade a decision to a move.
pub const MAX_PROFILE_FILES: usize = 5000;
pub const MAX_PROFILE_DEPTH: usize = 8;

/// What a candidate folder holds, from metadata only.
#[derive(Debug)]
pub struct FolderProfile {
    /// Eligible regular files per specific category (each category once).
    pub category_counts: Vec<(Category, usize)>,
    /// Eligible files of no specific category (junk, other, ...).
    pub other_count: usize,
    /// A software project root lies inside.
    pub contains_project: bool,
    /// A profiling bound was hit; the profile may be incomplete.
    pub truncated: bool,
    /// The folder had at least one entry.
    pub saw_any_entry: bool,
}

pub open spec fn counts_sum(c: Seq<(Category, usize)>) -> nat
    decreases c.len(),
{
    if c.len() == 0 {
        0
    } else {
        counts_sum(c.drop_last()) + (c.last().1 as nat)
    }
}

pub open spec fn is_max_count(c: Seq<(Category, usize)>, n: usize) -> bool {
    forall|i: int| 0 <= i < c.len() ==> (#[trigger] c[i]).1 <= n
}

impl FolderProfile {
    /// Every eligible file counted.
    pub fn total_eligible(&self) -> (r: usize)
        requires
            counts_sum(self.category_counts@) + self.other_count <= usize::MAX,
        ensures
            r == counts_sum(self.category_counts@) + self.other_count,
    {
        let mut sum: usize = 0;
        let mut i: usize = 0;
        while i < self.category_counts.len()
            invariant
                i <= self.category_counts@.len(),
                sum == counts_sum(self.category_counts@.subrange(0, i as int)),
                counts_sum(self.category_counts@) + self.other_count <= usize::MAX,
            decreases self.category_counts@.len() - i,
        {
            assert(self.category_counts@.subrange(0, i + 1).drop_last() =~= self.category_counts@.subrange(0, i as int));
            proof {
                lemma_counts_prefix(self.category_counts@, i as int + 1);
            }
            sum = sum + self.category_counts[i].1;
            i += 1;
        }
        assert(self.category_counts@.subrange(0, i as int) =~= self.category_counts@);
        sum + self.other_count
    }

    /// A category with the largest count (`None` when there is none).
    pub fn dominant(&self) -> (r: Option<(Category, usize)>)
        ensures
            r == dominant_spec(self.category_counts@),
            match r {
                Some((c, n)) => self.category_counts@.contains((c, n)) && is_max_count(self.category_counts@, n),
                None => self.category_counts@.len() == 0,
            },
    {
        proof {
            lemma_dominant(self.category_counts@);
        }
        if self.category_counts.len() == 0 {
            return None;
        }
        let mut best = self.category_counts[0];
        let mut i: usize = 1;
        assert(self.category_counts@[0] == best);
        assert(self.category_counts@.subrange(0, 1).drop_last() =~= Seq::<(Category, usize)>::empty());
        assert(self.category_counts@.subrange(0, 1).last() == best);
        assert(dominant_spec(Seq::<(Category, usize)>::empty()) is None);
        assert(dominant_spec(self.category_counts@.subrange(0, 1)) == Some(best));
        while i < self.category_counts.len()
            invariant
                1 <= i <= self.category_counts@.len(),
                dominant_spec(self.category_counts@.subrange(0, i as int)) == Some(best),
                self.category_counts@.contains(best),
                forall|k: int| 0 <= k < i ==> (#[trigger] self.category_counts@[k]).1 <= best.1,
            decreases self.category_counts@.len() - i,
        {
            assert(self.category_counts@.subrange(0, i + 1).drop_last() =~= self.category_counts@.subrange(0, i as int));
            if self.category_counts[i].1 >= best.1 {
                best = self.category_counts[i];
                assert(self.category_counts@[i as int] == best);
            }
            i += 1;
        }
        assert(self.category_counts@.subrange(0, i as int) =~= self.category_counts@);
        Some(best)
    }
}

/// The dominant category: the last one whose count is at least that of
/// every earlier one.
pub open spec fn dominant_spec(c: Seq<(Category, usize)>) -> Option<(Category, usize)>
    decreases c.len(),
{
    if c.len() == 0 {
        None
    } else {
        match dominant_spec(c.drop_last()) {
            None => Some(c.last()),
            Some(b) => if c.last().1 >= b.1 {
                Some(c.last())
            } else {
                Some(b)
            },
        }
    }
}

pub proof fn lemma_dominant(c: Seq<(Category, usize)>)
    ensures
        match dominant_spec(c) {
            Some((k, n)) => c.contains((k, n)) && is_max_count(c, n),
            None => c.len() == 0,
        },
    decreases c.len(),
{
    if c.len() > 0 {
        lemma_dominant(c.drop_last());
        let p = c.drop_last();
        match dominant_spec(p) {
            Some(b) => {
                let w = choose|w: int| 0 <= w < p.len() && p[w] == b;
                assert(c[w] == b);
                assert(c[c.len() - 1] == c.last());
                assert forall|i: int| 0 <= i < c.len() implies (#[trigger] c[i]).1 <= dominant_spec(c).unwrap().1 by {
                    if i < c.len() - 1 {
                        assert(p[i] == c[i]);
                    }
                }
            },
            None => {
                assert(c[c.len() - 1] == c.last());
            },
        }
    }
}

proof fn lemma_counts_prefix(c: Seq<(Category, usize)>, k: int)
    requires
        0 <= k <= c.len(),
    ensures
        counts_sum(c.subrange(0, k)) <= counts_sum(c),
    decreases c.len() - k,
{
    if k < c.len() {
        lemma_counts_prefix(c, k + 1);
        assert(c.subrange(0, k + 1).drop_last() =~= c.subrange(0, k));
    } else {
        assert(c.subrange(0, k) =~= c);
    }
}

/// The outcome of analyzing one candidate folder. Confidence is the share
/// `count / total` of the dominant category among the eligible files.
#[derive(Debug, Clone, Copy)]
pub enum Decision {
    /// High confidence; eligible for `--apply`.
    Move { category: Category, count: usize, total: usize },
    /// A move that could not be planned safely: reported, never executed.
    MoveRefused { category: Category, count: usize, total: usize, reason: &'static str },
    /// Medium confidence, or a move held back: reported only.
    Suggest { category: Category, count: usize, total: usize, reason: &'static str },
    /// Insufficient, mixed, empty or unknown evidence: nothing happens.
    Leave { reason: &'static str },
    /// A safety boundary: never moved.
    Protect { reason: &'static str },
}

impl Decision {
    pub fn category(&self) -> (r: Option<Category>)
        ensures
            r == match *self {
                Decision::Move { category, .. } => Some(category),
                Decision::MoveRefused { category, .. } => Some(category),
                Decision::Suggest { category, .. } => Some(category),
                _ => None,
            },
    {
        match self {
            Decision::Move { category, .. } => Some(*category),
            Decision::MoveRefused { category, .. } => Some(*category),
            Decision::Suggest { category, .. } => Some(*category),
            _ => None,
        }
    }

    /// The confidence as `(count, total)`.
    pub fn confidence(&self) -> (r: Option<(usize, usize)>)
        ensures
            r == match *self {
                Decision::Move { count, total, .. } => Some((count, total)),
                Decision::MoveRefused { count, total, .. } => Some((count, total)),
                Decision::Suggest { count, total, .. } => Some((count, total)),
                _ => None,
            },
    {
        match self {
            Decision::Move { count, total, .. } => Some((*count, *total)),
            Decision::MoveRefused { count, total, .. } => Some((*count, *total)),
            Decision::Suggest { count, total, .. } => Some((*count, *total)),
            _ => None,
        }
    }

    pub fn label(&self) -> (r: &'static str)
        ensures
            r@ == match *self {
                Decision::Move { .. } => "move"@,
                Decision::MoveRefused { .. } => "move_refused"@,
                Decision::Suggest { .. } => "suggest"@,
                Decision::Leave { .. } => "leave"@,
                Decision::Protect { .. } => "protect"@,
            },
    {
        match self {
            Decision::Move { .. } => "move",
            Decision::MoveRefused { .. } => "move_refused",
            Decision::Suggest { .. } => "suggest",
            Decision::Leave { .. } => "leave",
            Decision::Protect { .. } => "protect",
        }
    }

    pub fn reason(&self) -> (r: Option<&'static str>)
        ensures
            r == match *self {
                Decision::MoveRefused { reason, .. } => Some(reason),
                Decision::Suggest { reason, .. } => Some(reason),
                Decision::Leave { reason } => Some(reason),
                Decision::Protect { reason } => Some(reason),
                Decision::Move { .. } => None,
            },
    {
        match self {
            Decision::MoveRefused { reason, .. } => Some(*reason),
            Decision::Suggest { reason, .. } => Some(*reason),
            Decision::Leave { reason } => Some(*reason),
            Decision::Protect { reason } => Some(*reason),
            Decision::Move { .. } => None,
        }
    }
}

/// At least 80% of the evidence (`count / total >= 0.80`).
pub open spec fn high_confidence(count: int, total: int) -> bool {
    5 * count >= 4 * total
}

/// At least 60% of the evidence.
pub open spec fn medium_confidence(count: int, total: int) -> bool {
    5 * count >= 3 * total
}

/// The scoring model: a folder's own name is never evidence, only the
/// classified contents of the files inside it.
pub open spec fn decide_spec(
    total: usize,
    dominant: Option<(Category, usize)>,
    contains_project: bool,
    saw_any_entry: bool,
    truncated: bool,
    is_project_root: bool,
    hidden: bool,
) -> Decision {
    if hidden {
        Decision::Protect { reason: "hidden directory" }
    } else if is_project_root {
        Decision::Protect { reason: "software project" }
    } else if contains_project {
        Decision::Protect { reason: "contains software project" }
    } else if total == 0 {
        Decision::Leave {
            reason: if saw_any_entry {
                "insufficient evidence"
            } else {
                "empty folder"
            },
        }
    } else {
        match dominant {
            None => Decision::Leave { reason: "unknown content" },
            Some((category, count)) => if total == 1 {
                Decision::Suggest { category, count, total, reason: "only one evidence file" }
            } else if high_confidence(count as int, total as int) && !truncated {
                Decision::Move { category, count, total }
            } else if high_confidence(count as int, total as int) {
                Decision::Suggest { category, count, total, reason: "profile truncated" }
            } else if medium_confidence(count as int, total as int) {
                Decision::Suggest { category, count, total, reason: "medium confidence" }
            } else {
                Decision::Leave { reason: "mixed content" }
            },
        }
    }
}

pub fn decide(profile: &FolderProfile, is_project_root: bool, hidden: bool) -> (r: Decision)
    requires
        counts_sum(profile.category_counts@) + profile.other_count <= usize::MAX,
    ensures
        r == decide_spec(
            (counts_sum(profile.category_counts@) + profile.other_count) as usize,
            dominant_spec(profile.category_counts@),
            profile.contains_project,
            profile.saw_any_entry,
            profile.truncated,
            is_project_root,
            hidden,
        ),
{
    let d = profile.dominant();
    let total = profile.total_eligible();
    if hidden {
        return Decision::Protect { reason: "hidden directory" };
    }
    if is_project_root {
        return Decision::Protect { reason: "software project" };
    }
    if profile.contains_project {
        return Decision::Protect { reason: "contains software project" };
    }
    if total == 0 {
        return Decision::Leave {
            reason: if profile.saw_any_entry {
                "insufficient evidence"
            } else {
                "empty folder"
            },
        };
    }
    let (category, count) = match d {
        None => {
            return Decision::Leave { reason: "unknown content" };
        },
        Some(x) => x,
    };
    if total == 1 {
        return Decision::Suggest { category, count, total, reason: "only one evidence file" };
    }
    let c = count as u128;
    let t = total as u128;
    if 5 * c >= 4 * t && !profile.truncated {
        return Decision::Move { category, count, total };
    }
    if 5 * c >= 4 * t {
        return Decision::Suggest { category, count, total, reason: "profile truncated" };
    }
    if 5 * c >= 3 * t {
        return Decision::Suggest { category, count, total, reason: "medium confidence" };
    }
    Decision::Leave { reason: "mixed content" }
}

/// The destination directory of a folder move: the category's built-in
/// directory, but never `Other` (an uncertain folder is left alone).
pub open spec fn folder_dest_spec(cat: Category) -> Option<Seq<char>> {
    if cat == Category::Other {
        None
    } else {
        match builtin_dest_spec(cat) {
            Some((n, _)) => Some(n),
            None => None,
        }
    }
}

pub fn folder_destination_name(cat: Category) -> (r: Option<&'static str>)
    ensures
        crate::scanner::opt_str_view(r) == folder_dest_spec(cat),
{
    if cat == Category::Other {
        return None;
    }
    match builtin_destination(cat) {
        Some((name, _)) => Some(name),
        None => None,
    }
}

/// One planned duplicate-file removal: `remove` was verified
/// byte-for-byte identical to `keep`.
#[derive(Debug)]
pub struct DuplicateRemoval {
    pub keep: String,
    pub remove: String,
    pub size: u64,
}

/// Duplicate-file removals go first: files inside a folder are removed
/// before that folder may be moved whole.
pub fn combine_with_duplicate_removals(plan: Plan, dup_actions: Vec<Action>) -> (r: Plan)
    ensures
        r.actions@ == dup_actions@ + plan.actions@,
{
    let mut actions = dup_actions;
    let mut rest = plan.actions;
    actions.append(&mut rest);
    Plan { actions }
}

// ------------------------------------------------------ possible duplicates

pub open spec fn strip_suffix_spec(s: Seq<char>, suf: Seq<char>) -> Seq<char> {
    if ends_with(s, suf) {
        s.subrange(0, s.len() - suf.len())
    } else {
        s
    }
}

pub open spec fn numbered_suffixes() -> Seq<Seq<char>> {
    seq![" (1)"@, " (2)"@, " (3)"@, " (4)"@, " (5)"@, " (6)"@, " (7)"@, " (8)"@, " (9)"@]
}

pub open spec fn copy_suffixes() -> Seq<Seq<char>> {
    seq![
        " copy 2"@,
        " copy 3"@,
        " copy"@,
        "-copy"@,
        "_copy"@,
        " old"@,
        "-old"@,
        "_old"@,
        " backup"@,
        "-backup"@,
        "_backup"@,
    ]
}

/// Each suffix of `sufs`, in order, stripped once if present.
pub open spec fn strip_each(s: Seq<char>, sufs: Seq<Seq<char>>) -> Seq<char>
    decreases sufs.len(),
{
    if sufs.len() == 0 {
        s
    } else {
        strip_each(strip_suffix_spec(s, sufs[0]), sufs.drop_first())
    }
}

pub open spec fn norm_step(s: Seq<char>) -> Seq<char> {
    trim_end_seq(strip_each(strip_each(s, numbered_suffixes()), copy_suffixes()))
}

pub open spec fn is_prefix(t: Seq<char>, s: Seq<char>) -> bool {
    t.len() <= s.len() && s.subrange(0, t.len() as int) == t
}

pub proof fn lemma_strip_each_prefix(s: Seq<char>, sufs: Seq<Seq<char>>)
    ensures
        is_prefix(strip_each(s, sufs), s),
    decreases sufs.len(),
{
    if sufs.len() > 0 {
        let t = strip_suffix_spec(s, sufs[0]);
        lemma_strip_each_prefix(t, sufs.drop_first());
        let u = strip_each(t, sufs.drop_first());
        assert(is_prefix(t, s)) by {
            if ends_with(s, sufs[0]) {
                assert(s.subrange(0, t.len() as int) =~= t);
            } else {
                assert(s.subrange(0, s.len() as int) =~= s);
            }
        }
        assert(s.subrange(0, u.len() as int) =~= t.subrange(0, u.len() as int));
    } else {
        assert(s.subrange(0, s.len() as int) =~= s);
    }
}

pub proof fn lemma_trim_end_prefix(s: Seq<char>)
    ensures
        is_prefix(trim_end_seq(s), s),
    decreases s.len(),
{
    if s.len() > 0 && crate::text::is_white(s.last()) {
        lemma_trim_end_prefix(s.drop_last());
        let u = trim_end_seq(s.drop_last());
        assert(s.subrange(0, u.len() as int) =~= s.drop_last().subrange(0, u.len() as int));
    } else {
        assert(s.subrange(0, s.len() as int) =~= s);
    }
}

pub proof fn lemma_norm_step_prefix(s: Seq<char>)
    ensures
        is_prefix(norm_step(s), s),
{
    let a = strip_each(s, numbered_suffixes());
    let b = strip_each(a, copy_suffixes());
    lemma_strip_each_prefix(s, numbered_suffixes());
    lemma_strip_each_prefix(a, copy_suffixes());
    lemma_trim_end_prefix(b);
    let c = trim_end_seq(b);
    assert(s.subrange(0, c.len() as int) =~= b.subrange(0, c.len() as int)) by {
        assert(s.subrange(0, b.len() as int) =~= a.subrange(0, b.len() as int));
        assert(s.subrange(0, a.len() as int) == a);
    }
}

/// Stripping copy/number/backup markers until nothing changes.
pub open spec fn norm_loop(s: Seq<char>) -> Seq<char>
    decreases s.len(),
{
    let t = norm_step(s);
    if t == s {
        s
    } else {
        proof {
            lemma_norm_step_prefix(s);
            if t.len() == s.len() {
                assert(s.subrange(0, s.len() as int) =~= s);
            }
        }
        norm_loop(t)
    }
}

/// The key two folder names share when one looks like a copy of the
/// other: trimmed, ASCII-lowercased, markers stripped.
pub open spec fn dup_key(name: Seq<char>) -> Seq<char> {
    norm_loop(lower_seq(trim_seq(name)))
}

fn strip_suffix_str(s: String, suf: &str) -> (r: String)
    ensures
        r@ == strip_suffix_spec(s@, suf@),
{
    if crate::text::str_ends_with(s.as_str(), suf) {
        let v = chars_of(s.as_str());
        let w = chars_of(suf);
        string_of(&v, 0, v.len() - w.len())
    } else {
        s
    }
}

fn norm_step_exec(s: String) -> (r: String)
    ensures
        r@ == norm_step(s@),
{
    let nums = [" (1)", " (2)", " (3)", " (4)", " (5)", " (6)", " (7)", " (8)", " (9)"];
    let words = [
        " copy 2", " copy 3", " copy", "-copy", "_copy", " old", "-old", "_old", " backup",
        "-backup", "_backup",
    ];
    assert(nums@.map_values(|x: &str| x@) =~= numbered_suffixes());
    assert(words@.map_values(|x: &str| x@) =~= copy_suffixes());
    let a = strip_all(s, &nums);
    let b = strip_all(a, &words);
    let v = chars_of(b.as_str());
    let t = trim_end_chars(&v);
    string_of_all(&t)
}

fn strip_all(s: String, sufs: &[&str]) -> (r: String)
    ensures
        r@ == strip_each(s@, sufs@.map_values(|x: &str| x@)),
{
    let ghost all = sufs@.map_values(|x: &str| x@);
    let mut cur = s;
    let mut i: usize = 0;
    assert(all.subrange(0, all.len() as int) =~= all);
    while i < sufs.len()
        invariant
            i <= sufs@.len(),
            all == sufs@.map_values(|x: &str| x@),
            strip_each(s@, all) == strip_each(cur@, all.subrange(i as int, all.len() as int)),
        decreases sufs@.len() - i,
    {
        let ghost rest = all.subrange(i as int, all.len() as int);
        assert(rest.drop_first() =~= all.subrange(i + 1, all.len() as int));
        assert(rest[0] == sufs@[i as int]@);
        cur = strip_suffix_str(cur, sufs[i]);
        i += 1;
    }
    cur
}

pub fn normalize(name: &str) -> (r: String)
    ensures
        r@ == dup_key(name@),
{
    let t = str_trim(name);
    let mut s = to_lower(t.as_str());
    loop
        invariant
            dup_key(name@) == norm_loop(s@),
        decreases s@.len(),
    {
        let before = s.clone();
        let next = norm_step_exec(s);
        proof {
            lemma_norm_step_prefix(before@);
        }
        if crate::text::str_eq(next.as_str(), before.as_str()) {
            return before;
        }
        proof {
            if next@.len() == before@.len() {
                assert(before@.subrange(0, before@.len() as int) =~= before@);
            }
        }
        s = next;
    }
}

/// `String` order (byte order, i.e. code-point order).
pub open spec fn str_le(a: Seq<char>, b: Seq<char>) -> bool {
    chars_order(a, b) != Order3::Greater
}

/// Stable insertion of `x` into `s`.
pub open spec fn insert_str(s: Seq<Seq<char>>, x: Seq<char>) -> Seq<Seq<char>>
    decreases s.len(),
{
    if s.len() == 0 {
        seq![x]
    } else if str_le(s.last(), x) {
        s.push(x)
    } else {
        insert_str(s.drop_last(), x).push(s.last())
    }
}

/// `s` sorted ascending (a stable sort).
pub open spec fn sort_strs(s: Seq<Seq<char>>) -> Seq<Seq<char>>
    decreases s.len(),
{
    if s.len() == 0 {
        s
    } else {
        insert_str(sort_strs(s.drop_last()), s.last())
    }
}

fn str_compare(a: &str, b: &str) -> (r: Order3)
    ensures
        r == chars_order(a@, b@),
{
    let va = chars_of(a);
    let vb = chars_of(b);
    crate::path::chars_compare_pub(&va, &vb)
}

fn insert_str_exec(v: &mut Vec<String>, x: String)
    ensures
        strings_view(final(v)@) == insert_str(strings_view(old(v)@), x@),
    decreases old(v)@.len(),
{
    if v.len() == 0 {
        v.push(x);
        assert(strings_view(v@) =~= seq![x@]);
        return;
    }
    let last = v.len() - 1;
    let ghost before = strings_view(v@);
    assert(before.last() == v@[last as int]@);
    if str_compare(v[last].as_str(), x.as_str()) != Order3::Greater {
        v.push(x);
        assert(strings_view(v@) =~= before.push(x@));
        return;
    }
    let top = v.pop().unwrap();
    assert(strings_view(v@) =~= before.drop_last());
    insert_str_exec(v, x);
    let ghost mid = strings_view(v@);
    v.push(top);
    assert(strings_view(v@) =~= mid.push(top@));
}

pub fn sort_strings(v: &Vec<String>) -> (r: Vec<String>)
    ensures
        strings_view(r@) == sort_strs(strings_view(v@)),
{
    let ghost sv = strings_view(v@);
    let mut out: Vec<String> = Vec::new();
    let mut i: usize = 0;
    assert(strings_view(out@) =~= sort_strs(sv.subrange(0, 0)));
    while i < v.len()
        invariant
            i <= v@.len(),
            sv == strings_view(v@),
            strings_view(out@) == sort_strs(sv.subrange(0, i as int)),
        decreases v@.len() - i,
    {
        assert(sv.subrange(0, i + 1).drop_last() =~= sv.subrange(0, i as int));
        assert(sv.subrange(0, i + 1).last() == v@[i as int]@);
        insert_str_exec(&mut out, v[i].clone());
        i += 1;
    }
    assert(sv.subrange(0, v@.len() as int) =~= sv);
    out
}

/// `Vec<String>` order: lexicographic by element, a proper prefix first.
pub open spec fn group_order(a: Seq<Seq<char>>, b: Seq<Seq<char>>) -> Order3
    decreases a.len(),
{
    if a.len() == 0 {
        if b.len() == 0 {
            Order3::Equal
        } else {
            Order3::Less
        }
    } else if b.len() == 0 {
        Order3::Greater
    } else {
        match chars_order(a[0], b[0]) {
            Order3::Equal => group_order(a.drop_first(), b.drop_first()),
            o => o,
        }
    }
}

pub open spec fn insert_group(s: Seq<Seq<Seq<char>>>, x: Seq<Seq<char>>) -> Seq<Seq<Seq<char>>>
    decreases s.len(),
{
    if s.len() == 0 {
        seq![x]
    } else if group_order(s.last(), x) != Order3::Greater {
        s.push(x)
    } else {
        insert_group(s.drop_last(), x).push(s.last())
    }
}

pub open spec fn sort_groups(s: Seq<Seq<Seq<char>>>) -> Seq<Seq<Seq<char>>>
    decreases s.len(),
{
    if s.len() == 0 {
        s
    } else {
        insert_group(sort_groups(s.drop_last()), s.last())
    }
}

pub open spec fn groups_view(g: Seq<Vec<String>>) -> Seq<Seq<Seq<char>>> {
    g.map_values(|v: Vec<String>| strings_view(v@))
}

fn group_compare(a: &Vec<String>, b: &Vec<String>) -> (r: Order3)
    ensures
        r == group_order(strings_view(a@), strings_view(b@)),
{
    let ghost av = strings_view(a@);
    let ghost bv = strings_view(b@);
    let mut i: usize = 0;
    assert(av.subrange(0, av.len() as int) =~= av);
    assert(bv.subrange(0, bv.len() as int) =~= bv);
    while i < a.len() && i < b.len()
        invariant
            i <= a@.len(),
            i <= b@.len(),
            av == strings_view(a@),
            bv == strings_view(b@),
            group_order(av, bv) == group_order(
                av.subrange(i as int, av.len() as int),
                bv.subrange(i as int, bv.len() as int),
            ),
        decreases a@.len() - i,
    {
        let ghost x = av.subrange(i as int, av.len() as int);
        let ghost y = bv.subrange(i as int, bv.len() as int);
        assert(x.drop_first() =~= av.subrange(i + 1, av.len() as int));
        assert(y.drop_first() =~= bv.subrange(i + 1, bv.len() as int));
        assert(x[0] == a@[i as int]@ && y[0] == b@[i as int]@);
        match str_compare(a[i].as_str(), b[i].as_str()) {
            Order3::Equal => {},
            o => {
                return o;
            },
        }
        i += 1;
    }
    if i == a.len() {
        if i == b.len() {
            Order3::Equal
        } else {
            Order3::Less
        }
    } else {
        Order3::Greater
    }
}

fn insert_group_exec(v: &mut Vec<Vec<String>>, x: Vec<String>)
    ensures
        groups_view(final(v)@) == insert_group(groups_view(old(v)@), strings_view(x@)),
    decreases old(v)@.len(),
{
    if v.len() == 0 {
        v.push(x);
        assert(groups_view(v@) =~= seq![strings_view(x@)]);
        return;
    }
    let last = v.len() - 1;
    let ghost before = groups_view(v@);
    assert(before.last() == strings_view(v@[last as int]@));
    if group_compare(&v[last], &x) != Order3::Greater {
        let ghost xv = strings_view(x@);
        v.push(x);
        assert(groups_view(v@) =~= before.push(xv));
        return;
    }
    let top = v.pop().unwrap();
    assert(groups_view(v@) =~= before.drop_last());
    insert_group_exec(v, x);
    let ghost mid = groups_view(v@);
    let ghost tv = strings_view(top@);
    v.push(top);
    assert(groups_view(v@) =~= mid.push(tv));
}

/// The names whose key is `k`, in input order.
pub open spec fn names_with_key(names: Seq<Seq<char>>, k: Seq<char>) -> Seq<Seq<char>> {
    names.filter(key_pred(k))
}

/// The distinct keys of `names`, in order of first occurrence.
pub open spec fn distinct_keys(names: Seq<Seq<char>>) -> Seq<Seq<char>>
    decreases names.len(),
{
    if names.len() == 0 {
        Seq::empty()
    } else {
        let prev = distinct_keys(names.drop_last());
        let k = dup_key(names.last());
        if prev.contains(k) {
            prev
        } else {
            prev.push(k)
        }
    }
}

/// For each key, in first-occurrence order, the sorted names with it,
/// kept when two or more names share it.
pub open spec fn raw_groups(names: Seq<Seq<char>>) -> Seq<Seq<Seq<char>>> {
    distinct_keys(names).map_values(|k: Seq<char>| sort_strs(names_with_key(names, k))).filter(
        |g: Seq<Seq<char>>| g.len() > 1,
    )
}

/// Possible-duplicate folder groups: names that share a key, each group
/// sorted, groups sorted. Name-only, report-only.
pub open spec fn possible_duplicates_spec(names: Seq<Seq<char>>) -> Seq<Seq<Seq<char>>> {
    sort_groups(raw_groups(names))
}

pub open spec fn key_pred(k: Seq<char>) -> spec_fn(Seq<char>) -> bool {
    |n: Seq<char>| dup_key(n) == k
}

proof fn lemma_key_in_distinct(names: Seq<Seq<char>>, i: int)
    requires
        0 <= i < names.len(),
    ensures
        distinct_keys(names).contains(dup_key(names[i])),
    decreases names.len(),
{
    if i < names.len() - 1 {
        lemma_key_in_distinct(names.drop_last(), i);
        let prev = distinct_keys(names.drop_last());
        let w = choose|w: int| 0 <= w < prev.len() && prev[w] == dup_key(names[i]);
        if !prev.contains(dup_key(names.last())) {
            assert(prev.push(dup_key(names.last()))[w] == dup_key(names[i]));
        }
    } else {
        let prev = distinct_keys(names.drop_last());
        if !prev.contains(dup_key(names.last())) {
            assert(prev.push(dup_key(names.last()))[prev.len() as int] == dup_key(names[i]));
        }
    }
}

proof fn lemma_no_key_empty(names: Seq<Seq<char>>, k: Seq<char>)
    requires
        !distinct_keys(names).contains(k),
    ensures
        names.filter(key_pred(k)).len() == 0,
{
    assert forall|i: int| 0 <= i < names.len() implies !key_pred(k)(#[trigger] names[i]) by {
        lemma_key_in_distinct(names, i);
    }
    names.lemma_all_neg_filter_empty(key_pred(k));
}

proof fn lemma_sort_len(s: Seq<Seq<char>>)
    ensures
        sort_strs(s).len() == s.len(),
    decreases s.len(),
{
    if s.len() > 0 {
        lemma_sort_len(s.drop_last());
        lemma_insert_len(sort_strs(s.drop_last()), s.last());
    }
}

proof fn lemma_insert_len(s: Seq<Seq<char>>, x: Seq<char>)
    ensures
        insert_str(s, x).len() == s.len() + 1,
    decreases s.len(),
{
    if s.len() > 0 && !str_le(s.last(), x) {
        lemma_insert_len(s.drop_last(), x);
    }
}

fn find_key(keys: &Vec<String>, k: &str) -> (r: Option<usize>)
    ensures
        match r {
            Some(j) => j < keys@.len() && keys@[j as int]@ == k@,
            None => !strings_view(keys@).contains(k@),
        },
{
    let mut i: usize = 0;
    while i < keys.len()
        invariant
            i <= keys@.len(),
            forall|j: int| 0 <= j < i ==> keys@[j]@ != k@,
        decreases keys@.len() - i,
    {
        if crate::text::str_eq(keys[i].as_str(), k) {
            return Some(i);
        }
        i += 1;
    }
    proof {
        if strings_view(keys@).contains(k@) {
            let w = choose|w: int| 0 <= w < strings_view(keys@).len() && strings_view(keys@)[w] == k@;
            assert(keys@[w]@ == k@);
        }
    }
    None
}

/// Groups folder names that look like copies of each other (`(2)`,
/// `copy`, `old`, `backup`, ...), by name only; each group sorted, groups
/// sorted. A report-only hint: never merges or deletes anything.
pub fn detect_possible_duplicates(names: &Vec<String>) -> (r: Vec<Vec<String>>)
    ensures
        groups_view(r@) == possible_duplicates_spec(strings_view(names@)),
{
    let ghost nv = strings_view(names@);
    let mut keys: Vec<String> = Vec::new();
    let mut groups: Vec<Vec<String>> = Vec::new();
    let mut i: usize = 0;
    assert(strings_view(keys@) =~= distinct_keys(nv.subrange(0, 0)));
    while i < names.len()
        invariant
            i <= names@.len(),
            nv == strings_view(names@),
            strings_view(keys@) == distinct_keys(nv.subrange(0, i as int)),
            groups@.len() == keys@.len(),
            forall|j: int|
                0 <= j < groups@.len() ==> strings_view((#[trigger] groups@[j])@) == nv.subrange(
                    0,
                    i as int,
                ).filter(key_pred(keys@[j]@)),
        decreases names@.len() - i,
    {
        let ghost pre = nv.subrange(0, i as int);
        assert(nv.subrange(0, i + 1) =~= pre.push(nv[i as int]));
        assert(nv.subrange(0, i + 1).drop_last() =~= pre);
        assert(nv[i as int] == names@[i as int]@);
        let k = normalize(names[i].as_str());
        let ghost gv_before = groups@;
        match find_key(&keys, k.as_str()) {
            Some(j) => {
                assert(strings_view(keys@)[j as int] == k@);
                assert(strings_view(keys@).contains(k@));
                let mut g = groups.remove(j);
                let ghost g0 = strings_view(g@);
                g.push(names[i].clone());
                assert(strings_view(g@) =~= g0.push(nv[i as int]));
                groups.insert(j, g);
                proof {
                    assert forall|jj: int| 0 <= jj < groups@.len() implies strings_view((#[trigger] groups@[jj])@)
                        == nv.subrange(0, i + 1).filter(key_pred(keys@[jj]@)) by {
                        pre.lemma_filter_push(nv[i as int], key_pred(keys@[jj]@));
                        if jj != j {
                            assert(groups@[jj] == gv_before[jj]);
                            assert(keys@[jj]@ != k@) by {
                                lemma_distinct_keys_unique(pre, jj, j as int, keys@);
                            }
                        }
                    }
                }
            },
            None => {
                proof {
                    lemma_no_key_empty(pre, k@);
                    pre.lemma_filter_push(nv[i as int], key_pred(k@));
                    assert(pre.filter(key_pred(k@)) =~= Seq::<Seq<char>>::empty());
                }
                let ghost kb = strings_view(keys@);
                keys.push(k.clone());
                assert(strings_view(keys@) =~= kb.push(k@));
                let mut g: Vec<String> = Vec::new();
                g.push(names[i].clone());
                assert(strings_view(g@) =~= seq![nv[i as int]]);
                groups.push(g);
                proof {
                    assert forall|jj: int| 0 <= jj < groups@.len() implies strings_view((#[trigger] groups@[jj])@)
                        == nv.subrange(0, i + 1).filter(key_pred(keys@[jj]@)) by {
                        pre.lemma_filter_push(nv[i as int], key_pred(keys@[jj]@));
                        if jj < gv_before.len() {
                            assert(groups@[jj] == gv_before[jj]);
                            assert(keys@[jj]@ != k@) by {
                                assert(kb[jj] == keys@[jj]@);
                            }
                        }
                    }
                }
            },
        }
        i += 1;
    }
    assert(nv.subrange(0, names@.len() as int) =~= nv);
    // Sort each group; keep those of two or more names.
    let ghost dk = distinct_keys(nv);
    let ghost mapped = dk.map_values(|kk: Seq<char>| sort_strs(names_with_key(nv, kk)));
    let mut kept: Vec<Vec<String>> = Vec::new();
    let mut j: usize = 0;
    assert(mapped.subrange(0, 0).filter(|g: Seq<Seq<char>>| g.len() > 1) =~= Seq::<Seq<Seq<char>>>::empty()) by {
        reveal(Seq::filter);
    }
    while j < groups.len()
        invariant
            j <= groups@.len(),
            groups@.len() == keys@.len(),
            strings_view(keys@) == dk,
            mapped == dk.map_values(|kk: Seq<char>| sort_strs(names_with_key(nv, kk))),
            forall|jj: int| 0 <= jj < groups@.len() ==> strings_view((#[trigger] groups@[jj])@) == nv.filter(key_pred(keys@[jj]@)),
            groups_view(kept@) == mapped.subrange(0, j as int).filter(|g: Seq<Seq<char>>| g.len() > 1),
        decreases groups@.len() - j,
    {
        let sorted = sort_strings(&groups[j]);
        assert(mapped[j as int] == sort_strs(names_with_key(nv, dk[j as int])));
        assert(names_with_key(nv, dk[j as int]) =~= nv.filter(key_pred(keys@[j as int]@)));
        assert(strings_view(sorted@) == mapped[j as int]);
        proof {
            mapped.subrange(0, j as int).lemma_filter_push(mapped[j as int], |g: Seq<Seq<char>>| g.len() > 1);
            assert(mapped.subrange(0, j + 1) =~= mapped.subrange(0, j as int).push(mapped[j as int]));
        }
        if sorted.len() > 1 {
            let ghost kb = groups_view(kept@);
            let ghost sv = strings_view(sorted@);
            kept.push(sorted);
            assert(groups_view(kept@) =~= kb.push(sv));
        }
        j += 1;
    }
    assert(mapped.subrange(0, groups@.len() as int) =~= mapped);
    // Sort the groups.
    let ghost rg = raw_groups(nv);
    let mut out: Vec<Vec<String>> = Vec::new();
    let mut m: usize = 0;
    assert(groups_view(out@) =~= sort_groups(rg.subrange(0, 0)));
    while m < kept.len()
        invariant
            m <= kept@.len(),
            groups_view(kept@) == rg,
            groups_view(out@) == sort_groups(rg.subrange(0, m as int)),
        decreases kept@.len() - m,
    {
        assert(rg.subrange(0, m + 1).drop_last() =~= rg.subrange(0, m as int));
        assert(rg.subrange(0, m + 1).last() == strings_view(kept@[m as int]@));
        let g = clone_strings(&kept[m]);
        insert_group_exec(&mut out, g);
        m += 1;
    }
    assert(rg.subrange(0, kept@.len() as int) =~= rg);
    out
}

proof fn lemma_distinct_keys_unique(names: Seq<Seq<char>>, a: int, b: int, keys: Seq<String>)
    requires
        keys.map_values(|s: String| s@) == distinct_keys(names),
        0 <= a < keys.len(),
        0 <= b < keys.len(),
        a != b,
    ensures
        keys[a]@ != keys[b]@,
{
    lemma_distinct_keys_nodup(names);
    assert(keys.map_values(|s: String| s@)[a] == keys[a]@);
    assert(keys.map_values(|s: String| s@)[b] == keys[b]@);
}

proof fn lemma_distinct_keys_nodup(names: Seq<Seq<char>>)
    ensures
        distinct_keys(names).no_duplicates(),
    decreases names.len(),
{
    if names.len() > 0 {
        lemma_distinct_keys_nodup(names.drop_last());
        let prev = distinct_keys(names.drop_last());
        let k = dup_key(names.last());
        if !prev.contains(k) {
            let d = prev.push(k);
            assert forall|x: int, y: int| 0 <= x < y < d.len() implies d[x] != d[y] by {
                if y == prev.len() {
                    assert(d[x] == prev[x]);
                } else {
                    assert(d[x] == prev[x] && d[y] == prev[y]);
                }
            }
        }
    }
}

fn clone_strings(v: &Vec<String>) -> (r: Vec<String>)
    ensures
        strings_view(r@) == strings_view(v@),
{
    let mut out: Vec<String> = Vec::new();
    let mut i: usize = 0;
    while i < v.len()
        invariant
            i <= v@.len(),
            strings_view(out@) == strings_view(v@).subrange(0, i as int),
        decreases v@.len() - i,
    {
        let ghost b = strings_view(out@);
        let c = v[i].clone();
        assert(c@ == strings_view(v@)[i as int]);
        out.push(c);
        assert(strings_view(out@) =~= b.push(c@));
        assert(strings_view(v@).subrange(0, i + 1) =~= strings_view(v@).subrange(0, i as int).push(strings_view(v@)[i as int]));
        i += 1;
    }
    assert(strings_view(v@).subrange(0, v@.len() as int) =~= strings_view(v@));
    out
}

// ---------------------------------------------------------------- profiling

/// The running totals of a profile walk.
pub struct ProfileView {
    pub counts: Seq<(Category, usize)>,
    pub other: nat,
    pub visited: nat,
    pub contains_project: bool,
    pub truncated: bool,
    pub saw_any: bool,
}

/// A category that can be a folder's destination evidence.
pub open spec fn is_specific(c: Category) -> bool {
    !(c == Category::Junk || c == Category::Other || c == Category::Unknown || c
        == Category::BuildOutput || c == Category::Sensitive)
}

pub open spec fn count_index(counts: Seq<(Category, usize)>, c: Category) -> Option<int>
    decreases counts.len(),
{
    if counts.len() == 0 {
        None
    } else if counts.last().0 == c {
        Some(counts.len() - 1)
    } else {
        count_index(counts.drop_last(), c)
    }
}

/// One more file of category `c`.
pub open spec fn bump(counts: Seq<(Category, usize)>, c: Category) -> Seq<(Category, usize)> {
    match count_index(counts, c) {
        Some(i) => counts.update(i, (c, (counts[i].1 + 1) as usize)),
        None => counts.push((c, 1usize)),
    }
}

/// What profiling makes of one child of a directory at `depth`: the new
/// totals, and the subdirectory to descend into, if any.
pub open spec fn profile_child(
    table: Seq<(Seq<char>, Category)>,
    e: Entry,
    depth: nat,
    pv: ProfileView,
) -> (ProfileView, Option<(Seq<char>, nat)>) {
    let name = name_or_empty(e.path@);
    if e.is_symlink {
        (pv, None)
    } else if e.is_dir {
        if e.hidden || is_category_name(name) || is_build_output_name(name) {
            (pv, None)
        } else if e.project_root {
            (ProfileView { contains_project: true, ..pv }, None)
        } else if depth + 1 > MAX_PROFILE_DEPTH {
            (ProfileView { truncated: true, ..pv }, None)
        } else {
            (pv, Some((e.path@, (depth + 1) as nat)))
        }
    } else if e.hidden {
        (pv, None)
    } else {
        let c = classification(table, e);
        if is_specific(c) {
            (ProfileView { counts: bump(pv.counts, c), ..pv }, None)
        } else {
            (ProfileView { other: pv.other + 1, ..pv }, None)
        }
    }
}

pub open spec fn profile_measure(stack: Seq<(Seq<char>, nat)>, cur: Seq<Entry>, visited: nat) -> int {
    3 * (MAX_PROFILE_FILES - visited) + 2 * stack.len() + if cur.len() > 0 {
        1int
    } else {
        0int
    }
}

/// Depth-first profiling: `cur` holds the unprocessed children of the
/// directory at `depth`, `stack` the directories still to list. At most
/// `MAX_PROFILE_FILES` entries are looked at; the walk stops (truncated)
/// at the first one past that.
pub open spec fn profile_walk(
    table: Seq<(Seq<char>, Category)>,
    snap: FsSnapshot,
    stack: Seq<(Seq<char>, nat)>,
    cur: Seq<Entry>,
    depth: nat,
    pv: ProfileView,
) -> ProfileView
    decreases profile_measure(stack, cur, pv.visited),
    when pv.visited <= MAX_PROFILE_FILES
{
    if cur.len() > 0 {
        if pv.visited >= MAX_PROFILE_FILES {
            ProfileView { truncated: true, ..pv }
        } else {
            let step = profile_child(table, cur[0], depth, ProfileView { visited: pv.visited + 1, ..pv });
            let stack2 = match step.1 {
                Some(x) => stack.push(x),
                None => stack,
            };
            profile_walk(table, snap, stack2, cur.drop_first(), depth, step.0)
        }
    } else if stack.len() == 0 {
        pv
    } else {
        let children = listing_at(snap, stack.last().0);
        profile_walk(
            table,
            snap,
            stack.drop_last(),
            children,
            stack.last().1,
            ProfileView { saw_any: pv.saw_any || children.len() > 0, ..pv },
        )
    }
}

/// Whether the snapshot holds every listing `profile_walk` consults.
pub open spec fn profile_observed(
    table: Seq<(Seq<char>, Category)>,
    snap: FsSnapshot,
    stack: Seq<(Seq<char>, nat)>,
    cur: Seq<Entry>,
    depth: nat,
    pv: ProfileView,
) -> bool
    decreases profile_measure(stack, cur, pv.visited),
    when pv.visited <= MAX_PROFILE_FILES
{
    if cur.len() > 0 {
        if pv.visited >= MAX_PROFILE_FILES {
            true
        } else {
            let step = profile_child(table, cur[0], depth, ProfileView { visited: pv.visited + 1, ..pv });
            let stack2 = match step.1 {
                Some(x) => stack.push(x),
                None => stack,
            };
            profile_observed(table, snap, stack2, cur.drop_first(), depth, step.0)
        }
    } else if stack.len() == 0 {
        true
    } else {
        let children = listing_at(snap, stack.last().0);
        listing_index(snap.listings@, stack.last().0) is Some && profile_observed(
            table,
            snap,
            stack.drop_last(),
            children,
            stack.last().1,
            ProfileView { saw_any: pv.saw_any || children.len() > 0, ..pv },
        )
    }
}

/// Whether the snapshot holds every listing profiling `root` consults.
pub open spec fn profile_spec_observed(table: Seq<(Seq<char>, Category)>, snap: FsSnapshot, root: Seq<char>) -> bool {
    profile_observed(table, snap, seq![(root, 0nat)], Seq::empty(), 0, empty_profile())
}

pub open spec fn empty_profile() -> ProfileView {
    ProfileView {
        counts: Seq::empty(),
        other: 0,
        visited: 0,
        contains_project: false,
        truncated: false,
        saw_any: false,
    }
}

/// The profile of the folder at `root`.
pub open spec fn profile_spec(table: Seq<(Seq<char>, Category)>, snap: FsSnapshot, root: Seq<char>) -> ProfileView {
    profile_walk(table, snap, seq![(root, 0nat)], Seq::empty(), 0, empty_profile())
}

pub open spec fn profile_matches(p: FolderProfile, v: ProfileView) -> bool {
    &&& p.category_counts@ == v.counts
    &&& p.other_count == v.other
    &&& p.contains_project == v.contains_project
    &&& p.truncated == v.truncated
    &&& p.saw_any_entry == v.saw_any
}

/// Only specific categories are counted.
pub open spec fn counts_specific(c: Seq<(Category, usize)>) -> bool {
    forall|i: int| 0 <= i < c.len() ==> is_specific(#[trigger] c[i].0)
}

/// Each category counted at most once in the list.
pub open spec fn counts_distinct(c: Seq<(Category, usize)>) -> bool {
    forall|i: int, j: int| 0 <= i < j < c.len() ==> c[i].0 != c[j].0
}

proof fn lemma_count_index(counts: Seq<(Category, usize)>, c: Category)
    ensures
        match count_index(counts, c) {
            Some(i) => 0 <= i < counts.len() && counts[i].0 == c,
            None => forall|k: int| 0 <= k < counts.len() ==> counts[k].0 != c,
        },
    decreases counts.len(),
{
    if counts.len() > 0 && counts.last().0 != c {
        lemma_count_index(counts.drop_last(), c);
        if count_index(counts.drop_last(), c) is None {
            assert forall|k: int| 0 <= k < counts.len() implies counts[k].0 != c by {
                if k < counts.len() - 1 {
                    assert(counts.drop_last()[k] == counts[k]);
                }
            }
        }
    }
}

proof fn lemma_counts_sum_update(c: Seq<(Category, usize)>, i: int, x: (Category, usize))
    requires
        0 <= i < c.len(),
    ensures
        counts_sum(c.update(i, x)) == counts_sum(c) - c[i].1 + x.1,
    decreases c.len(),
{
    if i < c.len() - 1 {
        assert(c.update(i, x).drop_last() =~= c.drop_last().update(i, x));
        lemma_counts_sum_update(c.drop_last(), i, x);
    } else {
        assert(c.update(i, x).drop_last() =~= c.drop_last());
    }
}

proof fn lemma_bump(counts: Seq<(Category, usize)>, c: Category)
    requires
        counts_sum(counts) < usize::MAX,
        counts_distinct(counts),
    ensures
        counts_sum(bump(counts, c)) == counts_sum(counts) + 1,
        counts_distinct(bump(counts, c)),
        counts_specific(counts) && is_specific(c) ==> counts_specific(bump(counts, c)),
{
    lemma_count_index(counts, c);
    match count_index(counts, c) {
        Some(i) => {
            lemma_counts_sum_le_elem(counts, i);
            lemma_counts_sum_update(counts, i, (c, (counts[i].1 + 1) as usize));
        },
        None => {
            assert(counts.push((c, 1usize)).drop_last() =~= counts);
        },
    }
}

proof fn lemma_counts_sum_le_elem(c: Seq<(Category, usize)>, i: int)
    requires
        0 <= i < c.len(),
    ensures
        c[i].1 <= counts_sum(c),
    decreases c.len(),
{
    if i < c.len() - 1 {
        lemma_counts_sum_le_elem(c.drop_last(), i);
    }
}

fn bump_exec(counts: &mut Vec<(Category, usize)>, c: Category)
    requires
        counts_sum(old(counts)@) < usize::MAX,
        counts_distinct(old(counts)@),
    ensures
        final(counts)@ == bump(old(counts)@, c),
{
    proof {
        lemma_count_index(counts@, c);
        lemma_bump(counts@, c);
    }
    let mut i: usize = counts.len();
    assert(counts@.subrange(0, counts@.len() as int) =~= counts@);
    while i > 0
        invariant
            i <= counts@.len(),
            counts@ == old(counts)@,
            counts_sum(counts@) < usize::MAX,
            count_index(counts@, c) == count_index(counts@.subrange(0, i as int), c),
        decreases i,
    {
        let ghost pre = counts@.subrange(0, i as int);
        assert(pre.drop_last() =~= counts@.subrange(0, i - 1));
        if counts[i - 1].0 == c {
            proof {
                lemma_counts_sum_le_elem(counts@, i - 1);
            }
            let n = counts[i - 1].1;
            counts.set(i - 1, (c, n + 1));
            return;
        }
        i -= 1;
    }
    counts.push((c, 1));
}

/// Profiles the folder at `root` by a depth-first walk over its listings,
/// sorted, never following a symlink and never descending into a hidden,
/// category or build-output directory or a software project (which only
/// marks the profile). Bounded by `MAX_PROFILE_FILES` entries and
/// `MAX_PROFILE_DEPTH` levels.
pub fn profile_folder(snap: &FsSnapshot, root: &str, db: &CategoryDB, asked: &mut Vec<Query>) -> (r: FolderProfile)
    ensures
        profile_matches(r, profile_spec(db@, *snap, root@)),
        counts_distinct(r.category_counts@),
        counts_specific(r.category_counts@),
        counts_sum(r.category_counts@) + r.other_count <= MAX_PROFILE_FILES,
        extends(old(asked)@, final(asked)@),
        final(asked)@ == old(asked)@ <==> profile_spec_observed(db@, *snap, root@),
{
    let ghost table = db@;
    let mut counts: Vec<(Category, usize)> = Vec::new();
    let mut other: usize = 0;
    let mut visited: usize = 0;
    let mut contains_project = false;
    let mut truncated = false;
    let mut saw_any = false;
    let mut stack: Vec<(String, usize)> = Vec::new();
    stack.push((root.to_owned(), 0));
    let mut cur: &[Entry] = &[];
    let mut i: usize = 0;
    let mut depth: usize = 0;
    let ghost goal = profile_spec(table, *snap, root@);
    let ghost obs = profile_spec_observed(table, *snap, root@);
    let ghost a0 = asked@;
    assert(stack@.map_values(|x: (String, usize)| (x.0@, x.1 as nat)) =~= seq![(root@, 0nat)]);
    assert(cur@.subrange(0, 0) =~= Seq::<Entry>::empty());
    loop
        invariant_except_break
            i <= cur@.len(),
            visited <= MAX_PROFILE_FILES,
            counts_sum(counts@) + other <= visited,
            counts_distinct(counts@),
            counts_specific(counts@),
            depth <= MAX_PROFILE_DEPTH,
            forall|k: int| 0 <= k < stack@.len() ==> (#[trigger] stack@[k]).1 <= MAX_PROFILE_DEPTH,
            table == db@,
            extends(a0, asked@),
            a0 == old(asked)@,
            goal == profile_spec(table, *snap, root@),
            goal == profile_walk(
                table,
                *snap,
                stack@.map_values(|x: (String, usize)| (x.0@, x.1 as nat)),
                cur@.subrange(i as int, cur@.len() as int),
                depth as nat,
                ProfileView {
                    counts: counts@,
                    other: other as nat,
                    visited: visited as nat,
                    contains_project,
                    truncated,
                    saw_any,
                },
            ),
            obs == profile_spec_observed(table, *snap, root@),
            obs == (asked@ == a0 && profile_observed(
                table,
                *snap,
                stack@.map_values(|x: (String, usize)| (x.0@, x.1 as nat)),
                cur@.subrange(i as int, cur@.len() as int),
                depth as nat,
                ProfileView {
                    counts: counts@,
                    other: other as nat,
                    visited: visited as nat,
                    contains_project,
                    truncated,
                    saw_any,
                },
            )),
        ensures
            obs == (asked@ == a0),
            obs == profile_spec_observed(table, *snap, root@),
            visited <= MAX_PROFILE_FILES,
            counts_sum(counts@) + other <= visited,
            counts_distinct(counts@),
            counts_specific(counts@),
            extends(old(asked)@, asked@),
            goal == (ProfileView {
                counts: counts@,
                other: other as nat,
                visited: visited as nat,
                contains_project,
                truncated,
                saw_any,
            }),
        decreases profile_measure(
            stack@.map_values(|x: (String, usize)| (x.0@, x.1 as nat)),
            cur@.subrange(i as int, cur@.len() as int),
            visited as nat,
        ),
    {
        let ghost sv = stack@.map_values(|x: (String, usize)| (x.0@, x.1 as nat));
        let ghost rest = cur@.subrange(i as int, cur@.len() as int);
        if i < cur.len() {
            if visited >= MAX_PROFILE_FILES {
                truncated = true;
                break;
            }
            assert(rest[0] == cur@[i as int]);
            assert(rest.drop_first() =~= cur@.subrange(i + 1, cur@.len() as int));
            visited += 1;
            let e = &cur[i];
            i += 1;
            if e.is_symlink {
                continue;
            }
            if e.is_dir {
                let name = file_name_or_empty(e.path.as_str());
                if e.hidden || is_sift_category_dir(name.as_str()) || is_build_output_dir(name.as_str()) {
                    continue;
                }
                if e.project_root {
                    contains_project = true;
                    continue;
                }
                if depth + 1 > MAX_PROFILE_DEPTH {
                    truncated = true;
                    continue;
                }
                stack.push((e.path.clone(), depth + 1));
                assert(stack@.map_values(|x: (String, usize)| (x.0@, x.1 as nat)) =~= sv.push(
                    (e.path@, (depth + 1) as nat),
                ));
                continue;
            }
            if e.hidden {
                continue;
            }
            let mut ce = e.clone();
            db.classify(&mut ce);
            let c = match ce.classified_as {
                Some(c) => c,
                None => Category::Unknown,
            };
            assert(c == classification(table, *e));
            if is_specific_exec(c) {
                proof {
                    lemma_bump(counts@, c);
                }
                bump_exec(&mut counts, c);
            } else {
                other += 1;
            }
        } else {
            if stack.len() == 0 {
                break;
            }
            let (dir, d) = stack.pop().unwrap();
            assert(stack@.map_values(|x: (String, usize)| (x.0@, x.1 as nat)) =~= sv.drop_last());
            let ghost ab = asked@;
            cur = crate::planner::listing_entries(snap, dir.as_str(), asked);
            proof {
                lemma_asked_seq(a0, ab, asked@);
                if listing_index(snap.listings@, dir@) is None {
                    assert(asked@.len() != ab.len());
                }
            }
            if cur.len() > 0 {
                saw_any = true;
            }
            i = 0;
            depth = d;
            assert(cur@.subrange(0, cur@.len() as int) =~= cur@);
        }
    }
    proof {
        assert(profile_spec(table, *snap, root@) == goal);
    }
    FolderProfile {
        category_counts: counts,
        other_count: other,
        contains_project,
        truncated,
        saw_any_entry: saw_any,
    }
}

fn is_specific_exec(c: Category) -> (r: bool)
    ensures
        r == is_specific(c),
{
    match c {
        Category::Junk | Category::Other | Category::Unknown | Category::BuildOutput
        | Category::Sensitive => false,
        _ => true,
    }
}

// ------------------------------------------------------------- the plan

/// One analyzed candidate folder.
#[derive(Debug)]
pub struct FolderCandidate {
    pub name: String,
    pub path: String,
    pub decision: Decision,
    pub evidence_files: usize,
    pub truncated: bool,
}

/// A candidate as plain values.
pub struct CandidateView {
    pub name: Seq<char>,
    pub path: Seq<char>,
    pub decision: Decision,
    pub evidence_files: nat,
    pub truncated: bool,
}

pub open spec fn candidate_view(c: FolderCandidate) -> CandidateView {
    CandidateView {
        name: c.name@,
        path: c.path@,
        decision: c.decision,
        evidence_files: c.evidence_files as nat,
        truncated: c.truncated,
    }
}

pub open spec fn candidates_view(v: Seq<FolderCandidate>) -> Seq<CandidateView> {
    v.map_values(|c: FolderCandidate| candidate_view(c))
}

/// The folder analysis of one directory.
#[derive(Debug)]
pub struct FoldersPlan {
    pub root: String,
    /// `CreateDir` and `MoveDir` actions only.
    pub actions: Vec<Action>,
    /// Every analyzed candidate, sorted by name.
    pub candidates: Vec<FolderCandidate>,
    /// Name-only possible-duplicate groups; report only.
    pub possible_duplicates: Vec<Vec<String>>,
}

pub open spec fn move_dir_view(src: Seq<char>, dst: Seq<char>, reason: Seq<char>) -> ActionView {
    ActionView { src, dst: Some(dst), op: Op::MoveDir, reason: Some(reason), undoable: true }
}

/// The decision for a candidate directory entry, from its profile.
pub open spec fn candidate_decision(table: Seq<(Seq<char>, Category)>, snap: FsSnapshot, e: Entry) -> Decision {
    let pv = profile_spec(table, snap, e.path@);
    decide_spec(
        (counts_sum(pv.counts) + pv.other) as usize,
        dominant_spec(pv.counts),
        pv.contains_project,
        pv.saw_any,
        pv.truncated,
        e.project_root,
        e.hidden,
    )
}

/// Planning a `Move` decision: the final decision, the `MoveDir` action
/// and the category directory to create, if any. The destination must be
/// a directory (or absent) and the folder's name must be free in it.
pub open spec fn plan_move(snap: FsSnapshot, root: Seq<char>, name: Seq<char>, src: Seq<char>, d: Decision) -> (
    Decision,
    Option<ActionView>,
    Option<Seq<char>>,
) {
    match d {
        Decision::Move { category, count, total } => {
            let dn = folder_dest_spec(category).unwrap();
            let dest_dir = join(root, dn);
            let dest = join(dest_dir, name);
            let status = dir_status_at(snap, dest_dir);
            if status == DirStatus::Blocked {
                (
                    Decision::MoveRefused {
                        category,
                        count,
                        total,
                        reason: "destination category is not a directory",
                    },
                    None,
                    None,
                )
            } else if kind_at(snap.kinds@, dest) != Some(PathKind::Absent) {
                (
                    Decision::MoveRefused { category, count, total, reason: "destination already exists" },
                    None,
                    None,
                )
            } else {
                (
                    d,
                    Some(move_dir_view(src, dest, "mostly "@ + dn)),
                    if status == DirStatus::Missing {
                        Some(dest_dir)
                    } else {
                        None
                    },
                )
            }
        },
        _ => (d, None, None),
    }
}

/// What one entry of the analyzed directory contributes: nothing unless it
/// is a directory with a name that is not a category directory's.
pub open spec fn folder_step(table: Seq<(Seq<char>, Category)>, snap: FsSnapshot, root: Seq<char>, e: Entry) -> Option<
    (CandidateView, Option<ActionView>, Option<Seq<char>>),
> {
    if !e.is_dir {
        None
    } else {
        match file_name(e.path@) {
            None => None,
            Some(name) => if is_category_name(name) {
                None
            } else {
                let pv = profile_spec(table, snap, e.path@);
                let m = plan_move(snap, root, name, e.path@, candidate_decision(table, snap, e));
                Some(
                    (
                        CandidateView {
                            name,
                            path: e.path@,
                            decision: m.0,
                            evidence_files: counts_sum(pv.counts) + pv.other,
                            truncated: pv.truncated,
                        },
                        m.1,
                        m.2,
                    ),
                )
            },
        }
    }
}

pub struct FoldersAcc {
    pub candidates: Seq<CandidateView>,
    pub moves: Seq<ActionView>,
    pub needed: Seq<Seq<char>>,
    pub names: Seq<Seq<char>>,
}

pub open spec fn folders_fold(table: Seq<(Seq<char>, Category)>, snap: FsSnapshot, root: Seq<char>, es: Seq<Entry>) -> FoldersAcc
    decreases es.len(),
{
    if es.len() == 0 {
        FoldersAcc { candidates: Seq::empty(), moves: Seq::empty(), needed: Seq::empty(), names: Seq::empty() }
    } else {
        let prev = folders_fold(table, snap, root, es.drop_last());
        match folder_step(table, snap, root, es.last()) {
            None => prev,
            Some((c, mv, nd)) => FoldersAcc {
                candidates: prev.candidates.push(c),
                moves: match mv {
                    Some(a) => prev.moves.push(a),
                    None => prev.moves,
                },
                needed: match nd {
                    Some(d) => insert_sorted(prev.needed, d),
                    None => prev.needed,
                },
                names: prev.names.push(c.name),
            },
        }
    }
}

/// Stable insertion of a candidate by name.
pub open spec fn insert_cand(s: Seq<CandidateView>, x: CandidateView) -> Seq<CandidateView>
    decreases s.len(),
{
    if s.len() == 0 {
        seq![x]
    } else if str_le(s.last().name, x.name) {
        s.push(x)
    } else {
        insert_cand(s.drop_last(), x).push(s.last())
    }
}

/// Candidates sorted by name (a stable sort).
pub open spec fn sort_cands(s: Seq<CandidateView>) -> Seq<CandidateView>
    decreases s.len(),
{
    if s.len() == 0 {
        s
    } else {
        insert_cand(sort_cands(s.drop_last()), s.last())
    }
}

fn insert_cand_exec(v: &mut Vec<FolderCandidate>, x: FolderCandidate)
    ensures
        candidates_view(final(v)@) == insert_cand(candidates_view(old(v)@), candidate_view(x)),
    decreases old(v)@.len(),
{
    let ghost xv = candidate_view(x);
    if v.len() == 0 {
        v.push(x);
        assert(candidates_view(v@) =~= seq![xv]);
        return;
    }
    let last = v.len() - 1;
    let ghost before = candidates_view(v@);
    assert(before.last() == candidate_view(v@[last as int]));
    if str_compare(v[last].name.as_str(), x.name.as_str()) != Order3::Greater {
        v.push(x);
        assert(candidates_view(v@) =~= before.push(xv));
        return;
    }
    let top = v.pop().unwrap();
    assert(candidates_view(v@) =~= before.drop_last());
    insert_cand_exec(v, x);
    let ghost mid = candidates_view(v@);
    let ghost tv = candidate_view(top);
    v.push(top);
    assert(candidates_view(v@) =~= mid.push(tv));
}

/// Whether the snapshot holds what `plan_move` consults: the kind of the
/// category directory and, unless that refuses the move, of the
/// destination.
pub open spec fn move_observed(snap: FsSnapshot, root: Seq<char>, name: Seq<char>, d: Decision) -> bool {
    match d {
        Decision::Move { category, count: _, total: _ } => {
            let dest_dir = join(root, folder_dest_spec(category).unwrap());
            kind_at(snap.kinds@, dest_dir) is Some && (dir_status_at(snap, dest_dir) == DirStatus::Blocked
                || kind_at(snap.kinds@, join(dest_dir, name)) is Some)
        },
        _ => true,
    }
}

/// Whether the snapshot holds every observation analyzing child `e`
/// consults.
pub open spec fn folder_observed(table: Seq<(Seq<char>, Category)>, snap: FsSnapshot, root: Seq<char>, e: Entry) -> bool {
    if !e.is_dir {
        true
    } else {
        match file_name(e.path@) {
            None => true,
            Some(name) => is_category_name(name) || (profile_spec_observed(table, snap, e.path@)
                && move_observed(snap, root, name, candidate_decision(table, snap, e))),
        }
    }
}

/// Whether the snapshot holds every observation `plan_folders` consults.
pub open spec fn plan_folders_observed(table: Seq<(Seq<char>, Category)>, snap: FsSnapshot, root: Seq<char>) -> bool {
    &&& listing_index(snap.listings@, root) is Some
    &&& forall|k: int|
        0 <= k < listing_at(snap, root).len() ==> folder_observed(
            table,
            snap,
            root,
            #[trigger] listing_at(snap, root)[k],
        )
}

/// The folder plan of the directory at `root`.
pub open spec fn plan_folders_ok(table: Seq<(Seq<char>, Category)>, snap: FsSnapshot, root: Seq<char>, r: FoldersPlan) -> bool {
    let acc = folders_fold(table, snap, root, listing_at(snap, root));
    &&& r.root@ == root
    &&& actions_view(r.actions@) == acc.needed.map_values(|d: Seq<char>| create_dir_view(d)) + acc.moves
    &&& candidates_view(r.candidates@) == sort_cands(acc.candidates)
    &&& groups_view(r.possible_duplicates@) == possible_duplicates_spec(acc.names)
}

/// Analyzes the immediate child folders of `path` and plans a `MoveDir`
/// (with the `CreateDir` it needs) for every high-confidence candidate.
/// Only the top folders are ever action targets; profiling may look deeper.
pub fn plan_folders(path: &str, snap: &FsSnapshot, db: &CategoryDB, asked: &mut Vec<Query>) -> (r: FoldersPlan)
    ensures
        plan_folders_ok(db@, *snap, path@, r),
        extends(old(asked)@, final(asked)@),
        final(asked)@ == old(asked)@ <==> plan_folders_observed(db@, *snap, path@),
{
    let ghost table = db@;
    let ghost a0 = asked@;
    let entries = crate::planner::listing_entries(snap, path, asked);
    let ghost a1 = asked@;
    proof {
        if listing_index(snap.listings@, path@) is None {
            assert(a1.len() != a0.len());
        }
    }
    let mut candidates: Vec<FolderCandidate> = Vec::new();
    let mut needed: Vec<String> = Vec::new();
    let mut moves: Vec<Action> = Vec::new();
    let mut names: Vec<String> = Vec::new();
    let mut i: usize = 0;
    assert(entries@.subrange(0, 0) =~= Seq::<Entry>::empty());
    while i < entries.len()
        invariant
            i <= entries@.len(),
            entries@ == listing_at(*snap, path@),
            table == db@,
            extends(a0, asked@),
            a0 == old(asked)@,
            extends(a0, a1),
            extends(a1, asked@),
            a1 == a0 <==> listing_index(snap.listings@, path@) is Some,
            asked@ == a1 <==> forall|k: int| 0 <= k < i ==> folder_observed(table, *snap, path@, #[trigger] entries@[k]),
            ({
                let acc = folders_fold(table, *snap, path@, entries@.subrange(0, i as int));
                &&& candidates_view(candidates@) == acc.candidates
                &&& actions_view(moves@) == acc.moves
                &&& strings_view(needed@) == acc.needed
                &&& strings_view(names@) == acc.names
            }),
        decreases entries@.len() - i,
    {
        let ghost pre = entries@.subrange(0, i as int);
        let ghost ai = asked@;
        let ghost i0 = i as int;
        assert(entries@.subrange(0, i + 1).drop_last() =~= pre);
        assert(entries@.subrange(0, i + 1).last() == entries@[i as int]);
        let e = &entries[i];
        i += 1;
        if !e.is_dir {
            continue;
        }
        let name = match path_file_name(e.path.as_str()) {
            Some(n) => n,
            None => {
                continue;
            },
        };
        if is_sift_category_dir(name.as_str()) {
            continue;
        }
        let ghost names0 = strings_view(names@);
        names.push(name.clone());
        assert(strings_view(names@) =~= names0.push(name@));
        let profile = profile_folder(snap, e.path.as_str(), db, asked);
        let ghost ap = asked@;
        let mut decision = decide(&profile, e.project_root, e.hidden);
        let ghost m = plan_move(*snap, path@, name@, e.path@, decision);
        match decision {
            Decision::Move { category, count, total } => {
                proof {
                    lemma_dominant(profile.category_counts@);
                    let w = choose|w: int| 0 <= w < profile.category_counts@.len() && profile.category_counts@[w] == (category, count);
                    assert(is_specific(profile.category_counts@[w].0));
                }
                let dn = match folder_destination_name(category) {
                    Some(n) => n,
                    None => {
                        assert(false);
                        continue;
                    },
                };
                let dest_dir = path_join(path, dn);
                let dest = path_join(dest_dir.as_str(), name.as_str());
                let status = dir_status(snap, dest_dir.as_str(), asked);
                let ghost ad = asked@;
                proof {
                    if kind_at(snap.kinds@, dest_dir@) is None {
                        assert(ad.len() != ap.len());
                    }
                }
                if status == DirStatus::Blocked {
                    decision = Decision::MoveRefused {
                        category,
                        count,
                        total,
                        reason: "destination category is not a directory",
                    };
                } else {
                    let k = observed_kind(snap, dest.as_str(), asked);
                    proof {
                        lemma_asked_seq(ap, ad, asked@);
                        if k is None {
                            assert(asked@.len() != ad.len());
                        }
                    }
                    if k != Some(PathKind::Absent) {
                        decision = Decision::MoveRefused {
                            category,
                            count,
                            total,
                            reason: "destination already exists",
                        };
                    } else {
                        if status == DirStatus::Missing {
                            insert_path_sorted(&mut needed, dest_dir);
                        }
                        let ghost mv0 = actions_view(moves@);
                        let act = Action {
                            src: e.path.clone(),
                            dst: Some(dest),
                            op: Op::MoveDir,
                            reason: Some(concat("mostly ", dn)),
                            undoable: true,
                        };
                        assert(action_view(act) == m.1.unwrap());
                        moves.push(act);
                        assert(actions_view(moves@) =~= mv0.push(m.1.unwrap()));
                    }
                }
            },
            _ => {},
        }
        assert(decision == m.0);
        let cand = FolderCandidate {
            name,
            path: e.path.clone(),
            decision,
            evidence_files: profile.total_eligible(),
            truncated: profile.truncated,
        };
        let ghost c0 = candidates_view(candidates@);
        let ghost cv = candidate_view(cand);
        candidates.push(cand);
        assert(candidates_view(candidates@) =~= c0.push(cv));
        proof {
            assert(asked@ == ap <==> move_observed(*snap, path@, name@, candidate_decision(table, *snap, *e)));
            lemma_asked_seq(ai, ap, asked@);
            lemma_asked_seq(a1, ai, asked@);
            if asked@ == a1 {
                assert forall|k: int| 0 <= k < i implies folder_observed(table, *snap, path@, #[trigger] entries@[k]) by {
                    if k == i0 {
                    }
                }
            }
        }
    }
    assert(entries@.subrange(0, entries@.len() as int) =~= entries@);
    let mut sorted: Vec<FolderCandidate> = Vec::new();
    let ghost cs = candidates_view(candidates@);
    let n = candidates.len();
    let mut j: usize = 0;
    // Sort the candidates by name.
    assert(candidates_view(sorted@) =~= sort_cands(cs.subrange(0, 0)));
    assert(candidates_view(candidates@) =~= cs.subrange(0, n as int));
    while candidates.len() > 0
        invariant
            candidates@.len() + j == n,
            cs.len() == n,
            candidates_view(candidates@) == cs.subrange(j as int, n as int),
            candidates_view(sorted@) == sort_cands(cs.subrange(0, j as int)),
        decreases candidates@.len(),
    {
        let ghost before = candidates_view(candidates@);
        let ghost raw = candidates@;
        let c = candidates.remove(0);
        assert(candidates@ =~= raw.subrange(1, raw.len() as int));
        assert(raw[0] == c);
        assert(before[0] == candidate_view(c));
        assert(candidates_view(candidates@) =~= before.subrange(1, before.len() as int));
        assert(candidate_view(c) == cs[j as int]);
        assert(candidates_view(candidates@) =~= cs.subrange(j + 1, n as int));
        assert(cs.subrange(0, j + 1).drop_last() =~= cs.subrange(0, j as int));
        insert_cand_exec(&mut sorted, c);
        j += 1;
    }
    assert(cs.subrange(0, n as int) =~= cs);
    let dups = detect_possible_duplicates(&names);
    let actions = assemble_folder_actions(needed, moves);
    FoldersPlan { root: path.to_owned(), actions, candidates: sorted, possible_duplicates: dups }
}

fn assemble_folder_actions(needed: Vec<String>, moves: Vec<Action>) -> (r: Vec<Action>)
    ensures
        actions_view(r@) == strings_view(needed@).map_values(|d: Seq<char>| create_dir_view(d))
            + actions_view(moves@),
{
    let mut actions = createdir_actions(needed);
    let ghost a = actions@;
    let mut rest = moves;
    let ghost b = rest@;
    actions.append(&mut rest);
    assert(actions_view(actions@) =~= actions_view(a) + actions_view(b));
    actions
}

// ------------------------------------------------------- execution plan

/// The first `MoveDir` action from `p`.
pub open spec fn first_move_of(acts: Seq<ActionView>, p: Seq<char>) -> Option<ActionView>
    decreases acts.len(),
{
    if acts.len() == 0 {
        None
    } else if acts[0].op == Op::MoveDir && same_path(acts[0].src, p) {
        Some(acts[0])
    } else {
        first_move_of(acts.drop_first(), p)
    }
}

pub open spec fn skip_reason_spec(d: Decision) -> Seq<char> {
    match d {
        Decision::MoveRefused { reason, .. } => reason@,
        Decision::Suggest { reason, .. } => reason@,
        Decision::Leave { reason } => reason@,
        Decision::Protect { reason } => reason@,
        Decision::Move { .. } => Seq::empty(),
    }
}

/// What each candidate contributes to the executed plan: its move, or a
/// skip that records why it stays.
pub open spec fn candidate_actions(acts: Seq<ActionView>, cands: Seq<CandidateView>) -> Seq<ActionView>
    decreases cands.len(),
{
    if cands.len() == 0 {
        Seq::empty()
    } else {
        let prev = candidate_actions(acts, cands.drop_last());
        let c = cands.last();
        match c.decision {
            Decision::Move { .. } => match first_move_of(acts, c.path) {
                Some(a) => prev.push(a),
                None => prev,
            },
            d => prev.push(skip_view(c.path, skip_reason_spec(d))),
        }
    }
}

pub open spec fn is_create_dir() -> spec_fn(ActionView) -> bool {
    |a: ActionView| a.op == Op::CreateDir
}

/// The full plan an applied `folders` run executes: the `CreateDir`
/// actions, then per candidate its move or a skip.
pub open spec fn full_plan_spec(acts: Seq<ActionView>, cands: Seq<CandidateView>) -> Seq<ActionView> {
    acts.filter(is_create_dir()) + candidate_actions(acts, cands)
}

/// The reason a non-moved candidate is skipped.
pub fn skip_reason_text(decision: &Decision) -> (r: String)
    requires
        !(decision is Move),
    ensures
        r@ == skip_reason_spec(*decision),
{
    match decision {
        Decision::MoveRefused { reason, .. } => crate::text::str_to_string(reason),
        Decision::Suggest { reason, .. } => crate::text::str_to_string(reason),
        Decision::Leave { reason } => crate::text::str_to_string(reason),
        Decision::Protect { reason } => crate::text::str_to_string(reason),
        Decision::Move { .. } => String::new(),
    }
}

fn find_move(acts: &Vec<Action>, p: &str) -> (r: Option<usize>)
    ensures
        match r {
            Some(k) => k < acts@.len() && first_move_of(actions_view(acts@), p@) == Some(action_view(acts@[k as int])),
            None => first_move_of(actions_view(acts@), p@) is None,
        },
{
    let ghost av = actions_view(acts@);
    let mut i: usize = 0;
    assert(av.subrange(0, av.len() as int) =~= av);
    while i < acts.len()
        invariant
            i <= acts@.len(),
            av == actions_view(acts@),
            first_move_of(av, p@) == first_move_of(av.subrange(i as int, av.len() as int), p@),
        decreases acts@.len() - i,
    {
        let ghost rest = av.subrange(i as int, av.len() as int);
        assert(rest.drop_first() =~= av.subrange(i + 1, av.len() as int));
        assert(rest[0] == action_view(acts@[i as int]));
        if acts[i].op == Op::MoveDir && crate::path::paths_equal(acts[i].src.as_str(), p) {
            return Some(i);
        }
        i += 1;
    }
    None
}

/// Every action an applied `folders` run executes, skips included, so one
/// run is one self-describing history record.
pub fn full_execution_plan(fp: &FoldersPlan) -> (r: Plan)
    ensures
        actions_view(r.actions@) == full_plan_spec(actions_view(fp.actions@), candidates_view(fp.candidates@)),
{
    let ghost av = actions_view(fp.actions@);
    let ghost cv = candidates_view(fp.candidates@);
    let mut actions: Vec<Action> = Vec::new();
    let mut i: usize = 0;
    assert(av.subrange(0, 0).filter(is_create_dir()) =~= Seq::<ActionView>::empty()) by {
        reveal(Seq::filter);
    }
    while i < fp.actions.len()
        invariant
            i <= fp.actions@.len(),
            av == actions_view(fp.actions@),
            actions_view(actions@) == av.subrange(0, i as int).filter(is_create_dir()),
        decreases fp.actions@.len() - i,
    {
        proof {
            av.subrange(0, i as int).lemma_filter_push(av[i as int], is_create_dir());
            assert(av.subrange(0, i + 1) =~= av.subrange(0, i as int).push(av[i as int]));
        }
        if fp.actions[i].op == Op::CreateDir {
            let ghost b = actions_view(actions@);
            actions.push(fp.actions[i].clone());
            assert(actions_view(actions@) =~= b.push(av[i as int]));
        }
        i += 1;
    }
    assert(av.subrange(0, av.len() as int) =~= av);
    let ghost head = actions_view(actions@);
    let mut j: usize = 0;
    assert(candidate_actions(av, cv.subrange(0, 0)) =~= Seq::<ActionView>::empty());
    while j < fp.candidates.len()
        invariant
            j <= fp.candidates@.len(),
            av == actions_view(fp.actions@),
            cv == candidates_view(fp.candidates@),
            actions_view(actions@) == head + candidate_actions(av, cv.subrange(0, j as int)),
        decreases fp.candidates@.len() - j,
    {
        assert(cv.subrange(0, j + 1).drop_last() =~= cv.subrange(0, j as int));
        assert(cv.subrange(0, j + 1).last() == candidate_view(fp.candidates@[j as int]));
        let c = &fp.candidates[j];
        let ghost b = actions_view(actions@);
        match c.decision {
            Decision::Move { .. } => {
                match find_move(&fp.actions, c.path.as_str()) {
                    Some(k) => {
                        actions.push(fp.actions[k].clone());
                        assert(actions_view(actions@) =~= b.push(action_view(fp.actions@[k as int])));
                    },
                    None => {},
                }
            },
            _ => {
                let reason = skip_reason_text(&c.decision);
                actions.push(
                    Action {
                        src: c.path.clone(),
                        dst: None,
                        op: Op::Skip,
                        reason: Some(reason),
                        undoable: false,
                    },
                );
                assert(actions_view(actions@) =~= b.push(skip_view(c.path@, skip_reason_spec(c.decision))));
            },
        }
        j += 1;
    }
    assert(cv.subrange(0, cv.len() as int) =~= cv);
    Plan { actions }
}

// ------------------------------------------------------------------ laws

/// A move needs strong, complete evidence: never for a hidden folder, a
/// project or a folder holding one, never from a truncated profile, never
/// from a single file, and only at 80% or more.
pub proof fn law_move_needs_strong_evidence(
    total: usize,
    dominant: Option<(Category, usize)>,
    contains_project: bool,
    saw_any_entry: bool,
    truncated: bool,
    is_project_root: bool,
    hidden: bool,
)
    ensures
        decide_spec(total, dominant, contains_project, saw_any_entry, truncated, is_project_root, hidden) is Move
            ==> {
            &&& !hidden && !is_project_root && !contains_project && !truncated
            &&& total >= 2
            &&& dominant matches Some((c, n)) && high_confidence(n as int, total as int)
        },
        hidden || is_project_root || contains_project ==> decide_spec(
            total,
            dominant,
            contains_project,
            saw_any_entry,
            truncated,
            is_project_root,
            hidden,
        ) is Protect,
{
}

/// `Other` is never a folder destination.
pub proof fn law_other_is_never_a_folder_destination(c: Category)
    ensures
        folder_dest_spec(c) != Some("Other"@),
{
    reveal_strlit("Other");
    reveal_strlit("Documents");
    reveal_strlit("Images");
    reveal_strlit("Video");
    reveal_strlit("Audio");
    reveal_strlit("Archives");
    reveal_strlit("3D");
    reveal_strlit("Code");
    reveal_strlit("Data");
    match folder_dest_spec(c) {
        Some(n) => {
            assert(n[0] != "Other"@[0] || n.len() != "Other"@.len());
        },
        None => {},
    }
}

/// A folder plan only creates directories and moves whole folders: no
/// candidate is ever dismantled.
pub proof fn law_folder_plan_moves_whole_folders(
    table: Seq<(Seq<char>, Category)>,
    snap: FsSnapshot,
    root: Seq<char>,
    es: Seq<Entry>,
)
    ensures
        forall|i: int|
            0 <= i < folders_fold(table, snap, root, es).moves.len() ==> (#[trigger] folders_fold(
                table,
                snap,
                root,
                es,
            ).moves[i]).op == Op::MoveDir,
        forall|i: int|
            0 <= i < folders_fold(table, snap, root, es).needed.len() ==> create_dir_view(
                #[trigger] folders_fold(table, snap, root, es).needed[i],
            ).op == Op::CreateDir,
    decreases es.len(),
{
    if es.len() > 0 {
        law_folder_plan_moves_whole_folders(table, snap, root, es.drop_last());
        let prev = folders_fold(table, snap, root, es.drop_last());
        let cur = folders_fold(table, snap, root, es);
        match folder_step(table, snap, root, es.last()) {
            None => {},
            Some((c, mv, nd)) => {
                let e = es.last();
                let name = file_name(e.path@).unwrap();
                let m = plan_move(snap, root, name, e.path@, candidate_decision(table, snap, e));
                assert(mv == m.1);
                assert forall|i: int| 0 <= i < cur.moves.len() implies (#[trigger] cur.moves[i]).op
                    == Op::MoveDir by {
                    if i < prev.moves.len() {
                        assert(cur.moves[i] == prev.moves[i]);
                    }
                }
            },
        }
    }
}

// -------------------------------------------------------- duplicate files

/// What a dedupe walk makes of one child of a directory at `depth`: the
/// file to compare, or the subdirectory to descend into.
pub open spec fn dedupe_child(e: Entry, depth: nat) -> (Option<(Seq<char>, u64)>, Option<(Seq<char>, nat)>) {
    let name = name_or_empty(e.path@);
    if e.is_symlink || e.hidden {
        (None, None)
    } else if e.is_dir {
        if is_category_name(name) || is_build_output_name(name) || e.project_root || depth + 1
            > MAX_PROFILE_DEPTH {
            (None, None)
        } else {
            (None, Some((e.path@, (depth + 1) as nat)))
        }
    } else {
        match e.size {
            Some(sz) => (Some((e.path@, sz)), None),
            None => (None, None),
        }
    }
}

/// The eligible files under a folder, in depth-first order, with the same
/// boundaries and bounds as profiling.
pub open spec fn dedupe_walk(
    snap: FsSnapshot,
    stack: Seq<(Seq<char>, nat)>,
    cur: Seq<Entry>,
    depth: nat,
    visited: nat,
    files: Seq<(Seq<char>, u64)>,
) -> Seq<(Seq<char>, u64)>
    decreases profile_measure(stack, cur, visited),
    when visited <= MAX_PROFILE_FILES
{
    if cur.len() > 0 {
        if visited >= MAX_PROFILE_FILES {
            files
        } else {
            let step = dedupe_child(cur[0], depth);
            let stack2 = match step.1 {
                Some(x) => stack.push(x),
                None => stack,
            };
            let files2 = match step.0 {
                Some(f) => files.push(f),
                None => files,
            };
            dedupe_walk(snap, stack2, cur.drop_first(), depth, visited + 1, files2)
        }
    } else if stack.len() == 0 {
        files
    } else {
        dedupe_walk(snap, stack.drop_last(), listing_at(snap, stack.last().0), stack.last().1, visited, files)
    }
}

pub open spec fn dedupe_files(snap: FsSnapshot, root: Seq<char>) -> Seq<(Seq<char>, u64)> {
    dedupe_walk(snap, seq![(root, 0nat)], Seq::empty(), 0, 0, Seq::empty())
}

pub open spec fn files_view(v: Seq<(String, u64)>) -> Seq<(Seq<char>, u64)> {
    v.map_values(|f: (String, u64)| (f.0@, f.1))
}

/// Lists the files a duplicate comparison may look at under `root`.
fn collect_files_for_dedupe(snap: &FsSnapshot, root: &str, asked: &mut Vec<Query>) -> (r: Vec<(String, u64)>)
    ensures
        files_view(r@) == dedupe_files(*snap, root@),
        extends(old(asked)@, final(asked)@),
{
    let mut files: Vec<(String, u64)> = Vec::new();
    let mut visited: usize = 0;
    let mut stack: Vec<(String, usize)> = Vec::new();
    stack.push((root.to_owned(), 0));
    let mut cur: &[Entry] = &[];
    let mut i: usize = 0;
    let mut depth: usize = 0;
    let ghost goal = dedupe_files(*snap, root@);
    let ghost a0 = asked@;
    assert(stack@.map_values(|x: (String, usize)| (x.0@, x.1 as nat)) =~= seq![(root@, 0nat)]);
    assert(cur@.subrange(0, 0) =~= Seq::<Entry>::empty());
    assert(files_view(files@) =~= Seq::<(Seq<char>, u64)>::empty());
    loop
        invariant_except_break
            i <= cur@.len(),
            visited <= MAX_PROFILE_FILES,
            depth <= MAX_PROFILE_DEPTH,
            forall|k: int| 0 <= k < stack@.len() ==> (#[trigger] stack@[k]).1 <= MAX_PROFILE_DEPTH,
            extends(a0, asked@),
            a0 == old(asked)@,
            goal == dedupe_files(*snap, root@),
            goal == dedupe_walk(
                *snap,
                stack@.map_values(|x: (String, usize)| (x.0@, x.1 as nat)),
                cur@.subrange(i as int, cur@.len() as int),
                depth as nat,
                visited as nat,
                files_view(files@),
            ),
        ensures
            extends(old(asked)@, asked@),
            goal == files_view(files@),
        decreases profile_measure(
            stack@.map_values(|x: (String, usize)| (x.0@, x.1 as nat)),
            cur@.subrange(i as int, cur@.len() as int),
            visited as nat,
        ),
    {
        let ghost sv = stack@.map_values(|x: (String, usize)| (x.0@, x.1 as nat));
        let ghost rest = cur@.subrange(i as int, cur@.len() as int);
        if i < cur.len() {
            if visited >= MAX_PROFILE_FILES {
                break;
            }
            assert(rest[0] == cur@[i as int]);
            assert(rest.drop_first() =~= cur@.subrange(i + 1, cur@.len() as int));
            visited += 1;
            let e = &cur[i];
            i += 1;
            if e.is_symlink || e.hidden {
                continue;
            }
            if e.is_dir {
                let name = file_name_or_empty(e.path.as_str());
                if is_sift_category_dir(name.as_str()) || is_build_output_dir(name.as_str())
                    || e.project_root || depth + 1 > MAX_PROFILE_DEPTH {
                    continue;
                }
                stack.push((e.path.clone(), depth + 1));
                assert(stack@.map_values(|x: (String, usize)| (x.0@, x.1 as nat)) =~= sv.push(
                    (e.path@, (depth + 1) as nat),
                ));
                continue;
            }
            match e.size {
                Some(sz) => {
                    let ghost fb = files_view(files@);
                    files.push((e.path.clone(), sz));
                    assert(files_view(files@) =~= fb.push((e.path@, sz)));
                },
                None => {},
            }
        } else {
            if stack.len() == 0 {
                break;
            }
            let (dir, d) = stack.pop().unwrap();
            assert(stack@.map_values(|x: (String, usize)| (x.0@, x.1 as nat)) =~= sv.drop_last());
            cur = crate::planner::listing_entries(snap, dir.as_str(), asked);
            i = 0;
            depth = d;
            assert(cur@.subrange(0, cur@.len() as int) =~= cur@);
        }
    }
    files
}

/// Whether the file at `other` is byte-for-byte identical to the file at
/// `keep` (unobserved: not identical).
pub open spec fn identical_at(snap: FsSnapshot, keep: Seq<char>, other: Seq<char>) -> bool {
    dest_file_at(snap, other, keep) is IdenticalDuplicate
}

/// The first keeper of the same size that is identical to `path`.
pub open spec fn first_identical(snap: FsSnapshot, keepers: Seq<(Seq<char>, u64)>, path: Seq<char>, size: u64) -> Option<
    Seq<char>,
>
    decreases keepers.len(),
{
    if keepers.len() == 0 {
        None
    } else if keepers[0].1 == size && identical_at(snap, keepers[0].0, path) {
        Some(keepers[0].0)
    } else {
        first_identical(snap, keepers.drop_first(), path, size)
    }
}

/// A planned removal as plain values: `(keep, remove, size)`.
pub open spec fn removal_view(r: DuplicateRemoval) -> (Seq<char>, Seq<char>, u64) {
    (r.keep@, r.remove@, r.size)
}

pub open spec fn removals_view(v: Seq<DuplicateRemoval>) -> Seq<(Seq<char>, Seq<char>, u64)> {
    v.map_values(|r: DuplicateRemoval| removal_view(r))
}

/// The removals among `files`: each file identical to a keeper.
pub open spec fn file_removals(snap: FsSnapshot, keepers: Seq<(Seq<char>, u64)>, files: Seq<(Seq<char>, u64)>) -> Seq<
    (Seq<char>, Seq<char>, u64),
>
    decreases files.len(),
{
    if files.len() == 0 {
        Seq::empty()
    } else {
        let prev = file_removals(snap, keepers, files.drop_last());
        let f = files.last();
        match first_identical(snap, keepers, f.0, f.1) {
            Some(k) => prev.push((k, f.0, f.1)),
            None => prev,
        }
    }
}

/// Whether the first candidate named `name` is protected.
pub open spec fn name_protected(cands: Seq<CandidateView>, name: Seq<char>) -> bool
    decreases cands.len(),
{
    if cands.len() == 0 {
        false
    } else if cands[0].name == name {
        cands[0].decision is Protect
    } else {
        name_protected(cands.drop_first(), name)
    }
}

/// The removals of one name group: the group's first name (sorted) keeps
/// its files; files of the other, unprotected folders identical to one of
/// them are removed. A protected keeper stops the whole group.
pub open spec fn group_removals(
    snap: FsSnapshot,
    root: Seq<char>,
    sorted: Seq<Seq<char>>,
    cands: Seq<CandidateView>,
) -> Seq<(Seq<char>, Seq<char>, u64)> {
    if sorted.len() < 2 || name_protected(cands, sorted[0]) {
        Seq::empty()
    } else {
        let keepers = dedupe_files(snap, join(root, sorted[0]));
        others_removals(snap, root, keepers, sorted.drop_first(), cands)
    }
}

pub open spec fn others_removals(
    snap: FsSnapshot,
    root: Seq<char>,
    keepers: Seq<(Seq<char>, u64)>,
    others: Seq<Seq<char>>,
    cands: Seq<CandidateView>,
) -> Seq<(Seq<char>, Seq<char>, u64)>
    decreases others.len(),
{
    if others.len() == 0 {
        Seq::empty()
    } else {
        let prev = others_removals(snap, root, keepers, others.drop_last(), cands);
        let o = others.last();
        if name_protected(cands, o) {
            prev
        } else {
            prev + file_removals(snap, keepers, dedupe_files(snap, join(root, o)))
        }
    }
}

pub open spec fn all_removals(
    snap: FsSnapshot,
    root: Seq<char>,
    groups: Seq<Seq<Seq<char>>>,
    cands: Seq<CandidateView>,
) -> Seq<(Seq<char>, Seq<char>, u64)>
    decreases groups.len(),
{
    if groups.len() == 0 {
        Seq::empty()
    } else {
        all_removals(snap, root, groups.drop_last(), cands) + group_removals(
            snap,
            root,
            sort_strs(groups.last()),
            cands,
        )
    }
}

/// The trash action of one removal.
pub open spec fn removal_action(r: (Seq<char>, Seq<char>, u64)) -> ActionView {
    trash_view(r.1, "duplicate of "@ + r.0)
}

fn candidate_protected(cands: &Vec<FolderCandidate>, name: &str) -> (r: bool)
    ensures
        r == name_protected(candidates_view(cands@), name@),
{
    let ghost cv = candidates_view(cands@);
    let mut i: usize = 0;
    assert(cv.subrange(0, cv.len() as int) =~= cv);
    while i < cands.len()
        invariant
            i <= cands@.len(),
            cv == candidates_view(cands@),
            name_protected(cv, name@) == name_protected(cv.subrange(i as int, cv.len() as int), name@),
        decreases cands@.len() - i,
    {
        let ghost rest = cv.subrange(i as int, cv.len() as int);
        assert(rest.drop_first() =~= cv.subrange(i + 1, cv.len() as int));
        assert(rest[0] == candidate_view(cands@[i as int]));
        if crate::text::str_eq(cands[i].name.as_str(), name) {
            return match cands[i].decision {
                Decision::Protect { .. } => true,
                _ => false,
            };
        }
        i += 1;
    }
    false
}

fn find_identical(snap: &FsSnapshot, keepers: &Vec<(String, u64)>, path: &str, size: u64, asked: &mut Vec<Query>) -> (r: Option<usize>)
    ensures
        match r {
            Some(k) => k < keepers@.len() && first_identical(*snap, files_view(keepers@), path@, size) == Some(keepers@[k as int].0@),
            None => first_identical(*snap, files_view(keepers@), path@, size) is None,
        },
        extends(old(asked)@, final(asked)@),
{
    let ghost kv = files_view(keepers@);
    let ghost a0 = asked@;
    let mut i: usize = 0;
    assert(kv.subrange(0, kv.len() as int) =~= kv);
    while i < keepers.len()
        invariant
            i <= keepers@.len(),
            kv == files_view(keepers@),
            extends(a0, asked@),
            a0 == old(asked)@,
            first_identical(*snap, kv, path@, size) == first_identical(*snap, kv.subrange(i as int, kv.len() as int), path@, size),
        decreases keepers@.len() - i,
    {
        let ghost rest = kv.subrange(i as int, kv.len() as int);
        assert(rest.drop_first() =~= kv.subrange(i + 1, kv.len() as int));
        assert(rest[0] == (keepers@[i as int].0@, keepers@[i as int].1));
        if keepers[i].1 == size {
            let st = crate::planner::lookup_dest_file(snap, path, keepers[i].0.as_str(), asked);
            match st {
                DestinationFileStatus::IdenticalDuplicate => {
                    return Some(i);
                },
                _ => {},
            }
        }
        i += 1;
    }
    None
}

fn add_file_removals(
    snap: &FsSnapshot,
    keepers: &Vec<(String, u64)>,
    files: &Vec<(String, u64)>,
    actions: &mut Vec<Action>,
    removals: &mut Vec<DuplicateRemoval>,
    asked: &mut Vec<Query>,
)
    requires
        actions_view(old(actions)@) == removals_view(old(removals)@).map_values(
            |x: (Seq<char>, Seq<char>, u64)| removal_action(x),
        ),
    ensures
        removals_view(final(removals)@) == removals_view(old(removals)@) + file_removals(
            *snap,
            files_view(keepers@),
            files_view(files@),
        ),
        actions_view(final(actions)@) == removals_view(final(removals)@).map_values(
            |x: (Seq<char>, Seq<char>, u64)| removal_action(x),
        ),
        extends(old(asked)@, final(asked)@),
{
    let ghost r0 = removals_view(removals@);
    let ghost fv = files_view(files@);
    let ghost kv = files_view(keepers@);
    let ghost a0 = asked@;
    let mut i: usize = 0;
    assert(file_removals(*snap, kv, fv.subrange(0, 0)) =~= Seq::<(Seq<char>, Seq<char>, u64)>::empty());
    assert(r0 + Seq::<(Seq<char>, Seq<char>, u64)>::empty() =~= r0);
    while i < files.len()
        invariant
            i <= files@.len(),
            fv == files_view(files@),
            kv == files_view(keepers@),
            extends(a0, asked@),
            a0 == old(asked)@,
            r0 == removals_view(old(removals)@),
            removals_view(removals@) == r0 + file_removals(*snap, kv, fv.subrange(0, i as int)),
            actions_view(actions@) == removals_view(removals@).map_values(
                |x: (Seq<char>, Seq<char>, u64)| removal_action(x),
            ),
        decreases files@.len() - i,
    {
        assert(fv.subrange(0, i + 1).drop_last() =~= fv.subrange(0, i as int));
        assert(fv.subrange(0, i + 1).last() == (files@[i as int].0@, files@[i as int].1));
        let path = &files[i].0;
        let size = files[i].1;
        match find_identical(snap, keepers, path.as_str(), size, asked) {
            Some(k) => {
                let keep = keepers[k].0.clone();
                let ghost rb = removals_view(removals@);
                let ghost ab = actions_view(actions@);
                let ghost item = (keep@, path@, size);
                actions.push(
                    Action {
                        src: path.clone(),
                        dst: None,
                        op: Op::Trash,
                        reason: Some(concat("duplicate of ", keep.as_str())),
                        undoable: false,
                    },
                );
                removals.push(DuplicateRemoval { keep, remove: path.clone(), size });
                assert(removals_view(removals@) =~= rb.push(item));
                assert(actions_view(actions@) =~= ab.push(removal_action(item)));
                assert(removals_view(removals@).map_values(|x: (Seq<char>, Seq<char>, u64)| removal_action(x))
                    =~= rb.map_values(|x: (Seq<char>, Seq<char>, u64)| removal_action(x)).push(removal_action(item)));
            },
            None => {},
        }
        i += 1;
    }
    assert(fv.subrange(0, fv.len() as int) =~= fv);
}

/// Plans content-verified duplicate-file removals. Only folders sharing a
/// possible-duplicate name group are compared; the alphabetically first
/// folder of a group keeps its files, and only files of the group's other
/// (unprotected) folders that are identical to one of its files are
/// trashed. A protected keeper leaves its group alone.
pub fn plan_duplicate_removals(
    root: &str,
    groups: &Vec<Vec<String>>,
    candidates: &Vec<FolderCandidate>,
    snap: &FsSnapshot,
    asked: &mut Vec<Query>,
) -> (r: (Vec<Action>, Vec<DuplicateRemoval>))
    ensures
        removals_view(r.1@) == all_removals(*snap, root@, groups_view(groups@), candidates_view(candidates@)),
        actions_view(r.0@) == removals_view(r.1@).map_values(
            |x: (Seq<char>, Seq<char>, u64)| removal_action(x),
        ),
        extends(old(asked)@, final(asked)@),
{
    let ghost gv = groups_view(groups@);
    let ghost cv = candidates_view(candidates@);
    let ghost a0 = asked@;
    let mut actions: Vec<Action> = Vec::new();
    let mut removals: Vec<DuplicateRemoval> = Vec::new();
    let mut g: usize = 0;
    assert(removals_view(removals@) =~= Seq::<(Seq<char>, Seq<char>, u64)>::empty());
    assert(actions_view(actions@) =~= Seq::<ActionView>::empty());
    assert(all_removals(*snap, root@, gv.subrange(0, 0), cv) =~= Seq::<(Seq<char>, Seq<char>, u64)>::empty());
    while g < groups.len()
        invariant
            g <= groups@.len(),
            gv == groups_view(groups@),
            cv == candidates_view(candidates@),
            extends(a0, asked@),
            a0 == old(asked)@,
            removals_view(removals@) == all_removals(*snap, root@, gv.subrange(0, g as int), cv),
            actions_view(actions@) == removals_view(removals@).map_values(
                |x: (Seq<char>, Seq<char>, u64)| removal_action(x),
            ),
        decreases groups@.len() - g,
    {
        assert(gv.subrange(0, g + 1).drop_last() =~= gv.subrange(0, g as int));
        assert(gv.subrange(0, g + 1).last() == strings_view(groups@[g as int]@));
        let ghost before = removals_view(removals@);
        let sorted = sort_strings(&groups[g]);
        let ghost sv = strings_view(sorted@);
        proof {
            lemma_sort_len(strings_view(groups@[g as int]@));
        }
        if sorted.len() >= 2 && !candidate_protected(candidates, sorted[0].as_str()) {
            let primary_dir = path_join(root, sorted[0].as_str());
            let keepers = collect_files_for_dedupe(snap, primary_dir.as_str(), asked);
            let ghost kv = files_view(keepers@);
            let mut o: usize = 1;
            let ghost others = sv.drop_first();
            assert(others.subrange(0, 0) =~= Seq::<Seq<char>>::empty());
            assert(before + Seq::<(Seq<char>, Seq<char>, u64)>::empty() =~= before);
            while o < sorted.len()
                invariant
                    1 <= o <= sorted@.len(),
                    sv == strings_view(sorted@),
                    others == sv.drop_first(),
                    kv == files_view(keepers@),
                    kv == dedupe_files(*snap, join(root@, sv[0])),
                    cv == candidates_view(candidates@),
                    extends(a0, asked@),
                    a0 == old(asked)@,
                    removals_view(removals@) == before + others_removals(*snap, root@, kv, others.subrange(0, o - 1), cv),
                    actions_view(actions@) == removals_view(removals@).map_values(
                        |x: (Seq<char>, Seq<char>, u64)| removal_action(x),
                    ),
                decreases sorted@.len() - o,
            {
                assert(others.subrange(0, o as int).drop_last() =~= others.subrange(0, o - 1));
                assert(others.subrange(0, o as int).last() == sorted@[o as int]@);
                let ghost mid = removals_view(removals@);
                if !candidate_protected(candidates, sorted[o].as_str()) {
                    let other_dir = path_join(root, sorted[o].as_str());
                    let files = collect_files_for_dedupe(snap, other_dir.as_str(), asked);
                    add_file_removals(snap, &keepers, &files, &mut actions, &mut removals, asked);
                    assert(removals_view(removals@) =~= before + others_removals(*snap, root@, kv, others.subrange(0, o as int), cv));
                }
                o += 1;
            }
            assert(others.subrange(0, others.len() as int) =~= others);
        } else {
            assert(before + Seq::<(Seq<char>, Seq<char>, u64)>::empty() =~= before);
        }
        g += 1;
    }
    assert(gv.subrange(0, gv.len() as int) =~= gv);
    (actions, removals)
}

proof fn lemma_first_identical(snap: FsSnapshot, keepers: Seq<(Seq<char>, u64)>, path: Seq<char>, size: u64)
    ensures
        first_identical(snap, keepers, path, size) matches Some(k) ==> identical_at(snap, k, path)
            && keepers.contains((k, size)),
    decreases keepers.len(),
{
    if keepers.len() > 0 {
        lemma_first_identical(snap, keepers.drop_first(), path, size);
        if !(keepers[0].1 == size && identical_at(snap, keepers[0].0, path)) {
            if let Some(k) = first_identical(snap, keepers.drop_first(), path, size) {
                let w = choose|w: int| 0 <= w < keepers.drop_first().len() && keepers.drop_first()[w] == (k, size);
                assert(keepers[w + 1] == (k, size));
            }
        } else {
            assert(keepers[0] == (keepers[0].0, size));
        }
    }
}

pub open spec fn removals_verified(snap: FsSnapshot, rs: Seq<(Seq<char>, Seq<char>, u64)>) -> bool {
    forall|i: int| 0 <= i < rs.len() ==> identical_at(snap, (#[trigger] rs[i]).0, rs[i].1)
}

proof fn lemma_file_removals(snap: FsSnapshot, keepers: Seq<(Seq<char>, u64)>, files: Seq<(Seq<char>, u64)>)
    ensures
        removals_verified(snap, file_removals(snap, keepers, files)),
    decreases files.len(),
{
    if files.len() > 0 {
        lemma_file_removals(snap, keepers, files.drop_last());
        lemma_first_identical(snap, keepers, files.last().0, files.last().1);
    }
}

proof fn lemma_others_removals(
    snap: FsSnapshot,
    root: Seq<char>,
    keepers: Seq<(Seq<char>, u64)>,
    others: Seq<Seq<char>>,
    cands: Seq<CandidateView>,
)
    ensures
        removals_verified(snap, others_removals(snap, root, keepers, others, cands)),
    decreases others.len(),
{
    if others.len() > 0 {
        lemma_others_removals(snap, root, keepers, others.drop_last(), cands);
        let prev = others_removals(snap, root, keepers, others.drop_last(), cands);
        let fr = file_removals(snap, keepers, dedupe_files(snap, join(root, others.last())));
        lemma_file_removals(snap, keepers, dedupe_files(snap, join(root, others.last())));
        let all = others_removals(snap, root, keepers, others, cands);
        if !name_protected(cands, others.last()) {
            assert forall|i: int| 0 <= i < all.len() implies identical_at(snap, (#[trigger] all[i]).0, all[i].1) by {
                if i < prev.len() {
                    assert(all[i] == prev[i]);
                } else {
                    assert(all[i] == fr[i - prev.len()]);
                }
            }
        }
    }
}

/// A file is only ever removed after it was found byte-for-byte identical
/// to the file kept in its place.
pub proof fn law_duplicates_removed_only_when_identical(
    snap: FsSnapshot,
    root: Seq<char>,
    groups: Seq<Seq<Seq<char>>>,
    cands: Seq<CandidateView>,
)
    ensures
        removals_verified(snap, all_removals(snap, root, groups, cands)),
    decreases groups.len(),
{
    if groups.len() > 0 {
        law_duplicates_removed_only_when_identical(snap, root, groups.drop_last(), cands);
        let prev = all_removals(snap, root, groups.drop_last(), cands);
        let sorted = sort_strs(groups.last());
        let gr = group_removals(snap, root, sorted, cands);
        if !(sorted.len() < 2 || name_protected(cands, sorted[0])) {
            lemma_others_removals(snap, root, dedupe_files(snap, join(root, sorted[0])), sorted.drop_first(), cands);
        }
        let all = all_removals(snap, root, groups, cands);
        assert forall|i: int| 0 <= i < all.len() implies identical_at(snap, (#[trigger] all[i]).0, all[i].1) by {
            if i < prev.len() {
                assert(all[i] == prev[i]);
            } else {
                assert(all[i] == gr[i - prev.len()]);
            }
        }
    }
}

} // verus!
