//! Planning: turning scanned entries plus a policy into a `Plan` of
//! explicit actions, without touching the filesystem.
//!
//! Everything the original decision needs to know about the live
//! filesystem (what occupies a path, whether a destination file already
//! holds identical content, a file's modification time) arrives as an
//! `FsSnapshot` of observations. A path the snapshot does not describe is
//! treated fail-closed (occupied, symlinked, unreadable), and is appended
//! to the caller's list of `Query`s so that it can be observed and the
//! plan recomputed.
use vstd::prelude::*;
use crate::classifier::{classification, CategoryDB};
use crate::config::{
    by_priority,
    derefs,
    rule_label,
    rules_by_priority,
    template_render,
    valid_dest,
    validate_rule_destination,
    DateMetadata,
    DateSource,
    EffectivePolicy,
    OrganizeStrategy,
    Rule,
    Template,
    TemplateView,
    UnknownPolicy,
};
use crate::domain::{Action, Category, Entry, Op, Plan};
use crate::path::{
    components,
    file_name,
    insert_all_sorted,
    insert_path_sorted,
    join,
    path_components,
    path_file_name,
    path_join,
    push_all,
    comps_view,
    path_strip_prefix,
    strip_prefix,
    strings_view,
    comp_string,
    Comp,
    path_order,
    Order3,
};
use crate::scanner::{
    name_or_empty,
    file_name_or_empty,
    protection_reason,
    protection_spec,
    opt_str_view,
};
use crate::text::{
    string_of,
    concat,
    concat3,
    contains_seq,
    str_contains,
    lower_seq,
    starts_with,
    str_eq,
    chars_of,
    dec_padded,
    dec_signed_padded,
    fmt_i64,
    fmt_u64,
};
use crate::utils::civil_of;

verus! {

// ------------------------------------------------------------ observations

/// What a no-follow look at one path found.
#[derive(Debug, Clone, Copy, PartialEq, Eq, Structural)]
pub enum PathKind {
    Absent,
    Dir,
    File,
    Symlink,
    /// Anything else (a socket, a device) or unreadable metadata.
    Other,
}

/// Whether a destination directory level is usable.
#[derive(Debug, Clone, Copy, PartialEq, Eq, Structural)]
pub enum DirStatus {
    Exists,
    Missing,
    Blocked,
}

/// The stem of one file name: the text before its extension (the whole
/// name when it has none).
pub open spec fn name_stem(name: Seq<char>) -> Seq<char> {
    let k = crate::path::last_dot(name);
    if k <= 0 {
        name
    } else {
        name.subrange(0, k)
    }
}

/// The `n`th alternative to an occupied destination: `"stem (n).ext"`
/// (or `"stem (n)"`) next to it; nothing when the path has no file name.
pub open spec fn renamed_candidate_spec(dest: Seq<char>, n: nat) -> Option<Seq<char>> {
    match (crate::path::parent_path(dest), file_name(dest)) {
        (Some(p), Some(f)) => Some(join(
            p,
            name_stem(f) + " ("@ + crate::text::dec(n) + ")"@ + match crate::path::name_extension(f) {
                Some(e) => "."@ + e,
                None => ""@,
            },
        )),
        _ => None,
    }
}

/// The `n`th free-name candidate tried when a different file already
/// holds `dest`'s name.
pub fn renamed_candidate(dest: &str, n: u32) -> (r: Option<String>)
    ensures
        match r {
            Some(s) => renamed_candidate_spec(dest@, n as nat) == Some(s@),
            None => renamed_candidate_spec(dest@, n as nat) is None,
        },
{
    let parent = crate::path::path_parent(dest);
    let name = path_file_name(dest);
    match (parent, name) {
        (Some(p), Some(f)) => {
            let v = chars_of(f.as_str());
            let mut j: usize = v.len();
            assert(v@.subrange(0, j as int) =~= v@);
            while j > 0 && v[j - 1] != '.'
                invariant
                    j <= v@.len(),
                    v@ == f@,
                    crate::path::last_dot(v@) == crate::path::last_dot(v@.subrange(0, j as int)),
                decreases j,
            {
                assert(v@.subrange(0, j as int).drop_last() =~= v@.subrange(0, j - 1));
                j -= 1;
            }
            proof {
                if j >= 1 {
                    assert(v@.subrange(0, j as int).last() == '.');
                }
            }
            let stem = if j <= 1 {
                f.clone()
            } else {
                string_of(&v, 0, j - 1)
            };
            let ext = crate::path::name_ext(f.as_str());
            let d = fmt_u64(n as u64, 0);
            let mut cand = stem;
            cand.append(" (");
            cand.append(d.as_str());
            cand.append(")");
            match ext {
                Some(e) => {
                    let dotted = concat(".", e.as_str());
                    cand.append(dotted.as_str());
                },
                None => {
                    cand.append("");
                },
            }
            Some(path_join(p.as_str(), cand.as_str()))
        },
        _ => None,
    }
}

/// The first of the candidates `n`, `n + 1`, ... (up to 9999) that is
/// not among `occupied`; nothing when they are all taken or `dest` has no
/// file name.
pub open spec fn first_free_from(dest: Seq<char>, occupied: Seq<Seq<char>>, n: nat) -> Option<Seq<char>>
    decreases 10000 - n,
{
    if n > 9999 {
        None
    } else {
        match renamed_candidate_spec(dest, n) {
            None => None,
            Some(c) => if occupied.contains(c) {
                first_free_from(dest, occupied, n + 1)
            } else {
                Some(c)
            },
        }
    }
}

/// The free name a renamed move takes: `"stem (n).ext"` next to `dest`
/// for the least `n >= 1` whose path is not among `occupied` (the paths
/// that exist next to `dest`).
pub fn least_free_candidate(dest: &str, occupied: &Vec<String>) -> (r: Option<String>)
    ensures
        opt_view(r) == first_free_from(dest@, strings_view(occupied@), 1),
{
    let mut n: u32 = 1;
    while n <= 9999
        invariant
            1 <= n <= 10000,
            first_free_from(dest@, strings_view(occupied@), 1) == first_free_from(
                dest@,
                strings_view(occupied@),
                n as nat,
            ),
        decreases 10000 - n,
    {
        match renamed_candidate(dest, n) {
            None => {
                return None;
            },
            Some(c) => {
                if !contains_str(occupied, c.as_str()) {
                    return Some(c);
                }
            },
        }
        n += 1;
    }
    None
}

/// What a computed destination file path turned out to hold.
#[derive(Debug)]
pub enum DestinationFileStatus<S> {
    /// Nothing exists there.
    Clear,
    /// A regular file with byte-identical content already exists there.
    IdenticalDuplicate,
    /// A different file occupies the name; this free alternative name
    /// (`"name (1).ext"`, ...) was found next to it.
    Renamed(S),
    /// Occupied by something automatic resolution must never touch.
    Blocked,
}

pub open spec fn dfs_view(s: DestinationFileStatus<String>) -> DestinationFileStatus<Seq<char>> {
    match s {
        DestinationFileStatus::Clear => DestinationFileStatus::Clear,
        DestinationFileStatus::IdenticalDuplicate => DestinationFileStatus::IdenticalDuplicate,
        DestinationFileStatus::Renamed(p) => DestinationFileStatus::Renamed(p@),
        DestinationFileStatus::Blocked => DestinationFileStatus::Blocked,
    }
}

/// An observation the planner needed but the snapshot did not hold.
#[derive(Debug)]
pub enum Query {
    /// What occupies this path (no-follow).
    Kind(String),
    /// What the destination (second) holds relative to the source (first).
    DestFile(String, String),
    /// The modification time of this file, in whole seconds since the epoch.
    Mtime(String),
    /// The entries of this directory (no-follow, sorted by path).
    List(String),
    /// Whether this directory holds its own `.sift.toml`, and what it
    /// validates to.
    LocalPolicy(String),
    /// The description (no-follow) of this path, or that it is gone.
    Describe(String),
    /// The content metadata of this file, as this strategy reads it.
    Media(String, OrganizeStrategy),
}

/// The filesystem observations a plan is computed against.
#[derive(Debug)]
pub struct FsSnapshot {
    pub kinds: Vec<(String, PathKind)>,
    /// `(source, destination, status)`.
    pub dest_files: Vec<(String, String, DestinationFileStatus<String>)>,
    /// A file's modification time, or the reason it could not be read.
    pub mtimes: Vec<(String, Result<i64, String>)>,
    /// A directory's scanned entries, sorted by path.
    pub listings: Vec<(String, Vec<Entry>)>,
    /// A directory's own `.sift.toml`: `None` when it has none, otherwise
    /// the validated policy or the reason it is invalid.
    pub local_policies: Vec<(String, Option<Result<EffectivePolicy, String>>)>,
    /// The description of one path (`None`: it does not exist).
    pub described: Vec<(String, Option<Entry>)>,
    /// The content metadata read from one file.
    pub media: Vec<(String, MediaRead)>,
}

/// What reading one file's content metadata gave.
#[derive(Debug)]
pub enum MediaRead {
    Audio(Result<crate::metadata::AudioMetadata, String>),
    Video(Result<crate::metadata::VideoMetadata, String>),
    Photo(Result<crate::metadata::PhotoMetadata, String>),
    Document(Result<crate::metadata::DocumentMetadata, String>),
}

pub open spec fn kind_at(kinds: Seq<(String, PathKind)>, p: Seq<char>) -> Option<PathKind>
    decreases kinds.len(),
{
    if kinds.len() == 0 {
        None
    } else if kinds[0].0@ == p {
        Some(kinds[0].1)
    } else {
        kind_at(kinds.drop_first(), p)
    }
}

/// A destination directory level: a real directory, nothing, or anything
/// else (including an unobserved path).
pub open spec fn dir_status_at(snap: FsSnapshot, p: Seq<char>) -> DirStatus {
    match kind_at(snap.kinds@, p) {
        Some(PathKind::Dir) => DirStatus::Exists,
        Some(PathKind::Absent) => DirStatus::Missing,
        _ => DirStatus::Blocked,
    }
}

/// Whether `p` is (or, unobserved, must be assumed to be) a symlink.
pub open spec fn symlink_at(snap: FsSnapshot, p: Seq<char>) -> bool {
    match kind_at(snap.kinds@, p) {
        Some(PathKind::Symlink) => true,
        None => true,
        _ => false,
    }
}

pub open spec fn dest_file_in(
    files: Seq<(String, String, DestinationFileStatus<String>)>,
    src: Seq<char>,
    dest: Seq<char>,
) -> DestinationFileStatus<Seq<char>>
    decreases files.len(),
{
    if files.len() == 0 {
        DestinationFileStatus::Blocked
    } else if files[0].0@ == src && files[0].1@ == dest {
        dfs_view(files[0].2)
    } else {
        dest_file_in(files.drop_first(), src, dest)
    }
}

pub open spec fn dest_file_at(snap: FsSnapshot, src: Seq<char>, dest: Seq<char>) -> DestinationFileStatus<
    Seq<char>,
> {
    dest_file_in(snap.dest_files@, src, dest)
}

pub open spec fn mtime_in(ms: Seq<(String, Result<i64, String>)>, p: Seq<char>) -> Result<
    i64,
    Seq<char>,
>
    decreases ms.len(),
{
    if ms.len() == 0 {
        Err("cannot read metadata: not observed"@)
    } else if ms[0].0@ == p {
        match ms[0].1 {
            Ok(t) => Ok(t),
            Err(e) => Err(e@),
        }
    } else {
        mtime_in(ms.drop_first(), p)
    }
}

/// Whether the snapshot holds the destination status of `(src, dest)`.
pub open spec fn dest_file_observed(
    files: Seq<(String, String, DestinationFileStatus<String>)>,
    src: Seq<char>,
    dest: Seq<char>,
) -> bool {
    exists|i: int| 0 <= i < files.len() && files[i].0@ == src && files[i].1@ == dest
}

/// Whether the snapshot holds the modification time (or its error) of `p`.
pub open spec fn mtime_observed(ms: Seq<(String, Result<i64, String>)>, p: Seq<char>) -> bool {
    exists|i: int| 0 <= i < ms.len() && ms[i].0@ == p
}

/// Whether the snapshot holds the description of `p`.
pub open spec fn described_observed(ds: Seq<(String, Option<Entry>)>, p: Seq<char>) -> bool {
    exists|i: int| 0 <= i < ds.len() && ds[i].0@ == p
}

/// Whether the snapshot holds what directory `d`'s own policy file gives.
pub open spec fn policy_observed(
    ls: Seq<(String, Option<Result<EffectivePolicy, String>>)>,
    d: Seq<char>,
) -> bool {
    exists|i: int| 0 <= i < ls.len() && ls[i].0@ == d
}

/// `a` is kept as a prefix of `b`: only appended to.
pub open spec fn extends(a: Seq<Query>, b: Seq<Query>) -> bool {
    a.len() <= b.len() && forall|i: int| 0 <= i < a.len() ==> b[i] == a[i]
}

/// `b` is `a` with the one query `q` appended.
pub open spec fn asks_one(a: Seq<Query>, b: Seq<Query>, q: QueryView) -> bool {
    b.len() == a.len() + 1 && extends(a, b) && query_view(b.last()) == q
}

/// A query by its plain values.
pub enum QueryView {
    Kind(Seq<char>),
    DestFile(Seq<char>, Seq<char>),
    Mtime(Seq<char>),
    List(Seq<char>),
    LocalPolicy(Seq<char>),
    Describe(Seq<char>),
    Media(Seq<char>, OrganizeStrategy),
}

pub open spec fn query_view(q: Query) -> QueryView {
    match q {
        Query::Kind(p) => QueryView::Kind(p@),
        Query::DestFile(s, d) => QueryView::DestFile(s@, d@),
        Query::Mtime(p) => QueryView::Mtime(p@),
        Query::List(p) => QueryView::List(p@),
        Query::LocalPolicy(p) => QueryView::LocalPolicy(p@),
        Query::Describe(p) => QueryView::Describe(p@),
        Query::Media(p, st) => QueryView::Media(p@, st),
    }
}

/// A lookup either found its observation and asked nothing, or found none
/// and asked exactly for it.
pub open spec fn lookup_asked(a: Seq<Query>, b: Seq<Query>, found: bool, q: QueryView) -> bool {
    if found {
        b == a
    } else {
        asks_one(a, b, q)
    }
}

fn lookup_kind(snap: &FsSnapshot, p: &str, asked: &mut Vec<Query>) -> (r: Option<PathKind>)
    ensures
        r == kind_at(snap.kinds@, p@),
        extends(old(asked)@, final(asked)@),
        lookup_asked(old(asked)@, final(asked)@, r is Some, QueryView::Kind(p@)),
{
    let mut i: usize = 0;
    assert(snap.kinds@.subrange(0, snap.kinds@.len() as int) =~= snap.kinds@);
    while i < snap.kinds.len()
        invariant
            i <= snap.kinds@.len(),
            kind_at(snap.kinds@, p@) == kind_at(
                snap.kinds@.subrange(i as int, snap.kinds@.len() as int),
                p@,
            ),
        decreases snap.kinds@.len() - i,
    {
        let ghost rest = snap.kinds@.subrange(i as int, snap.kinds@.len() as int);
        assert(rest.drop_first() =~= snap.kinds@.subrange(i + 1, snap.kinds@.len() as int));
        assert(rest[0] == snap.kinds@[i as int]);
        if str_eq(snap.kinds[i].0.as_str(), p) {
            return Some(snap.kinds[i].1);
        }
        i += 1;
    }
    asked.push(Query::Kind(p.to_owned()));
    None
}

/// What the snapshot records at `p` (`None`, and a query, when unobserved).
pub fn observed_kind(snap: &FsSnapshot, p: &str, asked: &mut Vec<Query>) -> (r: Option<PathKind>)
    ensures
        r == kind_at(snap.kinds@, p@),
        extends(old(asked)@, final(asked)@),
        lookup_asked(old(asked)@, final(asked)@, r is Some, QueryView::Kind(p@)),
{
    lookup_kind(snap, p, asked)
}

/// Whether a destination directory level is usable.
pub fn dir_status(snap: &FsSnapshot, p: &str, asked: &mut Vec<Query>) -> (r: DirStatus)
    ensures
        r == dir_status_at(*snap, p@),
        extends(old(asked)@, final(asked)@),
        lookup_asked(
            old(asked)@,
            final(asked)@,
            kind_at(snap.kinds@, p@) is Some,
            QueryView::Kind(p@),
        ),
{
    match lookup_kind(snap, p, asked) {
        Some(PathKind::Dir) => DirStatus::Exists,
        Some(PathKind::Absent) => DirStatus::Missing,
        _ => DirStatus::Blocked,
    }
}

fn clone_dfs(s: &DestinationFileStatus<String>) -> (r: DestinationFileStatus<String>)
    ensures
        dfs_view(r) == dfs_view(*s),
{
    match s {
        DestinationFileStatus::Clear => DestinationFileStatus::Clear,
        DestinationFileStatus::IdenticalDuplicate => DestinationFileStatus::IdenticalDuplicate,
        DestinationFileStatus::Renamed(p) => DestinationFileStatus::Renamed(p.clone()),
        DestinationFileStatus::Blocked => DestinationFileStatus::Blocked,
    }
}

pub(crate) fn lookup_dest_file(snap: &FsSnapshot, src: &str, dest: &str, asked: &mut Vec<Query>) -> (r:
    DestinationFileStatus<String>)
    ensures
        dfs_view(r) == dest_file_at(*snap, src@, dest@),
        extends(old(asked)@, final(asked)@),
        lookup_asked(
            old(asked)@,
            final(asked)@,
            dest_file_observed(snap.dest_files@, src@, dest@),
            QueryView::DestFile(src@, dest@),
        ),
{
    let mut i: usize = 0;
    let ghost fs = snap.dest_files@;
    assert(fs.subrange(0, fs.len() as int) =~= fs);
    while i < snap.dest_files.len()
        invariant
            i <= fs.len(),
            fs == snap.dest_files@,
            forall|j: int| 0 <= j < i ==> !(fs[j].0@ == src@ && fs[j].1@ == dest@),
            dest_file_in(fs, src@, dest@) == dest_file_in(
                fs.subrange(i as int, fs.len() as int),
                src@,
                dest@,
            ),
        decreases fs.len() - i,
    {
        let ghost rest = fs.subrange(i as int, fs.len() as int);
        assert(rest.drop_first() =~= fs.subrange(i + 1, fs.len() as int));
        assert(rest[0] == fs[i as int]);
        let item = &snap.dest_files[i];
        if str_eq(item.0.as_str(), src) && str_eq(item.1.as_str(), dest) {
            return clone_dfs(&item.2);
        }
        i += 1;
    }
    asked.push(Query::DestFile(src.to_owned(), dest.to_owned()));
    DestinationFileStatus::Blocked
}

fn lookup_mtime(snap: &FsSnapshot, p: &str, asked: &mut Vec<Query>) -> (r: Result<i64, String>)
    ensures
        match r {
            Ok(t) => mtime_in(snap.mtimes@, p@) == Ok::<i64, Seq<char>>(t),
            Err(e) => mtime_in(snap.mtimes@, p@) == Err::<i64, Seq<char>>(e@),
        },
        extends(old(asked)@, final(asked)@),
        lookup_asked(
            old(asked)@,
            final(asked)@,
            mtime_observed(snap.mtimes@, p@),
            QueryView::Mtime(p@),
        ),
{
    let mut i: usize = 0;
    let ghost ms = snap.mtimes@;
    assert(ms.subrange(0, ms.len() as int) =~= ms);
    while i < snap.mtimes.len()
        invariant
            i <= ms.len(),
            ms == snap.mtimes@,
            forall|j: int| 0 <= j < i ==> ms[j].0@ != p@,
            mtime_in(ms, p@) == mtime_in(ms.subrange(i as int, ms.len() as int), p@),
        decreases ms.len() - i,
    {
        let ghost rest = ms.subrange(i as int, ms.len() as int);
        assert(rest.drop_first() =~= ms.subrange(i + 1, ms.len() as int));
        assert(rest[0] == ms[i as int]);
        let item = &snap.mtimes[i];
        if str_eq(item.0.as_str(), p) {
            return match &item.1 {
                Ok(t) => Ok(*t),
                Err(e) => Err(e.clone()),
            };
        }
        i += 1;
    }
    asked.push(Query::Mtime(p.to_owned()));
    proof {
        reveal_strlit("cannot read metadata: not observed");
    }
    Err("cannot read metadata: not observed".to_owned())
}

// ------------------------------------------------------------------ rules

/// `s` without its `*` characters.
pub open spec fn strip_stars(s: Seq<char>) -> Seq<char>
    decreases s.len(),
{
    if s.len() == 0 {
        s
    } else if s.last() == '*' {
        strip_stars(s.drop_last())
    } else {
        strip_stars(s.drop_last()).push(s.last())
    }
}

/// A rule pattern matches on the file name: with a `*` anywhere, the
/// pattern's other characters must occur contiguously in the name;
/// without one, the name must equal the pattern.
pub open spec fn glob_spec(pattern: Seq<char>, path: Seq<char>) -> bool {
    let fname = name_or_empty(path);
    if pattern.contains('*') {
        contains_seq(fname, strip_stars(pattern))
    } else {
        fname == pattern
    }
}

pub fn glob_match(pattern: &str, path: &str) -> (r: bool)
    ensures
        r == glob_spec(pattern@, path@),
{
    let fname = file_name_or_empty(path);
    let v = chars_of(pattern);
    let mut needle = String::new();
    let mut star = false;
    let mut i: usize = 0;
    while i < v.len()
        invariant
            i <= v@.len(),
            v@ == pattern@,
            needle@ == strip_stars(v@.subrange(0, i as int)),
            star == v@.subrange(0, i as int).contains('*'),
        decreases v@.len() - i,
    {
        let ghost pre = v@.subrange(0, i as int);
        assert(v@.subrange(0, i + 1).drop_last() =~= pre);
        assert(v@.subrange(0, i + 1).last() == v@[i as int]);
        if v[i] == '*' {
            star = true;
            assert(v@.subrange(0, i + 1)[i as int] == '*');
        } else {
            needle.push(v[i]);
            proof {
                if !pre.contains('*') {
                    assert forall|k: int| 0 <= k < i + 1 implies #[trigger] v@.subrange(0, i + 1)[k] != '*' by {
                        if k < i {
                            assert(v@.subrange(0, i + 1)[k] == pre[k]);
                        }
                    }
                } else {
                    let k = choose|k: int| 0 <= k < pre.len() && pre[k] == '*';
                    assert(v@.subrange(0, i + 1)[k] == '*');
                }
            }
        }
        i += 1;
    }
    assert(v@.subrange(0, v@.len() as int) =~= v@);
    if star {
        str_contains(fname.as_str(), needle.as_str())
    } else {
        str_eq(fname.as_str(), pattern)
    }
}

// -------------------------------------------------------------- decisions

/// What drove one entry's decision (reported by `explain`).
#[derive(Debug)]
pub enum DecisionCause<S> {
    /// A categorical safety boundary.
    Protected(S),
    /// An explicit rule matched.
    Rule { pattern: S, action: S, destination: Option<S> },
    /// The built-in junk list.
    BuiltinJunk,
    /// `strategy = "type"` classified the file into a specific category.
    Classified(Category),
    /// `strategy = "type"` found no specific category.
    UnknownFallback(UnknownPolicy),
    /// `strategy = "date"` rendered a destination from this date.
    DateMatched(DateMetadata),
    /// `strategy = "date"` could not obtain a date (never a fallback).
    DateUnavailable(S),
    /// A metadata strategy rendered a destination from the file's metadata.
    MetadataMatched,
    /// A metadata strategy could not read, or did not find, what its
    /// template needs (never a fallback).
    MetadataUnavailable(S),
}

/// The classification of one entry, before collision checking.
#[derive(Debug)]
pub enum Decision<S> {
    Skip(S, DecisionCause<S>),
    Trash(S, DecisionCause<S>),
    Move { dest_dir: S, reason: S, cause: DecisionCause<S> },
}

pub open spec fn opt_view(o: Option<String>) -> Option<Seq<char>> {
    match o {
        Some(s) => Some(s@),
        None => None,
    }
}

pub open spec fn cause_view(c: DecisionCause<String>) -> DecisionCause<Seq<char>> {
    match c {
        DecisionCause::Protected(r) => DecisionCause::Protected(r@),
        DecisionCause::Rule { pattern, action, destination } => DecisionCause::Rule {
            pattern: pattern@,
            action: action@,
            destination: opt_view(destination),
        },
        DecisionCause::BuiltinJunk => DecisionCause::BuiltinJunk,
        DecisionCause::Classified(c) => DecisionCause::Classified(c),
        DecisionCause::UnknownFallback(u) => DecisionCause::UnknownFallback(u),
        DecisionCause::DateMatched(d) => DecisionCause::DateMatched(d),
        DecisionCause::DateUnavailable(m) => DecisionCause::DateUnavailable(m@),
        DecisionCause::MetadataMatched => DecisionCause::MetadataMatched,
        DecisionCause::MetadataUnavailable(m) => DecisionCause::MetadataUnavailable(m@),
    }
}

pub open spec fn decision_view(d: Decision<String>) -> Decision<Seq<char>> {
    match d {
        Decision::Skip(r, c) => Decision::Skip(r@, cause_view(c)),
        Decision::Trash(r, c) => Decision::Trash(r@, cause_view(c)),
        Decision::Move { dest_dir, reason, cause } => Decision::Move {
            dest_dir: dest_dir@,
            reason: reason@,
            cause: cause_view(cause),
        },
    }
}

/// `Path::join` of each plain component of `rel` onto `base`, refusing
/// any non-plain component and any level that is (or may be) a symlink.
pub open spec fn safe_join_comps(snap: FsSnapshot, cur: Seq<char>, cs: Seq<Comp<Seq<char>>>) -> Option<
    Seq<char>,
>
    decreases cs.len(),
{
    if cs.len() == 0 {
        Some(cur)
    } else {
        match cs[0] {
            Comp::Normal(part) => {
                let next = join(cur, part);
                if symlink_at(snap, next) {
                    None
                } else {
                    safe_join_comps(snap, next, cs.drop_first())
                }
            },
            _ => None,
        }
    }
}

pub open spec fn safe_join_spec(snap: FsSnapshot, base: Seq<char>, rel: Seq<char>) -> Option<Seq<char>> {
    safe_join_comps(snap, base, components(rel))
}

/// Whether the snapshot holds every observation that `safe_join_comps`
/// consults (the kind of each level it reaches).
pub open spec fn safe_join_observed(snap: FsSnapshot, cur: Seq<char>, cs: Seq<Comp<Seq<char>>>) -> bool
    decreases cs.len(),
{
    if cs.len() == 0 {
        true
    } else {
        match cs[0] {
            Comp::Normal(part) => {
                let next = join(cur, part);
                kind_at(snap.kinds@, next) is Some && (symlink_at(snap, next) || safe_join_observed(
                    snap,
                    next,
                    cs.drop_first(),
                ))
            },
            _ => true,
        }
    }
}

/// A step that appends to `asked` leaves it as it was exactly when every
/// observation it consulted was in the snapshot; two such steps in a row
/// do so exactly when both did.
pub proof fn lemma_asked_seq(a: Seq<Query>, b: Seq<Query>, c: Seq<Query>)
    requires
        extends(a, b),
        extends(b, c),
    ensures
        extends(a, c),
        (c == a) <==> (b == a && c == b),
{
    if c == a {
        assert(b.len() == a.len());
        assert(b =~= a);
    }
}

/// Joins `rel` onto `base`, refusing to cross through any symlink level
/// (including the last) and any component that is not a plain name.
pub fn safe_join_under(snap: &FsSnapshot, base: &str, rel: &str, asked: &mut Vec<Query>) -> (r:
    Option<String>)
    ensures
        opt_view(r) == safe_join_spec(*snap, base@, rel@),
        extends(old(asked)@, final(asked)@),
        final(asked)@ == old(asked)@ <==> safe_join_observed(*snap, base@, components(rel@)),
{
    let cs = path_components(rel);
    let mut cur = base.to_owned();
    let mut i: usize = 0;
    assert(comps_view(cs@).subrange(0, cs@.len() as int) =~= comps_view(cs@));
    while i < cs.len()
        invariant
            i <= cs@.len(),
            comps_view(cs@) == components(rel@),
            safe_join_spec(*snap, base@, rel@) == safe_join_comps(
                *snap,
                cur@,
                comps_view(cs@).subrange(i as int, cs@.len() as int),
            ),
            extends(old(asked)@, asked@),
            safe_join_observed(*snap, base@, components(rel@)) == (asked@ == old(asked)@
                && safe_join_observed(*snap, cur@, comps_view(cs@).subrange(i as int, cs@.len() as int))),
        decreases cs@.len() - i,
    {
        let ghost rest = comps_view(cs@).subrange(i as int, cs@.len() as int);
        assert(rest.drop_first() =~= comps_view(cs@).subrange(i + 1, cs@.len() as int));
        assert(rest[0] == crate::path::comp_view(cs@[i as int]));
        match &cs[i] {
            Comp::Normal(part) => {
                let next = path_join(cur.as_str(), part.as_str());
                let ghost before = asked@;
                let found = lookup_kind(snap, next.as_str(), asked);
                proof {
                    lemma_asked_seq(old(asked)@, before, asked@);
                    if found is None {
                        assert(asked@.len() != old(asked)@.len());
                    }
                }
                match found {
                    Some(PathKind::Symlink) | None => {
                        return None;
                    },
                    _ => {},
                }
                cur = next;
            },
            _ => {
                return None;
            },
        }
        i += 1;
    }
    Some(cur)
}

pub open spec fn rule_reason(r: Rule) -> Seq<char> {
    match r.description {
        Some(d) => d@,
        None => "config rule: "@ + rule_label(r),
    }
}

pub open spec fn rule_cause(r: Rule) -> DecisionCause<Seq<char>> {
    DecisionCause::Rule {
        pattern: r.pattern@,
        action: r.action@,
        destination: opt_view(r.destination),
    }
}

/// What one matching rule decides.
pub open spec fn rule_outcome(snap: FsSnapshot, r: Rule, target: Seq<char>) -> Decision<Seq<char>> {
    let reason = rule_reason(r);
    let cause = rule_cause(r);
    if r.action@ == "Skip"@ {
        Decision::Skip(reason, cause)
    } else if r.action@ == "Trash"@ {
        Decision::Trash(reason, cause)
    } else if r.action@ == "Move"@ {
        match r.destination {
            None => Decision::Skip("move rule missing destination"@, cause),
            Some(d) => if !valid_dest(d@) {
                Decision::Skip("unsafe config destination"@, cause)
            } else {
                match safe_join_spec(snap, target, d@) {
                    Some(dd) => Decision::Move { dest_dir: dd, reason, cause },
                    None => Decision::Skip("unsafe config destination"@, cause),
                }
            },
        }
    } else {
        Decision::Skip("invalid rule config"@, cause)
    }
}

/// Whether the snapshot holds every observation `rule_outcome` consults.
pub open spec fn rule_outcome_observed(snap: FsSnapshot, r: Rule, target: Seq<char>) -> bool {
    if r.action@ != "Skip"@ && r.action@ != "Trash"@ && r.action@ == "Move"@ {
        match r.destination {
            Some(d) => valid_dest(d@) ==> safe_join_observed(snap, target, components(d@)),
            None => true,
        }
    } else {
        true
    }
}

/// Whether the snapshot holds every observation `rule_decision_spec`
/// consults.
pub open spec fn rule_decision_observed(
    snap: FsSnapshot,
    path: Seq<char>,
    target: Seq<char>,
    rules: Seq<Rule>,
) -> bool
    decreases rules.len(),
{
    if rules.len() == 0 {
        true
    } else if glob_spec(rules[0].pattern@, path) {
        rule_outcome_observed(snap, rules[0], target)
    } else {
        rule_decision_observed(snap, path, target, rules.drop_first())
    }
}

/// The first rule (in the given order) whose pattern matches decides.
pub open spec fn rule_decision_spec(
    snap: FsSnapshot,
    path: Seq<char>,
    target: Seq<char>,
    rules: Seq<Rule>,
) -> Option<Decision<Seq<char>>>
    decreases rules.len(),
{
    if rules.len() == 0 {
        None
    } else if glob_spec(rules[0].pattern@, path) {
        Some(rule_outcome(snap, rules[0], target))
    } else {
        rule_decision_spec(snap, path, target, rules.drop_first())
    }
}

pub open spec fn opt_decision_view(d: Option<Decision<String>>) -> Option<Decision<Seq<char>>> {
    match d {
        Some(x) => Some(decision_view(x)),
        None => None,
    }
}

fn rule_reason_of(rule: &Rule) -> (r: String)
    ensures
        r@ == rule_reason(*rule),
{
    match &rule.description {
        Some(d) => d.clone(),
        None => concat("config rule: ", rule.label()),
    }
}

fn rule_cause_of(rule: &Rule) -> (r: DecisionCause<String>)
    ensures
        cause_view(r) == rule_cause(*rule),
{
    DecisionCause::Rule {
        pattern: rule.pattern.clone(),
        action: rule.action.clone(),
        destination: crate::domain::clone_opt_string(&rule.destination),
    }
}

fn rule_outcome_of(snap: &FsSnapshot, rule: &Rule, target: &str, asked: &mut Vec<Query>) -> (r:
    Decision<String>)
    ensures
        decision_view(r) == rule_outcome(*snap, *rule, target@),
        extends(old(asked)@, final(asked)@),
        final(asked)@ == old(asked)@ <==> rule_outcome_observed(*snap, *rule, target@),
{
    let reason = rule_reason_of(rule);
    let cause = rule_cause_of(rule);
    if str_eq(rule.action.as_str(), "Skip") {
        Decision::Skip(reason, cause)
    } else if str_eq(rule.action.as_str(), "Trash") {
        Decision::Trash(reason, cause)
    } else if str_eq(rule.action.as_str(), "Move") {
        match &rule.destination {
            None => Decision::Skip("move rule missing destination".to_owned(), cause),
            Some(d) => {
                if !validate_rule_destination(d.as_str()) {
                    return Decision::Skip("unsafe config destination".to_owned(), cause);
                }
                match safe_join_under(snap, target, d.as_str(), asked) {
                    Some(dest_dir) => Decision::Move { dest_dir, reason, cause },
                    None => Decision::Skip("unsafe config destination".to_owned(), cause),
                }
            },
        }
    } else {
        Decision::Skip("invalid rule config".to_owned(), cause)
    }
}

/// An explicit rule match always wins over the strategy.
pub fn rule_decision(
    snap: &FsSnapshot,
    path: &str,
    target: &str,
    rules: &Vec<&Rule>,
    asked: &mut Vec<Query>,
) -> (r: Option<Decision<String>>)
    ensures
        opt_decision_view(r) == rule_decision_spec(*snap, path@, target@, derefs(rules@)),
        extends(old(asked)@, final(asked)@),
        final(asked)@ == old(asked)@ <==> rule_decision_observed(*snap, path@, target@, derefs(rules@)),
{
    let ghost rs = derefs(rules@);
    let mut i: usize = 0;
    assert(rs.subrange(0, rs.len() as int) =~= rs);
    while i < rules.len()
        invariant
            i <= rules@.len(),
            rs == derefs(rules@),
            rule_decision_spec(*snap, path@, target@, rs) == rule_decision_spec(
                *snap,
                path@,
                target@,
                rs.subrange(i as int, rs.len() as int),
            ),
            rule_decision_observed(*snap, path@, target@, rs) == rule_decision_observed(
                *snap,
                path@,
                target@,
                rs.subrange(i as int, rs.len() as int),
            ),
            asked@ == old(asked)@,
        decreases rules@.len() - i,
    {
        let ghost rest = rs.subrange(i as int, rs.len() as int);
        assert(rest.drop_first() =~= rs.subrange(i + 1, rs.len() as int));
        assert(rest[0] == *rules@[i as int]);
        let rule: &Rule = rules[i];
        if glob_match(rule.pattern.as_str(), path) {
            return Some(rule_outcome_of(snap, rule, target, asked));
        }
        i += 1;
    }
    None
}

// ------------------------------------------------------------ type strategy

/// Why an entry is categorically excluded from organize and clean: every
/// protection reason, plus a plain directory (never moved itself).
pub open spec fn categorical_skip_spec(e: Entry) -> Option<Seq<char>> {
    match protection_spec(e) {
        Some(r) => Some(r),
        None => if e.is_dir {
            Some("directory"@)
        } else {
            None
        },
    }
}

pub fn categorical_skip_reason(entry: &Entry) -> (r: Option<&'static str>)
    ensures
        opt_str_view(r) == categorical_skip_spec(*entry),
{
    match protection_reason(entry) {
        Some(r) => Some(r),
        None => if entry.is_dir {
            Some("directory")
        } else {
            None
        },
    }
}

/// The built-in destination directory name and reason of a category.
pub open spec fn builtin_dest_spec(cat: Category) -> Option<(Seq<char>, Seq<char>)> {
    match cat {
        Category::Document => Some(("Documents"@, "Document"@)),
        Category::Image => Some(("Images"@, "Image"@)),
        Category::Video => Some(("Video"@, "Video"@)),
        Category::Audio => Some(("Audio"@, "Audio"@)),
        Category::Archive => Some(("Archives"@, "Archive"@)),
        Category::ThreeD => Some(("3D"@, "3D asset"@)),
        Category::Code => Some(("Code"@, "Code"@)),
        Category::Data => Some(("Data"@, "Data"@)),
        Category::Other => Some(("Other"@, "Other"@)),
        _ => None,
    }
}

pub fn builtin_destination(cat: Category) -> (r: Option<(&'static str, &'static str)>)
    ensures
        match r {
            Some((n, why)) => builtin_dest_spec(cat) == Some((n@, why@)),
            None => builtin_dest_spec(cat) is None,
        },
{
    match cat {
        Category::Document => Some(("Documents", "Document")),
        Category::Image => Some(("Images", "Image")),
        Category::Video => Some(("Video", "Video")),
        Category::Audio => Some(("Audio", "Audio")),
        Category::Archive => Some(("Archives", "Archive")),
        Category::ThreeD => Some(("3D", "3D asset")),
        Category::Code => Some(("Code", "Code")),
        Category::Data => Some(("Data", "Data")),
        Category::Other => Some(("Other", "Other")),
        _ => None,
    }
}

/// What `strategy = "type"` decides for an ordinary, rule-unmatched file of
/// category `cat`.
pub open spec fn type_decision(target: Seq<char>, cat: Category, up: UnknownPolicy) -> Decision<
    Seq<char>,
> {
    if cat == Category::Junk {
        Decision::Trash("built-in junk file"@, DecisionCause::BuiltinJunk)
    } else if cat == Category::Other {
        match up {
            UnknownPolicy::Other => Decision::Move {
                dest_dir: join(target, "Other"@),
                reason: "Other"@,
                cause: DecisionCause::UnknownFallback(UnknownPolicy::Other),
            },
            UnknownPolicy::Skip => Decision::Skip(
                "unknown type (policy: skip)"@,
                DecisionCause::UnknownFallback(UnknownPolicy::Skip),
            ),
        }
    } else {
        match builtin_dest_spec(cat) {
            Some((n, why)) => Decision::Move {
                dest_dir: join(target, n),
                reason: why,
                cause: DecisionCause::Classified(cat),
            },
            None => Decision::Skip("unknown type"@, DecisionCause::Classified(cat)),
        }
    }
}

/// `strategy = "type"`: protection first, then rules, then the built-in
/// classification.
pub open spec fn organize_decision(
    snap: FsSnapshot,
    e: Entry,
    target: Seq<char>,
    rules: Seq<Rule>,
    table: Seq<(Seq<char>, Category)>,
    up: UnknownPolicy,
) -> Decision<Seq<char>> {
    match categorical_skip_spec(e) {
        Some(r) => Decision::Skip(r, DecisionCause::Protected(r)),
        None => match rule_decision_spec(snap, e.path@, target, rules) {
            Some(d) => d,
            None => type_decision(target, classification(table, e), up),
        },
    }
}

/// Whether the snapshot holds every observation `organize_decision`
/// consults.
pub open spec fn organize_decision_observed(
    snap: FsSnapshot,
    e: Entry,
    target: Seq<char>,
    rules: Seq<Rule>,
) -> bool {
    categorical_skip_spec(e) is Some || rule_decision_observed(snap, e.path@, target, rules)
}

pub(crate) fn protected_decision(entry: &Entry) -> (r: Option<Decision<String>>)
    ensures
        opt_decision_view(r) == (match categorical_skip_spec(*entry) {
            Some(why) => Some(Decision::Skip(why, DecisionCause::Protected(why))),
            None => None,
        }),
{
    match categorical_skip_reason(entry) {
        Some(why) => Some(Decision::Skip(why.to_owned(), DecisionCause::Protected(why.to_owned()))),
        None => None,
    }
}

pub fn classify_for_organize(
    snap: &FsSnapshot,
    entry: &Entry,
    target: &str,
    rules: &Vec<&Rule>,
    builtin: &CategoryDB,
    unknown_policy: UnknownPolicy,
    asked: &mut Vec<Query>,
) -> (r: Decision<String>)
    ensures
        decision_view(r) == organize_decision(
            *snap,
            *entry,
            target@,
            derefs(rules@),
            builtin@,
            unknown_policy,
        ),
        extends(old(asked)@, final(asked)@),
        final(asked)@ == old(asked)@ <==> organize_decision_observed(
            *snap,
            *entry,
            target@,
            derefs(rules@),
        ),
{
    if let Some(d) = protected_decision(entry) {
        return d;
    }
    if let Some(d) = rule_decision(snap, entry.path.as_str(), target, rules, asked) {
        return d;
    }
    let mut classified = entry.clone();
    builtin.classify(&mut classified);
    let cat = match classified.classified_as {
        Some(c) => c,
        None => Category::Unknown,
    };
    if cat == Category::Junk {
        return Decision::Trash("built-in junk file".to_owned(), DecisionCause::BuiltinJunk);
    }
    if cat == Category::Other {
        return match unknown_policy {
            UnknownPolicy::Other => Decision::Move {
                dest_dir: path_join(target, "Other"),
                reason: "Other".to_owned(),
                cause: DecisionCause::UnknownFallback(UnknownPolicy::Other),
            },
            UnknownPolicy::Skip => Decision::Skip(
                "unknown type (policy: skip)".to_owned(),
                DecisionCause::UnknownFallback(UnknownPolicy::Skip),
            ),
        };
    }
    match builtin_destination(cat) {
        Some((name, why)) => Decision::Move {
            dest_dir: path_join(target, name),
            reason: why.to_owned(),
            cause: DecisionCause::Classified(cat),
        },
        None => Decision::Skip("unknown type".to_owned(), DecisionCause::Classified(cat)),
    }
}

// ------------------------------------------------------------ date strategy

/// The UTC calendar date of a non-negative Unix timestamp.
pub open spec fn civil_date(secs: int) -> DateMetadata {
    let c = civil_of(secs);
    DateMetadata { year: c.0 as i64, month: c.1 as u32, day: c.2 as u32 }
}

/// The date a file's modification time gives, or why there is none.
pub open spec fn date_of_spec(snap: FsSnapshot, path: Seq<char>) -> Result<DateMetadata, Seq<char>> {
    match mtime_in(snap.mtimes@, path) {
        Err(e) => Err(e),
        Ok(t) => if t < 0 {
            Err("modification time predates the Unix epoch"@)
        } else {
            Ok(civil_date(t as int))
        },
    }
}

/// `YYYY-MM-DD`, as `format!("{:04}-{:02}-{:02}")` renders it.
pub open spec fn date_reason(d: DateMetadata) -> Seq<char> {
    dec_signed_padded(d.year as int, 4) + "-"@ + dec_padded(d.month as nat, 2) + "-"@ + dec_padded(
        d.day as nat,
        2,
    )
}

/// `strategy = "date"`: protection first, then rules, then the file's date
/// rendered through the template. A missing date is a skip, never a
/// fallback to another strategy.
pub open spec fn date_decision(
    snap: FsSnapshot,
    e: Entry,
    target: Seq<char>,
    rules: Seq<Rule>,
    t: TemplateView,
) -> Decision<Seq<char>> {
    match categorical_skip_spec(e) {
        Some(r) => Decision::Skip(r, DecisionCause::Protected(r)),
        None => match rule_decision_spec(snap, e.path@, target, rules) {
            Some(d) => d,
            None => match date_of_spec(snap, e.path@) {
                Err(m) => Decision::Skip(
                    "date metadata unavailable: "@ + m,
                    DecisionCause::DateUnavailable(m),
                ),
                Ok(d) => match template_render(t, d) {
                    Ok(rel) => Decision::Move {
                        dest_dir: join(target, rel),
                        reason: date_reason(d),
                        cause: DecisionCause::DateMatched(d),
                    },
                    Err(m) => Decision::Skip(
                        "date template error: "@ + m,
                        DecisionCause::DateUnavailable(m),
                    ),
                },
            },
        },
    }
}

/// Whether the snapshot holds every observation `date_decision` consults.
pub open spec fn date_decision_observed(
    snap: FsSnapshot,
    e: Entry,
    target: Seq<char>,
    rules: Seq<Rule>,
) -> bool {
    categorical_skip_spec(e) is Some || (rule_decision_observed(snap, e.path@, target, rules) && (
    rule_decision_spec(snap, e.path@, target, rules) is Some || mtime_observed(snap.mtimes@, e.path@)))
}

/// The date metadata of a file, from its observed modification time.
pub fn extract_date_metadata(snap: &FsSnapshot, path: &str, asked: &mut Vec<Query>) -> (r: Result<
    DateMetadata,
    String,
>)
    ensures
        match r {
            Ok(d) => date_of_spec(*snap, path@) == Ok::<DateMetadata, Seq<char>>(d),
            Err(e) => date_of_spec(*snap, path@) == Err::<DateMetadata, Seq<char>>(e@),
        },
        extends(old(asked)@, final(asked)@),
        final(asked)@ == old(asked)@ <==> mtime_observed(snap.mtimes@, path@),
{
    match lookup_mtime(snap, path, asked) {
        Err(e) => Err(e),
        Ok(t) => {
            if t < 0 {
                Err("modification time predates the Unix epoch".to_owned())
            } else {
                let d = DateMetadata::from_unix_secs(t);
                Ok(d)
            }
        },
    }
}

fn date_reason_of(d: &DateMetadata) -> (r: String)
    ensures
        r@ == date_reason(*d),
{
    let y = fmt_i64(d.year, 4);
    let m = fmt_u64(d.month as u64, 2);
    let dd = fmt_u64(d.day as u64, 2);
    let mut s = concat3(y.as_str(), "-", m.as_str());
    s.append("-");
    s.append(dd.as_str());
    s
}

pub fn classify_for_date(
    snap: &FsSnapshot,
    entry: &Entry,
    target: &str,
    rules: &Vec<&Rule>,
    template: &Template,
    date_source: DateSource,
    asked: &mut Vec<Query>,
) -> (r: Decision<String>)
    ensures
        decision_view(r) == date_decision(*snap, *entry, target@, derefs(rules@), template@),
        extends(old(asked)@, final(asked)@),
        final(asked)@ == old(asked)@ <==> date_decision_observed(*snap, *entry, target@, derefs(rules@)),
{
    if let Some(d) = protected_decision(entry) {
        return d;
    }
    let ghost a0 = asked@;
    if let Some(d) = rule_decision(snap, entry.path.as_str(), target, rules, asked) {
        return d;
    }
    let ghost a1 = asked@;
    let got = extract_date_metadata(snap, entry.path.as_str(), asked);
    proof {
        lemma_asked_seq(a0, a1, asked@);
    }
    let date = match got {
        Ok(d) => d,
        Err(e) => {
            return Decision::Skip(
                concat("date metadata unavailable: ", e.as_str()),
                DecisionCause::DateUnavailable(e),
            );
        },
    };
    match template.render(&date) {
        Ok(rel_dir) => Decision::Move {
            dest_dir: path_join(target, rel_dir.as_str()),
            reason: date_reason_of(&date),
            cause: DecisionCause::DateMatched(date),
        },
        Err(e) => Decision::Skip(
            concat("date template error: ", e.as_str()),
            DecisionCause::DateUnavailable(e),
        ),
    }
}

// ---------------------------------------------------------------- actions

/// An action as plain values.
pub struct ActionView {
    pub src: Seq<char>,
    pub dst: Option<Seq<char>>,
    pub op: Op,
    pub reason: Option<Seq<char>>,
    pub undoable: bool,
}

pub open spec fn action_view(a: Action) -> ActionView {
    ActionView {
        src: a.src@,
        dst: opt_view(a.dst),
        op: a.op,
        reason: opt_view(a.reason),
        undoable: a.undoable,
    }
}

pub open spec fn actions_view(v: Seq<Action>) -> Seq<ActionView> {
    v.map_values(|a: Action| action_view(a))
}

pub open spec fn skip_view(src: Seq<char>, reason: Seq<char>) -> ActionView {
    ActionView { src, dst: None, op: Op::Skip, reason: Some(reason), undoable: false }
}

/// A skip that keeps the destination that was intended, so the plan shows
/// what blocked the move.
pub open spec fn skip_at_view(src: Seq<char>, dst: Seq<char>, reason: Seq<char>) -> ActionView {
    ActionView { src, dst: Some(dst), op: Op::Skip, reason: Some(reason), undoable: false }
}

pub open spec fn trash_view(src: Seq<char>, reason: Seq<char>) -> ActionView {
    ActionView { src, dst: None, op: Op::Trash, reason: Some(reason), undoable: false }
}

pub open spec fn move_view(src: Seq<char>, dst: Seq<char>, reason: Seq<char>) -> ActionView {
    ActionView { src, dst: Some(dst), op: Op::Move, reason: Some(reason), undoable: true }
}

pub open spec fn create_dir_view(dir: Seq<char>) -> ActionView {
    ActionView {
        src: dir,
        dst: None,
        op: Op::CreateDir,
        reason: Some("ensure directory exists"@),
        undoable: false,
    }
}

/// Reason prefix of a duplicate-collision `Trash`: a byte-identical file
/// already sits at the computed destination.
pub open spec fn identical_duplicate_prefix() -> Seq<char> {
    "identical duplicate already organized at "@
}

/// Reason suffix of a duplicate-collision `Move` under a disambiguated name.
pub open spec fn renamed_collision_suffix() -> Seq<char> {
    " (renamed: a different file already exists at that name)"@
}

/// Reason prefix of a duplicate-collision `Trash`.
pub const IDENTICAL_DUPLICATE_REASON_PREFIX: &'static str = "identical duplicate already organized at ";

/// Reason suffix of a duplicate-collision `Move` under another name.
pub const RENAMED_COLLISION_REASON_SUFFIX: &'static str = " (renamed: a different file already exists at that name)";

pub fn identical_duplicate_reason_prefix() -> (r: &'static str)
    ensures
        r@ == identical_duplicate_prefix(),
{
    "identical duplicate already organized at "
}

pub fn renamed_collision_reason_suffix() -> (r: &'static str)
    ensures
        r@ == renamed_collision_suffix(),
{
    " (renamed: a different file already exists at that name)"
}

fn skip_action(src: &str, reason: &str) -> (r: Action)
    ensures
        action_view(r) == skip_view(src@, reason@),
{
    Action {
        src: src.to_owned(),
        dst: None,
        op: Op::Skip,
        reason: Some(reason.to_owned()),
        undoable: false,
    }
}

fn skip_at_action(src: &str, dst: &str, reason: &str) -> (r: Action)
    ensures
        action_view(r) == skip_at_view(src@, dst@, reason@),
{
    Action {
        src: src.to_owned(),
        dst: Some(dst.to_owned()),
        op: Op::Skip,
        reason: Some(reason.to_owned()),
        undoable: false,
    }
}

fn trash_action(src: &str, reason: &str) -> (r: Action)
    ensures
        action_view(r) == trash_view(src@, reason@),
{
    Action {
        src: src.to_owned(),
        dst: None,
        op: Op::Trash,
        reason: Some(reason.to_owned()),
        undoable: false,
    }
}

/// The final action of a move once every destination level is confirmed
/// or queued in `to_create`: the single place where a same-name collision
/// at the destination file is resolved (identical duplicate, renamed
/// move, or refusal). Directories are only queued when the move happens.
pub open spec fn finalize_spec(
    snap: FsSnapshot,
    src: Seq<char>,
    dest_dir: Seq<char>,
    reason: Seq<char>,
    to_create: Seq<Seq<char>>,
) -> (ActionView, Seq<Seq<char>>) {
    match file_name(src) {
        None => (skip_view(src, "entry has no file name"@), Seq::empty()),
        Some(f) => {
            let dest = join(dest_dir, f);
            match dest_file_at(snap, src, dest) {
                DestinationFileStatus::Blocked => (
                    skip_at_view(src, dest, "collision"@),
                    Seq::empty(),
                ),
                DestinationFileStatus::IdenticalDuplicate => (
                    ActionView {
                        src,
                        dst: Some(dest),
                        op: Op::Trash,
                        reason: Some(identical_duplicate_prefix() + dest),
                        undoable: false,
                    },
                    Seq::empty(),
                ),
                DestinationFileStatus::Clear => (move_view(src, dest, reason), to_create),
                DestinationFileStatus::Renamed(alt) => (
                    move_view(src, alt, reason + renamed_collision_suffix()),
                    to_create,
                ),
            }
        },
    }
}

/// Whether the snapshot holds what `finalize_spec` consults: the
/// destination file's status.
pub open spec fn finalize_observed(snap: FsSnapshot, src: Seq<char>, dest_dir: Seq<char>) -> bool {
    match file_name(src) {
        None => true,
        Some(f) => dest_file_observed(snap.dest_files@, src, join(dest_dir, f)),
    }
}

/// Whether the snapshot holds every observation that
/// `single_level_resolution` consults.
pub open spec fn single_level_observed(snap: FsSnapshot, src: Seq<char>, d: Decision<Seq<char>>) -> bool {
    match d {
        Decision::Move { dest_dir, reason: _, cause: _ } => kind_at(snap.kinds@, dest_dir) is Some && (
        dir_status_at(snap, dest_dir) == DirStatus::Blocked || finalize_observed(snap, src, dest_dir)),
        _ => true,
    }
}

/// Whether the snapshot holds every observation `organize_resolution`
/// consults for entry `e`.
pub open spec fn organize_observed(
    snap: FsSnapshot,
    e: Entry,
    target: Seq<char>,
    rules: Seq<Rule>,
    table: Seq<(Seq<char>, Category)>,
    up: UnknownPolicy,
) -> bool {
    organize_decision_observed(snap, e, target, rules) && single_level_observed(
        snap,
        e.path@,
        organize_decision(snap, e, target, rules, table, up),
    )
}

/// Adds each of `dirs` to the sorted, duplicate-free `needed` set.
fn insert_dirs(needed: &mut Vec<String>, dirs: Vec<String>)
    ensures
        strings_view(final(needed)@) == insert_all_sorted(strings_view(old(needed)@), strings_view(
            dirs@,
        )),
{
    let ghost orig = strings_view(needed@);
    let ghost xs = strings_view(dirs@);
    let mut i: usize = 0;
    assert(xs.subrange(0, 0) =~= Seq::<Seq<char>>::empty());
    while i < dirs.len()
        invariant
            i <= dirs@.len(),
            xs == strings_view(dirs@),
            strings_view(needed@) == insert_all_sorted(orig, xs.subrange(0, i as int)),
        decreases dirs@.len() - i,
    {
        assert(xs.subrange(0, i + 1).drop_last() =~= xs.subrange(0, i as int));
        assert(xs.subrange(0, i + 1).last() == dirs@[i as int]@);
        insert_path_sorted(needed, dirs[i].clone());
        i += 1;
    }
    assert(xs.subrange(0, dirs@.len() as int) =~= xs);
}

fn finalize_move_action(
    snap: &FsSnapshot,
    src: &str,
    dest_dir: &str,
    reason: String,
    to_create: Vec<String>,
    needed: &mut Vec<String>,
    asked: &mut Vec<Query>,
) -> (r: Action)
    ensures
        action_view(r) == finalize_spec(*snap, src@, dest_dir@, reason@, strings_view(to_create@)).0,
        strings_view(final(needed)@) == insert_all_sorted(
            strings_view(old(needed)@),
            finalize_spec(*snap, src@, dest_dir@, reason@, strings_view(to_create@)).1,
        ),
        extends(old(asked)@, final(asked)@),
        final(asked)@ == old(asked)@ <==> finalize_observed(*snap, src@, dest_dir@),
{
    let filename = match path_file_name(src) {
        Some(f) => f,
        None => {
            assert(insert_all_sorted(strings_view(needed@), Seq::empty()) == strings_view(needed@));
            return skip_action(src, "entry has no file name");
        },
    };
    let dest = path_join(dest_dir, filename.as_str());
    match lookup_dest_file(snap, src, dest.as_str(), asked) {
        DestinationFileStatus::Blocked => {
            assert(insert_all_sorted(strings_view(needed@), Seq::empty()) == strings_view(needed@));
            skip_at_action(src, dest.as_str(), "collision")
        },
        DestinationFileStatus::IdenticalDuplicate => {
            assert(insert_all_sorted(strings_view(needed@), Seq::empty()) == strings_view(needed@));
            Action {
                src: src.to_owned(),
                dst: Some(dest.clone()),
                op: Op::Trash,
                reason: Some(concat(identical_duplicate_reason_prefix(), dest.as_str())),
                undoable: false,
            }
        },
        DestinationFileStatus::Clear => {
            insert_dirs(needed, to_create);
            Action {
                src: src.to_owned(),
                dst: Some(dest),
                op: Op::Move,
                reason: Some(reason),
                undoable: true,
            }
        },
        DestinationFileStatus::Renamed(alt) => {
            insert_dirs(needed, to_create);
            Action {
                src: src.to_owned(),
                dst: Some(alt),
                op: Op::Move,
                reason: Some(concat(reason.as_str(), renamed_collision_reason_suffix())),
                undoable: true,
            }
        },
    }
}

/// How an entry's decision becomes its action when the destination is a
/// single directory level that may need creating (`strategy = "type"`).
pub open spec fn single_level_resolution(
    snap: FsSnapshot,
    src: Seq<char>,
    d: Decision<Seq<char>>,
) -> (ActionView, Seq<Seq<char>>) {
    match d {
        Decision::Skip(r, _) => (skip_view(src, r), Seq::empty()),
        Decision::Trash(r, _) => (trash_view(src, r), Seq::empty()),
        Decision::Move { dest_dir, reason, cause: _ } => match dir_status_at(snap, dest_dir) {
            DirStatus::Blocked => (skip_at_view(src, dest_dir, "collision"@), Seq::empty()),
            DirStatus::Missing => finalize_spec(snap, src, dest_dir, reason, seq![dest_dir]),
            DirStatus::Exists => finalize_spec(snap, src, dest_dir, reason, Seq::empty()),
        },
    }
}

pub open spec fn organize_resolution(
    snap: FsSnapshot,
    e: Entry,
    target: Seq<char>,
    rules: Seq<Rule>,
    table: Seq<(Seq<char>, Category)>,
    up: UnknownPolicy,
) -> (ActionView, Seq<Seq<char>>) {
    single_level_resolution(snap, e.path@, organize_decision(snap, e, target, rules, table, up))
}

fn decision_to_action(
    snap: &FsSnapshot,
    src: &str,
    d: Decision<String>,
    needed: &mut Vec<String>,
    asked: &mut Vec<Query>,
) -> (r: Action)
    ensures
        action_view(r) == single_level_resolution(*snap, src@, decision_view(d)).0,
        strings_view(final(needed)@) == insert_all_sorted(
            strings_view(old(needed)@),
            single_level_resolution(*snap, src@, decision_view(d)).1,
        ),
        extends(old(asked)@, final(asked)@),
        final(asked)@ == old(asked)@ <==> single_level_observed(*snap, src@, decision_view(d)),
{
    match d {
        Decision::Skip(reason, _) => {
            assert(insert_all_sorted(strings_view(needed@), Seq::empty()) == strings_view(needed@));
            skip_action(src, reason.as_str())
        },
        Decision::Trash(reason, _) => {
            assert(insert_all_sorted(strings_view(needed@), Seq::empty()) == strings_view(needed@));
            trash_action(src, reason.as_str())
        },
        Decision::Move { dest_dir, reason, cause: _ } => {
            let ghost a0 = asked@;
            let st = dir_status(snap, dest_dir.as_str(), asked);
            let ghost a1 = asked@;
            proof {
                if kind_at(snap.kinds@, dest_dir@) is None {
                    assert(a1.len() != a0.len());
                }
            }
            match st {
            DirStatus::Blocked => {
                assert(insert_all_sorted(strings_view(needed@), Seq::empty()) == strings_view(
                    needed@,
                ));
                skip_at_action(src, dest_dir.as_str(), "collision")
            },
            DirStatus::Missing => {
                let mut tc: Vec<String> = Vec::new();
                tc.push(dest_dir.clone());
                assert(strings_view(tc@) =~= seq![dest_dir@]);
                let r = finalize_move_action(snap, src, dest_dir.as_str(), reason, tc, needed, asked);
                proof {
                    lemma_asked_seq(a0, a1, asked@);
                }
                r
            },
            DirStatus::Exists => {
                let tc: Vec<String> = Vec::new();
                assert(strings_view(tc@) =~= Seq::<Seq<char>>::empty());
                let r = finalize_move_action(snap, src, dest_dir.as_str(), reason, tc, needed, asked);
                proof {
                    lemma_asked_seq(a0, a1, asked@);
                }
                r
            },
            }
        },
    }
}

/// Resolves one entry's final `type` action, checking the observed
/// destination and recording any directory that still needs creating.
pub fn resolve_organize_action(
    snap: &FsSnapshot,
    entry: &Entry,
    target: &str,
    rules: &Vec<&Rule>,
    builtin: &CategoryDB,
    needed: &mut Vec<String>,
    unknown_policy: UnknownPolicy,
    asked: &mut Vec<Query>,
) -> (r: Action)
    ensures
        action_view(r) == organize_resolution(
            *snap,
            *entry,
            target@,
            derefs(rules@),
            builtin@,
            unknown_policy,
        ).0,
        strings_view(final(needed)@) == insert_all_sorted(
            strings_view(old(needed)@),
            organize_resolution(
                *snap,
                *entry,
                target@,
                derefs(rules@),
                builtin@,
                unknown_policy,
            ).1,
        ),
        extends(old(asked)@, final(asked)@),
        final(asked)@ == old(asked)@ <==> organize_observed(
            *snap,
            *entry,
            target@,
            derefs(rules@),
            builtin@,
            unknown_policy,
        ),
{
    let ghost a0 = asked@;
    let d = classify_for_organize(snap, entry, target, rules, builtin, unknown_policy, asked);
    let ghost a1 = asked@;
    let r = decision_to_action(snap, entry.path.as_str(), d, needed, asked);
    proof {
        lemma_asked_seq(a0, a1, asked@);
    }
    r
}

// ------------------------------------------------------- multi-level dirs

/// The directories from `target`'s child down to (and including) the end
/// of `rel`, each one component deeper.
pub open spec fn levels_spec(target: Seq<char>, rel: Seq<Comp<Seq<char>>>) -> Seq<Seq<char>> {
    Seq::new(rel.len(), |i: int| push_all(target, rel.subrange(0, i + 1)))
}

pub open spec fn destination_levels_spec(target: Seq<char>, dest_dir: Seq<char>) -> Option<
    Seq<Seq<char>>,
> {
    match strip_prefix(dest_dir, target) {
        Some(rel) => Some(levels_spec(target, rel)),
        None => None,
    }
}

/// Each level in order: an existing directory is left alone, a missing
/// one is queued for creation, anything else refuses the whole move.
pub open spec fn level_scan(snap: FsSnapshot, levels: Seq<Seq<char>>) -> Option<Seq<Seq<char>>>
    decreases levels.len(),
{
    if levels.len() == 0 {
        Some(Seq::empty())
    } else {
        match dir_status_at(snap, levels[0]) {
            DirStatus::Blocked => None,
            DirStatus::Missing => match level_scan(snap, levels.drop_first()) {
                Some(rest) => Some(seq![levels[0]] + rest),
                None => None,
            },
            DirStatus::Exists => level_scan(snap, levels.drop_first()),
        }
    }
}

/// Whether the snapshot holds every observation `level_scan` consults.
pub open spec fn level_scan_observed(snap: FsSnapshot, levels: Seq<Seq<char>>) -> bool
    decreases levels.len(),
{
    if levels.len() == 0 {
        true
    } else {
        kind_at(snap.kinds@, levels[0]) is Some && (dir_status_at(snap, levels[0]) == DirStatus::Blocked
            || level_scan_observed(snap, levels.drop_first()))
    }
}

pub open spec fn prepend_opt(p: Seq<Seq<char>>, o: Option<Seq<Seq<char>>>) -> Option<Seq<Seq<char>>> {
    match o {
        Some(r) => Some(p + r),
        None => None,
    }
}

/// The sequence of directories between `target` and `dest_dir` that must
/// each be a real directory before `dest_dir` is usable.
pub fn destination_levels(target: &str, dest_dir: &str) -> (r: Option<Vec<String>>)
    ensures
        match r {
            Some(v) => destination_levels_spec(target@, dest_dir@) == Some(strings_view(v@)),
            None => destination_levels_spec(target@, dest_dir@) is None,
        },
{
    let rel = match path_strip_prefix(dest_dir, target) {
        Some(r) => r,
        None => {
            return None;
        },
    };
    let ghost relv = comps_view(rel@);
    let mut level = target.to_owned();
    let mut levels: Vec<String> = Vec::new();
    let mut i: usize = 0;
    assert(relv.subrange(0, 0) =~= Seq::<Comp<Seq<char>>>::empty());
    while i < rel.len()
        invariant
            i <= rel@.len(),
            relv == comps_view(rel@),
            level@ == push_all(target@, relv.subrange(0, i as int)),
            strings_view(levels@) == levels_spec(target@, relv).subrange(0, i as int),
        decreases rel@.len() - i,
    {
        assert(relv.subrange(0, i + 1).drop_last() =~= relv.subrange(0, i as int));
        assert(relv.subrange(0, i + 1).last() == crate::path::comp_view(rel@[i as int]));
        let part = comp_string(&rel[i]);
        level = path_join(level.as_str(), part.as_str());
        let ghost before = levels@;
        levels.push(level.clone());
        assert(strings_view(levels@) =~= strings_view(before).push(level@));
        assert(strings_view(levels@) =~= levels_spec(target@, relv).subrange(0, i + 1));
        i += 1;
    }
    assert(levels_spec(target@, relv).subrange(0, rel@.len() as int) =~= levels_spec(target@, relv));
    Some(levels)
}

fn scan_levels(snap: &FsSnapshot, levels: &Vec<String>, asked: &mut Vec<Query>) -> (r: Option<
    Vec<String>,
>)
    ensures
        match r {
            Some(v) => level_scan(*snap, strings_view(levels@)) == Some(strings_view(v@)),
            None => level_scan(*snap, strings_view(levels@)) is None,
        },
        extends(old(asked)@, final(asked)@),
        final(asked)@ == old(asked)@ <==> level_scan_observed(*snap, strings_view(levels@)),
{
    let ghost ls = strings_view(levels@);
    let mut to_create: Vec<String> = Vec::new();
    let mut i: usize = 0;
    assert(ls.subrange(0, ls.len() as int) =~= ls);
    assert(Seq::<Seq<char>>::empty() + level_scan(*snap, ls).unwrap() =~= level_scan(
        *snap,
        ls,
    ).unwrap());
    while i < levels.len()
        invariant
            i <= levels@.len(),
            ls == strings_view(levels@),
            level_scan(*snap, ls) == prepend_opt(
                strings_view(to_create@),
                level_scan(*snap, ls.subrange(i as int, ls.len() as int)),
            ),
            extends(old(asked)@, asked@),
            level_scan_observed(*snap, ls) == (asked@ == old(asked)@ && level_scan_observed(
                *snap,
                ls.subrange(i as int, ls.len() as int),
            )),
        decreases levels@.len() - i,
    {
        let ghost sub = ls.subrange(i as int, ls.len() as int);
        assert(sub.drop_first() =~= ls.subrange(i + 1, ls.len() as int));
        assert(sub[0] == levels@[i as int]@);
        let ghost a0 = asked@;
        let st = dir_status(snap, levels[i].as_str(), asked);
        proof {
            lemma_asked_seq(old(asked)@, a0, asked@);
            if kind_at(snap.kinds@, sub[0]) is None {
                assert(asked@.len() != a0.len());
            }
        }
        match st {
            DirStatus::Blocked => {
                return None;
            },
            DirStatus::Missing => {
                let ghost before = strings_view(to_create@);
                to_create.push(levels[i].clone());
                assert(strings_view(to_create@) =~= before.push(levels@[i as int]@));
                proof {
                    match level_scan(*snap, sub.drop_first()) {
                        Some(rest) => {
                            assert(before + (seq![sub[0]] + rest) =~= strings_view(to_create@)
                                + rest);
                        },
                        None => {},
                    }
                }
            },
            DirStatus::Exists => {},
        }
        i += 1;
    }
    proof {
        assert(ls.subrange(ls.len() as int, ls.len() as int) =~= Seq::<Seq<char>>::empty());
        assert(strings_view(to_create@) + Seq::<Seq<char>>::empty() =~= strings_view(to_create@));
        assert(level_scan_observed(*snap, ls.subrange(ls.len() as int, ls.len() as int)));
    }
    Some(to_create)
}

/// How an entry's decision becomes its action when the destination may be
/// several directory levels below `target` (`strategy = "date"`).
pub open spec fn multi_level_resolution(
    snap: FsSnapshot,
    src: Seq<char>,
    target: Seq<char>,
    d: Decision<Seq<char>>,
) -> (ActionView, Seq<Seq<char>>) {
    match d {
        Decision::Skip(r, _) => (skip_view(src, r), Seq::empty()),
        Decision::Trash(r, _) => (trash_view(src, r), Seq::empty()),
        Decision::Move { dest_dir, reason, cause: _ } => match destination_levels_spec(
            target,
            dest_dir,
        ) {
            None => (skip_view(src, "destination escaped target"@), Seq::empty()),
            Some(levels) => match level_scan(snap, levels) {
                None => (skip_at_view(src, dest_dir, "collision"@), Seq::empty()),
                Some(tc) => finalize_spec(snap, src, dest_dir, reason, tc),
            },
        },
    }
}

/// Whether the snapshot holds every observation that
/// `multi_level_resolution` consults.
pub open spec fn multi_level_observed(
    snap: FsSnapshot,
    src: Seq<char>,
    target: Seq<char>,
    d: Decision<Seq<char>>,
) -> bool {
    match d {
        Decision::Move { dest_dir, reason: _, cause: _ } => match destination_levels_spec(target, dest_dir) {
            None => true,
            Some(levels) => level_scan_observed(snap, levels) && (level_scan(snap, levels) is None
                || finalize_observed(snap, src, dest_dir)),
        },
        _ => true,
    }
}

/// Whether the snapshot holds every observation `date_resolution`
/// consults for entry `e`.
pub open spec fn date_observed(
    snap: FsSnapshot,
    e: Entry,
    target: Seq<char>,
    rules: Seq<Rule>,
    t: TemplateView,
) -> bool {
    date_decision_observed(snap, e, target, rules) && multi_level_observed(
        snap,
        e.path@,
        target,
        date_decision(snap, e, target, rules, t),
    )
}

pub open spec fn date_resolution(
    snap: FsSnapshot,
    e: Entry,
    target: Seq<char>,
    rules: Seq<Rule>,
    t: TemplateView,
) -> (ActionView, Seq<Seq<char>>) {
    multi_level_resolution(snap, e.path@, target, date_decision(snap, e, target, rules, t))
}

pub(crate) fn decision_to_action_levels(
    snap: &FsSnapshot,
    src: &str,
    target: &str,
    d: Decision<String>,
    needed: &mut Vec<String>,
    asked: &mut Vec<Query>,
) -> (r: Action)
    ensures
        action_view(r) == multi_level_resolution(*snap, src@, target@, decision_view(d)).0,
        strings_view(final(needed)@) == insert_all_sorted(
            strings_view(old(needed)@),
            multi_level_resolution(*snap, src@, target@, decision_view(d)).1,
        ),
        extends(old(asked)@, final(asked)@),
        final(asked)@ == old(asked)@ <==> multi_level_observed(*snap, src@, target@, decision_view(d)),
{
    assert(insert_all_sorted(strings_view(needed@), Seq::empty()) == strings_view(needed@));
    match d {
        Decision::Skip(reason, _) => skip_action(src, reason.as_str()),
        Decision::Trash(reason, _) => trash_action(src, reason.as_str()),
        Decision::Move { dest_dir, reason, cause: _ } => {
            let levels = match destination_levels(target, dest_dir.as_str()) {
                Some(l) => l,
                None => {
                    return skip_action(src, "destination escaped target");
                },
            };
            let ghost a0 = asked@;
            let sc = scan_levels(snap, &levels, asked);
            let ghost a1 = asked@;
            match sc {
                None => skip_at_action(src, dest_dir.as_str(), "collision"),
                Some(tc) => {
                    let r = finalize_move_action(snap, src, dest_dir.as_str(), reason, tc, needed, asked);
                    proof {
                        lemma_asked_seq(a0, a1, asked@);
                    }
                    r
                },
            }
        },
    }
}

/// Resolves one entry's final `date` action: every level between `target`
/// and the rendered destination is checked, missing ones queued.
pub fn resolve_date_action(
    snap: &FsSnapshot,
    entry: &Entry,
    target: &str,
    rules: &Vec<&Rule>,
    template: &Template,
    date_source: DateSource,
    needed: &mut Vec<String>,
    asked: &mut Vec<Query>,
) -> (r: Action)
    ensures
        action_view(r) == date_resolution(*snap, *entry, target@, derefs(rules@), template@).0,
        strings_view(final(needed)@) == insert_all_sorted(
            strings_view(old(needed)@),
            date_resolution(*snap, *entry, target@, derefs(rules@), template@).1,
        ),
        extends(old(asked)@, final(asked)@),
        final(asked)@ == old(asked)@ <==> date_observed(*snap, *entry, target@, derefs(rules@), template@),
{
    let ghost a0 = asked@;
    let d = classify_for_date(snap, entry, target, rules, template, date_source, asked);
    let ghost a1 = asked@;
    let r = decision_to_action_levels(snap, entry.path.as_str(), target, d, needed, asked);
    proof {
        lemma_asked_seq(a0, a1, asked@);
    }
    r
}

// ------------------------------------------------------------------ plans

/// A per-entry resolution: the entry's action and the directories it needs.
pub open spec fn fold_resolutions(
    entries: Seq<Entry>,
    step: spec_fn(Entry) -> (ActionView, Seq<Seq<char>>),
) -> (Seq<ActionView>, Seq<Seq<char>>)
    decreases entries.len(),
{
    if entries.len() == 0 {
        (Seq::empty(), Seq::empty())
    } else {
        let prev = fold_resolutions(entries.drop_last(), step);
        let res = step(entries.last());
        (prev.0.push(res.0), insert_all_sorted(prev.1, res.1))
    }
}

/// The `CreateDir` actions (shallow to deep, each directory once) first,
/// then every entry's own action in scan order.
pub open spec fn assemble(f: (Seq<ActionView>, Seq<Seq<char>>)) -> Seq<ActionView> {
    f.1.map_values(|d: Seq<char>| create_dir_view(d)) + f.0
}

pub open spec fn skip_all_spec(entries: Seq<Entry>, reason: Seq<char>) -> Seq<ActionView> {
    entries.map_values(|e: Entry| skip_view(e.path@, reason))
}

pub open spec fn organize_step(
    snap: FsSnapshot,
    target: Seq<char>,
    rules: Seq<Rule>,
    table: Seq<(Seq<char>, Category)>,
    up: UnknownPolicy,
) -> spec_fn(Entry) -> (ActionView, Seq<Seq<char>>) {
    |e: Entry| organize_resolution(snap, e, target, rules, table, up)
}

pub open spec fn date_step(
    snap: FsSnapshot,
    target: Seq<char>,
    rules: Seq<Rule>,
    t: TemplateView,
) -> spec_fn(Entry) -> (ActionView, Seq<Seq<char>>) {
    |e: Entry| date_resolution(snap, e, target, rules, t)
}

pub open spec fn project_root_reason() -> Seq<char> {
    "target is a software project root"@
}

/// Every entry skipped with the same reason.
pub fn skip_all(entries: &[Entry], reason: &str) -> (r: Plan)
    ensures
        actions_view(r.actions@) == skip_all_spec(entries@, reason@),
{
    let mut actions: Vec<Action> = Vec::new();
    let mut i: usize = 0;
    while i < entries.len()
        invariant
            i <= entries@.len(),
            actions_view(actions@) == skip_all_spec(entries@.subrange(0, i as int), reason@),
        decreases entries@.len() - i,
    {
        let ghost before = actions@;
        actions.push(skip_action(entries[i].path.as_str(), reason));
        assert(actions_view(actions@) =~= actions_view(before).push(
            skip_view(entries@[i as int].path@, reason@),
        ));
        assert(skip_all_spec(entries@.subrange(0, i + 1), reason@) =~= skip_all_spec(
            entries@.subrange(0, i as int),
            reason@,
        ).push(skip_view(entries@[i as int].path@, reason@)));
        i += 1;
    }
    assert(entries@.subrange(0, entries@.len() as int) =~= entries@);
    Plan { actions }
}

/// One `CreateDir` action per needed directory, in the given order.
pub fn createdir_actions(needed: Vec<String>) -> (r: Vec<Action>)
    ensures
        actions_view(r@) == strings_view(needed@).map_values(|d: Seq<char>| create_dir_view(d)),
{
    let mut out: Vec<Action> = Vec::new();
    let mut i: usize = 0;
    while i < needed.len()
        invariant
            i <= needed@.len(),
            actions_view(out@) == strings_view(needed@).subrange(0, i as int).map_values(
                |d: Seq<char>| create_dir_view(d),
            ),
        decreases needed@.len() - i,
    {
        let ghost before = out@;
        out.push(
            Action {
                src: needed[i].clone(),
                dst: None,
                op: Op::CreateDir,
                reason: Some("ensure directory exists".to_owned()),
                undoable: false,
            },
        );
        assert(actions_view(out@) =~= actions_view(before).push(
            create_dir_view(needed@[i as int]@),
        ));
        assert(strings_view(needed@).subrange(0, i + 1).map_values(
            |d: Seq<char>| create_dir_view(d),
        ) =~= strings_view(needed@).subrange(0, i as int).map_values(
            |d: Seq<char>| create_dir_view(d),
        ).push(create_dir_view(needed@[i as int]@)));
        i += 1;
    }
    assert(strings_view(needed@).subrange(0, needed@.len() as int) =~= strings_view(needed@));
    out
}

pub(crate) fn assemble_plan(needed: Vec<String>, entry_actions: Vec<Action>) -> (r: Plan)
    ensures
        actions_view(r.actions@) == strings_view(needed@).map_values(
            |d: Seq<char>| create_dir_view(d),
        ) + actions_view(entry_actions@),
{
    let mut actions = createdir_actions(needed);
    let ghost a = actions@;
    let mut rest = entry_actions;
    let ghost b = rest@;
    actions.append(&mut rest);
    assert(actions_view(actions@) =~= actions_view(a) + actions_view(b));
    Plan { actions }
}

/// `type` organize of one directory's `entries`. A software project root
/// target is skipped wholesale.
pub open spec fn plan_organize_spec(
    snap: FsSnapshot,
    target: Seq<char>,
    entries: Seq<Entry>,
    project_root: bool,
    rules: Seq<Rule>,
    table: Seq<(Seq<char>, Category)>,
    up: UnknownPolicy,
) -> Seq<ActionView> {
    if project_root {
        skip_all_spec(entries, project_root_reason())
    } else {
        assemble(
            fold_resolutions(entries, organize_step(snap, target, by_priority(rules), table, up)),
        )
    }
}

pub open spec fn plan_organize_date_spec(
    snap: FsSnapshot,
    target: Seq<char>,
    entries: Seq<Entry>,
    project_root: bool,
    rules: Seq<Rule>,
    t: TemplateView,
) -> Seq<ActionView> {
    if project_root {
        skip_all_spec(entries, project_root_reason())
    } else {
        assemble(fold_resolutions(entries, date_step(snap, target, by_priority(rules), t)))
    }
}

/// Whether the snapshot holds every observation that planning `entries`
/// by type consults: nothing for a project root, otherwise what each
/// entry's resolution consults.
pub open spec fn plan_organize_observed(
    snap: FsSnapshot,
    target: Seq<char>,
    entries: Seq<Entry>,
    project_root: bool,
    rules: Seq<Rule>,
    table: Seq<(Seq<char>, Category)>,
    up: UnknownPolicy,
) -> bool {
    project_root || forall|k: int|
        0 <= k < entries.len() ==> organize_observed(
            snap,
            #[trigger] entries[k],
            target,
            by_priority(rules),
            table,
            up,
        )
}

/// Organizes the scanned `entries` of `path` by type. It asks (in
/// `asked`) for each observation it needed and the snapshot lacked, and
/// asks nothing exactly when the snapshot held them all.
pub fn plan_organize(
    path: &str,
    entries: &[Entry],
    project_root: bool,
    config_rules: &[Rule],
    builtin: &CategoryDB,
    unknown_policy: UnknownPolicy,
    snap: &FsSnapshot,
    asked: &mut Vec<Query>,
) -> (r: Plan)
    ensures
        actions_view(r.actions@) == plan_organize_spec(
            *snap,
            path@,
            entries@,
            project_root,
            config_rules@,
            builtin@,
            unknown_policy,
        ),
        extends(old(asked)@, final(asked)@),
        final(asked)@ == old(asked)@ <==> plan_organize_observed(
            *snap,
            path@,
            entries@,
            project_root,
            config_rules@,
            builtin@,
            unknown_policy,
        ),
{
    if project_root {
        proof {
            reveal_strlit("target is a software project root");
        }
        return skip_all(entries, "target is a software project root");
    }
    let rules = rules_by_priority(config_rules);
    let ghost step = organize_step(*snap, path@, by_priority(config_rules@), builtin@, unknown_policy);
    let mut needed: Vec<String> = Vec::new();
    let mut acts: Vec<Action> = Vec::new();
    let mut i: usize = 0;
    assert(strings_view(needed@) =~= Seq::<Seq<char>>::empty());
    assert(actions_view(acts@) =~= Seq::<ActionView>::empty());
    while i < entries.len()
        invariant
            i <= entries@.len(),
            derefs(rules@) == by_priority(config_rules@),
            step == organize_step(*snap, path@, by_priority(config_rules@), builtin@, unknown_policy),
            (actions_view(acts@), strings_view(needed@)) == fold_resolutions(
                entries@.subrange(0, i as int),
                step,
            ),
            extends(old(asked)@, asked@),
            !project_root,
            asked@ == old(asked)@ <==> forall|k: int|
                0 <= k < i ==> organize_observed(
                    *snap,
                    #[trigger] entries@[k],
                    path@,
                    by_priority(config_rules@),
                    builtin@,
                    unknown_policy,
                ),
        decreases entries@.len() - i,
    {
        assert(entries@.subrange(0, i + 1).drop_last() =~= entries@.subrange(0, i as int));
        let ghost before = acts@;
        let ghost a0 = asked@;
        let a = resolve_organize_action(
            snap,
            &entries[i],
            path,
            &rules,
            builtin,
            &mut needed,
            unknown_policy,
            asked,
        );
        proof {
            lemma_asked_seq(old(asked)@, a0, asked@);
            if asked@ == old(asked)@ {
                assert forall|k: int| 0 <= k < i + 1 implies organize_observed(
                    *snap,
                    #[trigger] entries@[k],
                    path@,
                    by_priority(config_rules@),
                    builtin@,
                    unknown_policy,
                ) by {
                    if k == i {
                    }
                }
            }
        }
        acts.push(a);
        assert(actions_view(acts@) =~= actions_view(before).push(action_view(a)));
        i += 1;
    }
    assert(entries@.subrange(0, entries@.len() as int) =~= entries@);
    assemble_plan(needed, acts)
}

/// Whether the snapshot holds every observation that planning `entries`
/// by date consults.
pub open spec fn plan_organize_date_observed(
    snap: FsSnapshot,
    target: Seq<char>,
    entries: Seq<Entry>,
    project_root: bool,
    rules: Seq<Rule>,
    t: TemplateView,
) -> bool {
    project_root || forall|k: int|
        0 <= k < entries.len() ==> date_observed(snap, #[trigger] entries[k], target, by_priority(rules), t)
}

/// Organizes the scanned `entries` of `path` by date. It asks for each
/// observation it needed and the snapshot lacked, and asks nothing
/// exactly when the snapshot held them all.
pub fn plan_organize_date(
    path: &str,
    entries: &[Entry],
    project_root: bool,
    config_rules: &[Rule],
    template: &Template,
    date_source: DateSource,
    snap: &FsSnapshot,
    asked: &mut Vec<Query>,
) -> (r: Plan)
    ensures
        actions_view(r.actions@) == plan_organize_date_spec(
            *snap,
            path@,
            entries@,
            project_root,
            config_rules@,
            template@,
        ),
        extends(old(asked)@, final(asked)@),
        final(asked)@ == old(asked)@ <==> plan_organize_date_observed(
            *snap,
            path@,
            entries@,
            project_root,
            config_rules@,
            template@,
        ),
{
    if project_root {
        proof {
            reveal_strlit("target is a software project root");
        }
        return skip_all(entries, "target is a software project root");
    }
    let rules = rules_by_priority(config_rules);
    let ghost step = date_step(*snap, path@, by_priority(config_rules@), template@);
    let mut needed: Vec<String> = Vec::new();
    let mut acts: Vec<Action> = Vec::new();
    let mut i: usize = 0;
    assert(strings_view(needed@) =~= Seq::<Seq<char>>::empty());
    assert(actions_view(acts@) =~= Seq::<ActionView>::empty());
    while i < entries.len()
        invariant
            i <= entries@.len(),
            derefs(rules@) == by_priority(config_rules@),
            step == date_step(*snap, path@, by_priority(config_rules@), template@),
            (actions_view(acts@), strings_view(needed@)) == fold_resolutions(
                entries@.subrange(0, i as int),
                step,
            ),
            extends(old(asked)@, asked@),
            !project_root,
            asked@ == old(asked)@ <==> forall|k: int|
                0 <= k < i ==> date_observed(
                    *snap,
                    #[trigger] entries@[k],
                    path@,
                    by_priority(config_rules@),
                    template@,
                ),
        decreases entries@.len() - i,
    {
        assert(entries@.subrange(0, i + 1).drop_last() =~= entries@.subrange(0, i as int));
        let ghost before = acts@;
        let ghost a0 = asked@;
        let a = resolve_date_action(
            snap,
            &entries[i],
            path,
            &rules,
            template,
            date_source,
            &mut needed,
            asked,
        );
        proof {
            lemma_asked_seq(old(asked)@, a0, asked@);
            if asked@ == old(asked)@ {
                assert forall|k: int| 0 <= k < i + 1 implies date_observed(
                    *snap,
                    #[trigger] entries@[k],
                    path@,
                    by_priority(config_rules@),
                    template@,
                ) by {
                    if k == i {
                    }
                }
            }
        }
        acts.push(a);
        assert(actions_view(acts@) =~= actions_view(before).push(action_view(a)));
        i += 1;
    }
    assert(entries@.subrange(0, entries@.len() as int) =~= entries@);
    assemble_plan(needed, acts)
}

/// The strategy dispatch of a non-recursive organize.
pub open spec fn plan_with_strategy_spec(
    snap: FsSnapshot,
    target: Seq<char>,
    entries: Seq<Entry>,
    project_root: bool,
    policy: EffectivePolicy,
    table: Seq<(Seq<char>, Category)>,
) -> Seq<ActionView> {
    match policy.strategy {
        OrganizeStrategy::Type => plan_organize_spec(
            snap,
            target,
            entries,
            project_root,
            policy.rules@,
            table,
            policy.unknown_policy,
        ),
        OrganizeStrategy::Date => plan_organize_date_spec(
            snap,
            target,
            entries,
            project_root,
            policy.rules@,
            policy.template.unwrap()@,
        ),
        _ => crate::meta_plan::plan_organize_metadata_spec(
            snap,
            target,
            entries,
            project_root,
            policy.rules@,
            policy.metadata_template.unwrap()@,
        ),
    }
}

/// Whether the snapshot holds every observation that planning `entries`
/// under `policy` consults.
pub open spec fn plan_with_strategy_observed(
    snap: FsSnapshot,
    target: Seq<char>,
    entries: Seq<Entry>,
    project_root: bool,
    policy: EffectivePolicy,
    table: Seq<(Seq<char>, Category)>,
) -> bool {
    match policy.strategy {
        OrganizeStrategy::Type => plan_organize_observed(
            snap,
            target,
            entries,
            project_root,
            policy.rules@,
            table,
            policy.unknown_policy,
        ),
        OrganizeStrategy::Date => plan_organize_date_observed(
            snap,
            target,
            entries,
            project_root,
            policy.rules@,
            policy.template.unwrap()@,
        ),
        _ => crate::meta_plan::plan_organize_metadata_observed(
            snap,
            target,
            entries,
            project_root,
            policy.rules@,
            policy.metadata_template.unwrap()@,
        ),
    }
}

/// Organizes the scanned `entries` of `path` under `policy`'s strategy,
/// asking nothing exactly when the snapshot held every observation it
/// needed.
pub fn plan_with_strategy(
    path: &str,
    entries: &[Entry],
    project_root: bool,
    policy: &EffectivePolicy,
    builtin: &CategoryDB,
    snap: &FsSnapshot,
    asked: &mut Vec<Query>,
) -> (r: Plan)
    requires
        crate::config::policy_wf(*policy),
    ensures
        actions_view(r.actions@) == plan_with_strategy_spec(
            *snap,
            path@,
            entries@,
            project_root,
            *policy,
            builtin@,
        ),
        extends(old(asked)@, final(asked)@),
        final(asked)@ == old(asked)@ <==> plan_with_strategy_observed(
            *snap,
            path@,
            entries@,
            project_root,
            *policy,
            builtin@,
        ),
{
    match policy.strategy {
        OrganizeStrategy::Type => plan_organize(
            path,
            entries,
            project_root,
            policy.rules.as_slice(),
            builtin,
            policy.unknown_policy,
            snap,
            asked,
        ),
        OrganizeStrategy::Date => {
            let template = match &policy.template {
                Some(t) => t,
                None => {
                    return skip_all(entries, "invalid policy");
                },
            };
            let date_source = match policy.date_source {
                Some(d) => d,
                None => {
                    return skip_all(entries, "invalid policy");
                },
            };
            plan_organize_date(
                path,
                entries,
                project_root,
                policy.rules.as_slice(),
                template,
                date_source,
                snap,
                asked,
            )
        },
        _ => {
            let template = policy.metadata_template.as_ref().unwrap();
            crate::meta_plan::plan_organize_metadata(
                path,
                entries,
                project_root,
                policy.rules.as_slice(),
                template,
                snap,
                asked,
            )
        },
    }
}

/// One entry's organize plan: the `CreateDir` actions its destination
/// needs, shallow to deep, and the entry's own action.
pub struct EntryPlan {
    pub create_dirs: Vec<Action>,
    pub action: Action,
}

pub open spec fn entry_plan_matches(p: EntryPlan, res: (ActionView, Seq<Seq<char>>)) -> bool {
    &&& action_view(p.action) == res.0
    &&& actions_view(p.create_dirs@) == insert_all_sorted(Seq::empty(), res.1).map_values(
        |d: Seq<char>| create_dir_view(d),
    )
}

/// Plans `type` organize for exactly one entry of `containing_dir` (the
/// same per-entry logic the whole-directory plan uses).
pub fn plan_entry_organize(
    entry: &Entry,
    containing_dir: &str,
    config_rules: &[Rule],
    builtin: &CategoryDB,
    unknown_policy: UnknownPolicy,
    snap: &FsSnapshot,
    asked: &mut Vec<Query>,
) -> (r: EntryPlan)
    ensures
        entry_plan_matches(
            r,
            organize_resolution(
                *snap,
                *entry,
                containing_dir@,
                by_priority(config_rules@),
                builtin@,
                unknown_policy,
            ),
        ),
        extends(old(asked)@, final(asked)@),
        final(asked)@ == old(asked)@ <==> organize_observed(
            *snap,
            *entry,
            containing_dir@,
            by_priority(config_rules@),
            builtin@,
            unknown_policy,
        ),
{
    let rules = rules_by_priority(config_rules);
    let mut needed: Vec<String> = Vec::new();
    assert(strings_view(needed@) =~= Seq::<Seq<char>>::empty());
    let action = resolve_organize_action(
        snap,
        entry,
        containing_dir,
        &rules,
        builtin,
        &mut needed,
        unknown_policy,
        asked,
    );
    EntryPlan { create_dirs: createdir_actions(needed), action }
}

/// Plans `date` organize for exactly one entry of `containing_dir`.
pub fn plan_entry_date(
    entry: &Entry,
    containing_dir: &str,
    config_rules: &[Rule],
    template: &Template,
    date_source: DateSource,
    snap: &FsSnapshot,
    asked: &mut Vec<Query>,
) -> (r: EntryPlan)
    ensures
        entry_plan_matches(
            r,
            date_resolution(
                *snap,
                *entry,
                containing_dir@,
                by_priority(config_rules@),
                template@,
            ),
        ),
        extends(old(asked)@, final(asked)@),
        final(asked)@ == old(asked)@ <==> date_observed(
            *snap,
            *entry,
            containing_dir@,
            by_priority(config_rules@),
            template@,
        ),
{
    let rules = rules_by_priority(config_rules);
    let mut needed: Vec<String> = Vec::new();
    assert(strings_view(needed@) =~= Seq::<Seq<char>>::empty());
    let action = resolve_date_action(
        snap,
        entry,
        containing_dir,
        &rules,
        template,
        date_source,
        &mut needed,
        asked,
    );
    EntryPlan { create_dirs: createdir_actions(needed), action }
}

/// One entry's resolution under `policy`'s strategy.
pub open spec fn strategy_resolution(
    snap: FsSnapshot,
    e: Entry,
    dir: Seq<char>,
    policy: EffectivePolicy,
    table: Seq<(Seq<char>, Category)>,
) -> (ActionView, Seq<Seq<char>>) {
    match policy.strategy {
        OrganizeStrategy::Type => organize_resolution(
            snap,
            e,
            dir,
            by_priority(policy.rules@),
            table,
            policy.unknown_policy,
        ),
        OrganizeStrategy::Date => date_resolution(
            snap,
            e,
            dir,
            by_priority(policy.rules@),
            policy.template.unwrap()@,
        ),
        _ => crate::meta_plan::meta_resolution(
            snap,
            e,
            dir,
            by_priority(policy.rules@),
            policy.metadata_template.unwrap()@,
        ),
    }
}

/// Whether the snapshot holds every observation `strategy_resolution`
/// consults for entry `e`.
pub open spec fn strategy_observed(
    snap: FsSnapshot,
    e: Entry,
    dir: Seq<char>,
    policy: EffectivePolicy,
    table: Seq<(Seq<char>, Category)>,
) -> bool {
    match policy.strategy {
        OrganizeStrategy::Type => organize_observed(
            snap,
            e,
            dir,
            by_priority(policy.rules@),
            table,
            policy.unknown_policy,
        ),
        OrganizeStrategy::Date => date_observed(
            snap,
            e,
            dir,
            by_priority(policy.rules@),
            policy.template.unwrap()@,
        ),
        _ => crate::meta_plan::meta_observed(
            snap,
            e,
            dir,
            by_priority(policy.rules@),
            policy.metadata_template.unwrap()@,
        ),
    }
}

/// Watch's per-candidate planning: dispatches on the policy's strategy
/// exactly as manual organize does.
pub fn plan_entry_with_strategy(
    entry: &Entry,
    containing_dir: &str,
    policy: &EffectivePolicy,
    builtin: &CategoryDB,
    snap: &FsSnapshot,
    asked: &mut Vec<Query>,
) -> (r: EntryPlan)
    requires
        crate::config::policy_wf(*policy),
    ensures
        entry_plan_matches(r, strategy_resolution(*snap, *entry, containing_dir@, *policy, builtin@)),
        extends(old(asked)@, final(asked)@),
        final(asked)@ == old(asked)@ <==> strategy_observed(
            *snap,
            *entry,
            containing_dir@,
            *policy,
            builtin@,
        ),
{
    match policy.strategy {
        OrganizeStrategy::Type => plan_entry_organize(
            entry,
            containing_dir,
            policy.rules.as_slice(),
            builtin,
            policy.unknown_policy,
            snap,
            asked,
        ),
        OrganizeStrategy::Date => {
            let template = policy.template.as_ref().unwrap();
            let date_source = policy.date_source.unwrap();
            plan_entry_date(
                entry,
                containing_dir,
                policy.rules.as_slice(),
                template,
                date_source,
                snap,
                asked,
            )
        },
        _ => {
            let template = policy.metadata_template.as_ref().unwrap();
            crate::meta_plan::plan_entry_metadata(
                entry,
                containing_dir,
                policy.rules.as_slice(),
                template,
                snap,
                asked,
            )
        },
    }
}

// ------------------------------------------------------------------ clean

/// The built-in junk extensions, compared case-insensitively (`X.TMP` is
/// junk too).
pub open spec fn builtin_junk_spec(path: Seq<char>) -> bool {
    match crate::path::extension(path) {
        Some(e) => lower_seq(e) == "tmp"@ || lower_seq(e) == "swp"@ || lower_seq(e) == "swo"@,
        None => false,
    }
}

pub fn is_builtin_junk(path: &str) -> (r: bool)
    ensures
        r == builtin_junk_spec(path@),
{
    match crate::path::path_extension(path) {
        Some(e) => {
            let l = crate::text::to_lower(e.as_str());
            str_eq(l.as_str(), "tmp") || str_eq(l.as_str(), "swp") || str_eq(l.as_str(), "swo")
        },
        None => false,
    }
}

/// The first rule (in order) whose pattern matches `path`.
pub open spec fn first_match(rules: Seq<Rule>, path: Seq<char>) -> Option<Rule>
    decreases rules.len(),
{
    if rules.len() == 0 {
        None
    } else if glob_spec(rules[0].pattern@, path) {
        Some(rules[0])
    } else {
        first_match(rules.drop_first(), path)
    }
}

/// `clean`: protection first, then the first matching rule (only `Trash`
/// and `Skip` are meaningful), then the built-in junk list.
pub open spec fn clean_resolution(e: Entry, rules: Seq<Rule>) -> ActionView {
    let src = e.path@;
    match categorical_skip_spec(e) {
        Some(r) => skip_view(src, r),
        None => match first_match(rules, src) {
            Some(rule) => if rule.action@ == "Trash"@ {
                trash_view(src, rule_reason(rule))
            } else if rule.action@ == "Skip"@ {
                skip_view(src, rule_reason(rule))
            } else if rule.action@ == "Move"@ {
                skip_view(src, "move rule not applicable to clean"@)
            } else {
                skip_view(src, "invalid rule config"@)
            },
            None => if builtin_junk_spec(src) {
                trash_view(src, "built-in junk file"@)
            } else {
                skip_view(src, "not trash candidate"@)
            },
        },
    }
}

pub fn resolve_clean_action(entry: &Entry, rules: &Vec<&Rule>) -> (r: Action)
    ensures
        action_view(r) == clean_resolution(*entry, derefs(rules@)),
{
    let src = entry.path.as_str();
    if let Some(reason) = categorical_skip_reason(entry) {
        return skip_action(src, reason);
    }
    let ghost rs = derefs(rules@);
    let mut i: usize = 0;
    assert(rs.subrange(0, rs.len() as int) =~= rs);
    while i < rules.len()
        invariant
            i <= rules@.len(),
            rs == derefs(rules@),
            src@ == entry.path@,
            categorical_skip_spec(*entry) is None,
            first_match(rs, entry.path@) == first_match(
                rs.subrange(i as int, rs.len() as int),
                entry.path@,
            ),
        decreases rules@.len() - i,
    {
        let ghost rest = rs.subrange(i as int, rs.len() as int);
        assert(rest.drop_first() =~= rs.subrange(i + 1, rs.len() as int));
        assert(rest[0] == *rules@[i as int]);
        let rule: &Rule = rules[i];
        if glob_match(rule.pattern.as_str(), src) {
            let reason = rule_reason_of(rule);
            return if str_eq(rule.action.as_str(), "Trash") {
                trash_action(src, reason.as_str())
            } else if str_eq(rule.action.as_str(), "Skip") {
                skip_action(src, reason.as_str())
            } else if str_eq(rule.action.as_str(), "Move") {
                skip_action(src, "move rule not applicable to clean")
            } else {
                skip_action(src, "invalid rule config")
            };
        }
        i += 1;
    }
    if is_builtin_junk(src) {
        trash_action(src, "built-in junk file")
    } else {
        skip_action(src, "not trash candidate")
    }
}

pub open spec fn plan_clean_spec(entries: Seq<Entry>, project_root: bool, rules: Seq<Rule>) -> Seq<
    ActionView,
> {
    if project_root {
        skip_all_spec(entries, project_root_reason())
    } else {
        entries.map_values(|e: Entry| clean_resolution(e, by_priority(rules)))
    }
}

/// Plans `clean` for one directory's scanned `entries`.
pub fn plan_clean(path: &str, entries: &[Entry], project_root: bool, config_rules: &[Rule], builtin: &CategoryDB) -> (r: Plan)
    ensures
        actions_view(r.actions@) == plan_clean_spec(entries@, project_root, config_rules@),
{
    if project_root {
        proof {
            reveal_strlit("target is a software project root");
        }
        return skip_all(entries, "target is a software project root");
    }
    let rules = rules_by_priority(config_rules);
    let mut actions: Vec<Action> = Vec::new();
    let mut i: usize = 0;
    while i < entries.len()
        invariant
            i <= entries@.len(),
            derefs(rules@) == by_priority(config_rules@),
            actions_view(actions@) == entries@.subrange(0, i as int).map_values(
                |e: Entry| clean_resolution(e, by_priority(config_rules@)),
            ),
        decreases entries@.len() - i,
    {
        let ghost before = actions@;
        let a = resolve_clean_action(&entries[i], &rules);
        actions.push(a);
        assert(actions_view(actions@) =~= actions_view(before).push(action_view(a)));
        assert(entries@.subrange(0, i + 1).map_values(
            |e: Entry| clean_resolution(e, by_priority(config_rules@)),
        ) =~= entries@.subrange(0, i as int).map_values(
            |e: Entry| clean_resolution(e, by_priority(config_rules@)),
        ).push(clean_resolution(entries@[i as int], by_priority(config_rules@))));
        i += 1;
    }
    assert(entries@.subrange(0, entries@.len() as int) =~= entries@);
    Plan { actions }
}

// -------------------------------------------------------------- recursion

pub open spec fn listing_index(ls: Seq<(String, Vec<Entry>)>, d: Seq<char>) -> Option<int>
    decreases ls.len(),
{
    if ls.len() == 0 {
        None
    } else if ls[0].0@ == d {
        Some(0)
    } else {
        match listing_index(ls.drop_first(), d) {
            Some(k) => Some(k + 1),
            None => None,
        }
    }
}

proof fn lemma_listing_index(ls: Seq<(String, Vec<Entry>)>, d: Seq<char>)
    ensures
        match listing_index(ls, d) {
            Some(k) => 0 <= k < ls.len() && ls[k].0@ == d,
            None => true,
        },
    decreases ls.len(),
{
    if ls.len() > 0 && ls[0].0@ != d {
        lemma_listing_index(ls.drop_first(), d);
    }
}

/// The scanned entries of directory `d` (none when it was not observed).
pub open spec fn listing_at(snap: FsSnapshot, d: Seq<char>) -> Seq<Entry> {
    match listing_index(snap.listings@, d) {
        Some(k) => snap.listings@[k].1@,
        None => Seq::empty(),
    }
}

/// A subdirectory recursive discovery descends into: a directory that is
/// no traversal boundary and, under a date template, no name the
/// template's first level could have generated.
pub open spec fn descends_into(e: Entry, t: Option<TemplateView>) -> bool {
    &&& e.is_dir
    &&& crate::scanner::traversal_spec(e) is None
    &&& match t {
        Some(tv) => !crate::config::could_be_generated(tv, 0, name_or_empty(e.path@)),
        None => true,
    }
}

/// `c` is a subdirectory of `d` that discovery descends into.
pub open spec fn child_of(snap: FsSnapshot, t: Option<TemplateView>, d: Seq<char>, c: Seq<char>) -> bool {
    exists|k: int|
        0 <= k < listing_at(snap, d).len() && (#[trigger] listing_at(snap, d)[k]).path@ == c
            && descends_into(listing_at(snap, d)[k], t)
}

/// Directory `v[i]` is a child of an earlier directory of `v`.
pub open spec fn has_parent(snap: FsSnapshot, t: Option<TemplateView>, v: Seq<Seq<char>>, i: int) -> bool {
    exists|j: int| 0 <= j < i && #[trigger] child_of(snap, t, v[j], v[i])
}

/// Every directory of `v` but the first is a child of an earlier one.
pub open spec fn justified(snap: FsSnapshot, t: Option<TemplateView>, v: Seq<Seq<char>>) -> bool {
    forall|i: int| 0 < i < v.len() ==> #[trigger] has_parent(snap, t, v, i)
}

proof fn lemma_justified_push(
    snap: FsSnapshot,
    t: Option<TemplateView>,
    v: Seq<Seq<char>>,
    x: Seq<char>,
    j: int,
)
    requires
        justified(snap, t, v),
        0 <= j < v.len(),
        child_of(snap, t, v[j], x),
    ensures
        justified(snap, t, v.push(x)),
{
    let w = v.push(x);
    assert forall|i: int| 0 < i < w.len() implies #[trigger] has_parent(snap, t, w, i) by {
        if i == v.len() {
            assert(w[j] == v[j]);
            assert(child_of(snap, t, w[j], w[i]));
        } else {
            assert(w[i] == v[i]);
            assert(has_parent(snap, t, v, i));
            let j0 = choose|j0: int| 0 <= j0 < i && #[trigger] child_of(snap, t, v[j0], v[i]);
            assert(w[j0] == v[j0]);
            assert(child_of(snap, t, w[j0], w[i]));
        }
    }
}

/// `v` lists exactly the directories reachable from `root` through
/// descendable subdirectories, each once, `root` first, each other one
/// after a directory it is a child of.
pub open spec fn discovery_ok(snap: FsSnapshot, t: Option<TemplateView>, root: Seq<char>, v: Seq<Seq<char>>) -> bool {
    &&& v.len() >= 1
    &&& v[0] == root
    &&& v.no_duplicates()
    &&& justified(snap, t, v)
    &&& forall|j: int, c: Seq<char>| 0 <= j < v.len() && #[trigger] child_of(snap, t, v[j], c) ==> v.contains(c)
}

pub open spec fn flat_paths(ls: Seq<(String, Vec<Entry>)>) -> Seq<Seq<char>>
    decreases ls.len(),
{
    if ls.len() == 0 {
        Seq::empty()
    } else {
        flat_paths(ls.drop_last()) + ls.last().1@.map_values(|e: Entry| e.path@)
    }
}

proof fn lemma_flat_paths_contains(ls: Seq<(String, Vec<Entry>)>, k: int, j: int)
    requires
        0 <= k < ls.len(),
        0 <= j < ls[k].1@.len(),
    ensures
        flat_paths(ls).contains(ls[k].1@[j].path@),
    decreases ls.len(),
{
    let tail = ls.last().1@.map_values(|e: Entry| e.path@);
    if k == ls.len() - 1 {
        assert(tail[j] == ls[k].1@[j].path@);
        assert((flat_paths(ls.drop_last()) + tail)[flat_paths(ls.drop_last()).len() + j] == tail[j]);
    } else {
        lemma_flat_paths_contains(ls.drop_last(), k, j);
        let w = choose|w: int| 0 <= w < flat_paths(ls.drop_last()).len() && flat_paths(ls.drop_last())[w] == ls[k].1@[j].path@;
        assert((flat_paths(ls.drop_last()) + tail)[w] == ls[k].1@[j].path@);
    }
}

/// How many of `flat` are not yet in `v`.
pub open spec fn unvisited(flat: Seq<Seq<char>>, v: Seq<Seq<char>>) -> nat
    decreases flat.len(),
{
    if flat.len() == 0 {
        0
    } else {
        unvisited(flat.drop_last(), v) + if v.contains(flat.last()) {
            0nat
        } else {
            1nat
        }
    }
}

proof fn lemma_unvisited_push(flat: Seq<Seq<char>>, v: Seq<Seq<char>>, c: Seq<char>)
    ensures
        unvisited(flat, v.push(c)) <= unvisited(flat, v),
        flat.contains(c) && !v.contains(c) ==> unvisited(flat, v.push(c)) < unvisited(flat, v),
    decreases flat.len(),
{
    if flat.len() > 0 {
        lemma_unvisited_push(flat.drop_last(), v, c);
        if v.contains(flat.last()) {
            let w = choose|w: int| 0 <= w < v.len() && v[w] == flat.last();
            assert(v.push(c)[w] == flat.last());
        }
        if flat.last() == c {
            assert(v.push(c)[v.len() as int] == c);
        }
        if flat.contains(c) && !v.contains(c) && flat.last() != c {
            let w = choose|w: int| 0 <= w < flat.len() && flat[w] == c;
            assert(flat.drop_last()[w] == c);
        }
    }
}

fn find_listing(snap: &FsSnapshot, d: &str, asked: &mut Vec<Query>) -> (r: Option<usize>)
    ensures
        match r {
            Some(k) => listing_index(snap.listings@, d@) == Some(k as int) && k < snap.listings@.len(),
            None => listing_index(snap.listings@, d@) is None,
        },
        extends(old(asked)@, final(asked)@),
        lookup_asked(old(asked)@, final(asked)@, r is Some, QueryView::List(d@)),
{
    let ghost ls = snap.listings@;
    let mut i: usize = 0;
    assert(ls.subrange(0, ls.len() as int) =~= ls);
    while i < snap.listings.len()
        invariant
            i <= ls.len(),
            ls == snap.listings@,
            forall|j: int| 0 <= j < i ==> ls[j].0@ != d@,
            listing_index(ls, d@) == match listing_index(ls.subrange(i as int, ls.len() as int), d@) {
                Some(k) => Some(k + i),
                None => None,
            },
        decreases ls.len() - i,
    {
        let ghost rest = ls.subrange(i as int, ls.len() as int);
        assert(rest.drop_first() =~= ls.subrange(i + 1, ls.len() as int));
        assert(rest[0] == ls[i as int]);
        if str_eq(snap.listings[i].0.as_str(), d) {
            return Some(i);
        }
        i += 1;
    }
    assert(ls.subrange(ls.len() as int, ls.len() as int).len() == 0);
    asked.push(Query::List(d.to_owned()));
    None
}

fn contains_str(v: &Vec<String>, s: &str) -> (r: bool)
    ensures
        r == strings_view(v@).contains(s@),
{
    let mut i: usize = 0;
    while i < v.len()
        invariant
            i <= v@.len(),
            forall|j: int| 0 <= j < i ==> v@[j]@ != s@,
        decreases v@.len() - i,
    {
        if str_eq(v[i].as_str(), s) {
            assert(strings_view(v@)[i as int] == s@);
            return true;
        }
        i += 1;
    }
    proof {
        if strings_view(v@).contains(s@) {
            let w = choose|w: int| 0 <= w < strings_view(v@).len() && strings_view(v@)[w] == s@;
            assert(v@[w]@ == s@);
        }
    }
    false
}

fn descends(entry: &Entry, template: Option<&Template>) -> (r: bool)
    ensures
        r == descends_into(*entry, match template {
            Some(t) => Some(t@),
            None => None,
        }),
{
    if !entry.is_dir {
        return false;
    }
    if crate::scanner::traversal_reason(entry).is_some() {
        return false;
    }
    match template {
        Some(t) => {
            let name = file_name_or_empty(entry.path.as_str());
            !t.component_could_be_generated(0, name.as_str())
        },
        None => true,
    }
}

pub open spec fn topt_view(t: Option<&Template>) -> Option<TemplateView> {
    match t {
        Some(x) => Some(x@),
        None => None,
    }
}

proof fn lemma_child_in_flat(snap: FsSnapshot, t: Option<TemplateView>, d: Seq<char>, c: Seq<char>)
    requires
        child_of(snap, t, d, c),
    ensures
        flat_paths(snap.listings@).contains(c),
{
    lemma_listing_index(snap.listings@, d);
    let k = listing_index(snap.listings@, d).unwrap();
    let m = choose|m: int|
        0 <= m < listing_at(snap, d).len() && (#[trigger] listing_at(snap, d)[m]).path@ == c
            && descends_into(listing_at(snap, d)[m], t);
    lemma_flat_paths_contains(snap.listings@, k, m);
}

/// Every directory reachable from `root` through descendable
/// subdirectories, each once (visit order).
fn discover_visit(
    snap: &FsSnapshot,
    root: &str,
    template: Option<&Template>,
    asked: &mut Vec<Query>,
) -> (v: Vec<String>)
    ensures
        discovery_ok(*snap, topt_view(template), root@, strings_view(v@)),
        extends(old(asked)@, final(asked)@),
        final(asked)@ == old(asked)@ ==> all_listed(*snap, strings_view(v@)),
{
    let ghost t = topt_view(template);
    let ghost flat = flat_paths(snap.listings@);
    let mut v: Vec<String> = Vec::new();
    v.push(root.to_owned());
    let mut pending: Vec<String> = Vec::new();
    pending.push(root.to_owned());
    assert(strings_view(v@) =~= seq![root@]);
    assert(strings_view(pending@) =~= seq![root@]);
    assert(strings_view(v@)[0] == pending@[0]@);
    while pending.len() > 0
        invariant
            t == topt_view(template),
            flat == flat_paths(snap.listings@),
            strings_view(v@).len() >= 1,
            strings_view(v@)[0] == root@,
            strings_view(v@).no_duplicates(),
            justified(*snap, t, strings_view(v@)),
            forall|p: int|
                0 <= p < pending@.len() ==> strings_view(v@).contains(#[trigger] pending@[p]@),
            forall|j: int, c: Seq<char>|
                0 <= j < strings_view(v@).len() && #[trigger] child_of(
                    *snap,
                    t,
                    strings_view(v@)[j],
                    c,
                ) && !strings_view(pending@).contains(strings_view(v@)[j]) ==> strings_view(
                    v@,
                ).contains(c),
            extends(old(asked)@, asked@),
            asked@ == old(asked)@ ==> forall|j: int|
                0 <= j < strings_view(v@).len() && !strings_view(pending@).contains(
                    #[trigger] strings_view(v@)[j],
                ) ==> listing_index(snap.listings@, strings_view(v@)[j]) is Some,
        decreases unvisited(flat, strings_view(v@)), pending@.len(),
    {
        let ghost u0 = unvisited(flat, strings_view(v@));
        let ghost p0 = pending@.len();
        let ghost v0 = strings_view(v@);
        let ghost pend0 = strings_view(pending@);
        let dir = pending.pop().unwrap();
        assert(strings_view(pending@) =~= pend0.drop_last());
        assert(v0.contains(dir@)) by {
            assert(pend0.last() == dir@);
        }
        let ghost jd = choose|j: int| 0 <= j < v0.len() && v0[j] == dir@;
        let ghost ab = asked@;
        let found = find_listing(snap, dir.as_str(), asked);
        proof {
            if found is None {
                assert(asked@.len() != old(asked)@.len());
            }
        }
        match found {
            None => {
                assert(listing_at(*snap, dir@) =~= Seq::<Entry>::empty());
                assert forall|j: int, c: Seq<char>|
                    0 <= j < strings_view(v@).len() && #[trigger] child_of(
                        *snap,
                        t,
                        strings_view(v@)[j],
                        c,
                    ) && !strings_view(pending@).contains(strings_view(v@)[j]) implies strings_view(
                    v@,
                ).contains(c) by {
                    if strings_view(v@)[j] != dir@ {
                        if pend0.contains(strings_view(v@)[j]) {
                            let w = choose|w: int|
                                0 <= w < pend0.len() && pend0[w] == strings_view(v@)[j];
                            assert(w != pend0.len() - 1);
                            assert(strings_view(pending@)[w] == strings_view(v@)[j]);
                        }
                    }
                }
            },
            Some(k) => {
                let entries = &snap.listings[k].1;
                assert(listing_at(*snap, dir@) == entries@);
                let mut i: usize = 0;
                while i < entries.len()
                    invariant
                        t == topt_view(template),
                        flat == flat_paths(snap.listings@),
                        listing_at(*snap, dir@) == entries@,
                        0 <= jd < v0.len(),
                        v0[jd] == dir@,
                        i <= entries@.len(),
                        strings_view(v@).len() >= v0.len(),
                        forall|x: int| 0 <= x < v0.len() ==> strings_view(v@)[x] == v0[x],
                        strings_view(v@)[0] == root@,
                        strings_view(v@).no_duplicates(),
                        justified(*snap, t, strings_view(v@)),
                        forall|p: int|
                            0 <= p < pending@.len() ==> strings_view(v@).contains(
                                #[trigger] pending@[p]@,
                            ),
                        forall|p: int|
                            0 <= p < pend0.len() - 1 ==> strings_view(pending@)[p] == #[trigger] pend0[p],
                        strings_view(pending@).len() >= pend0.len() - 1,
                        forall|p: int|
                            pend0.len() - 1 <= p < strings_view(pending@).len() ==> !v0.contains(
                                #[trigger] strings_view(pending@)[p],
                            ),
                        forall|j: int, c: Seq<char>|
                            0 <= j < v0.len() && #[trigger] child_of(*snap, t, v0[j], c)
                                && !pend0.contains(v0[j]) ==> strings_view(v@).contains(c),
                        forall|m: int|
                            0 <= m < i && descends_into(#[trigger] entries@[m], t) ==> strings_view(
                                v@,
                            ).contains(entries@[m].path@),
                        forall|x: int|
                            v0.len() <= x < strings_view(v@).len() ==> strings_view(
                                pending@,
                            ).contains(#[trigger] strings_view(v@)[x]),
                        unvisited(flat, strings_view(v@)) <= u0,
                        unvisited(flat, strings_view(v@)) < u0 || pending@.len() < p0,
                        extends(old(asked)@, asked@),
                        asked@ == ab,
                        ab == old(asked)@ ==> forall|j: int|
                            0 <= j < v0.len() && !pend0.contains(#[trigger] v0[j]) ==> listing_index(
                                snap.listings@,
                                v0[j],
                            ) is Some,
                        listing_index(snap.listings@, dir@) is Some,
                    decreases entries@.len() - i,
                {
                    let e = &entries[i];
                    if descends(e, template) && !contains_str(&v, e.path.as_str()) {
                        let ghost vb = strings_view(v@);
                        let ghost pb = strings_view(pending@);
                        proof {
                            assert(child_of(*snap, t, dir@, e.path@)) by {
                                assert(listing_at(*snap, dir@)[i as int] == *e);
                            }
                            lemma_child_in_flat(*snap, t, dir@, e.path@);
                            lemma_unvisited_push(flat, vb, e.path@);
                            assert(vb[jd] == dir@);
                            lemma_justified_push(*snap, t, vb, e.path@, jd);
                        }
                        v.push(e.path.clone());
                        pending.push(e.path.clone());
                        assert(strings_view(v@) =~= vb.push(e.path@));
                        assert(strings_view(pending@) =~= pb.push(e.path@));
                        proof {
                            assert(strings_view(v@)[jd] == dir@);
                            assert(child_of(*snap, t, strings_view(v@)[jd], e.path@));
                            assert forall|x: int|
                                v0.len() <= x < strings_view(v@).len() implies strings_view(
                                pending@,
                            ).contains(#[trigger] strings_view(v@)[x]) by {
                                if x == vb.len() {
                                    assert(strings_view(pending@)[pb.len() as int] == e.path@);
                                } else {
                                    let w = choose|w: int|
                                        0 <= w < pb.len() && pb[w] == vb[x];
                                    assert(strings_view(pending@)[w] == vb[x]);
                                }
                            }
                            assert forall|p: int| 0 <= p < pending@.len() implies strings_view(
                                v@,
                            ).contains(#[trigger] pending@[p]@) by {
                                if p == pb.len() {
                                    assert(strings_view(v@)[vb.len() as int] == e.path@);
                                } else {
                                    assert(pb[p] == pending@[p]@);
                                    let w = choose|w: int| 0 <= w < vb.len() && vb[w] == pb[p];
                                    assert(strings_view(v@)[w] == pb[p]);
                                }
                            }
                            assert forall|j: int, c: Seq<char>|
                                0 <= j < v0.len() && #[trigger] child_of(*snap, t, v0[j], c)
                                    && !pend0.contains(v0[j]) implies strings_view(v@).contains(
                                c,
                            ) by {
                                let w = choose|w: int| 0 <= w < vb.len() && vb[w] == c;
                                assert(strings_view(v@)[w] == c);
                            }
                            assert forall|m: int|
                                0 <= m < i + 1 && descends_into(#[trigger] entries@[m], t) implies strings_view(
                                v@,
                            ).contains(entries@[m].path@) by {
                                if m == i {
                                    assert(strings_view(v@)[vb.len() as int] == e.path@);
                                } else {
                                    let w = choose|w: int|
                                        0 <= w < vb.len() && vb[w] == entries@[m].path@;
                                    assert(strings_view(v@)[w] == entries@[m].path@);
                                }
                            }
                            assert forall|p: int|
                                pend0.len() - 1 <= p < strings_view(pending@).len() implies !v0.contains(
                                #[trigger] strings_view(pending@)[p],
                            ) by {
                                if p == pb.len() {
                                    if v0.contains(e.path@) {
                                        let w = choose|w: int| 0 <= w < v0.len() && v0[w] == e.path@;
                                        assert(vb[w] == e.path@);
                                    }
                                }
                            }
                        }
                    } else {
                        proof {
                            if descends_into(*e, t) {
                                assert(strings_view(v@).contains(e.path@));
                            }
                        }
                    }
                    i += 1;
                }
                proof {
                    assert forall|j: int, c: Seq<char>|
                        0 <= j < strings_view(v@).len() && #[trigger] child_of(
                            *snap,
                            t,
                            strings_view(v@)[j],
                            c,
                        ) && !strings_view(pending@).contains(strings_view(v@)[j]) implies strings_view(
                        v@,
                    ).contains(c) by {
                        if j >= v0.len() {
                            assert(strings_view(pending@).contains(strings_view(v@)[j]));
                        } else if v0[j] == dir@ {
                            let m = choose|m: int|
                                0 <= m < listing_at(*snap, dir@).len() && (#[trigger] listing_at(
                                    *snap,
                                    dir@,
                                )[m]).path@ == c && descends_into(listing_at(*snap, dir@)[m], t);
                            assert(entries@[m].path@ == c);
                        } else {
                            assert(strings_view(v@)[j] == v0[j]);
                            if pend0.contains(v0[j]) {
                                let w = choose|w: int| 0 <= w < pend0.len() && pend0[w] == v0[j];
                                if w == pend0.len() - 1 {
                                    assert(pend0.last() == dir@);
                                } else {
                                    assert(strings_view(pending@)[w] == v0[j]);
                                }
                            }
                        }
                    }
                    if asked@ == old(asked)@ {
                        assert forall|j: int|
                            0 <= j < strings_view(v@).len() && !strings_view(pending@).contains(
                                #[trigger] strings_view(v@)[j],
                            ) implies listing_index(snap.listings@, strings_view(v@)[j]) is Some by {
                            if j >= v0.len() {
                                assert(strings_view(pending@).contains(strings_view(v@)[j]));
                            } else if v0[j] == dir@ {
                            } else {
                                assert(strings_view(v@)[j] == v0[j]);
                                if pend0.contains(v0[j]) {
                                    let w = choose|w: int| 0 <= w < pend0.len() && pend0[w] == v0[j];
                                    if w == pend0.len() - 1 {
                                        assert(pend0.last() == dir@);
                                    } else {
                                        assert(strings_view(pending@)[w] == v0[j]);
                                    }
                                }
                            }
                        }
                    }
                }
            },
        }
    }
    assert(strings_view(pending@) =~= Seq::<Seq<char>>::empty());
    v
}

/// Every one of `dirs` has its listing in the snapshot.
pub open spec fn all_listed(snap: FsSnapshot, dirs: Seq<Seq<char>>) -> bool {
    forall|k: int| 0 <= k < dirs.len() ==> listing_index(snap.listings@, #[trigger] dirs[k]) is Some
}

/// The discovered directories, sorted by path, each once. When it asks
/// nothing, the snapshot held the listing of every one of them.
pub fn discover_dirs(
    snap: &FsSnapshot,
    root: &str,
    template: Option<&Template>,
    asked: &mut Vec<Query>,
) -> (r: Vec<String>)
    ensures
        exists|v: Seq<Seq<char>>|
            discovery_ok(*snap, topt_view(template), root@, v) && strings_view(r@)
                == insert_all_sorted(Seq::empty(), v),
        extends(old(asked)@, final(asked)@),
        final(asked)@ == old(asked)@ ==> all_listed(*snap, strings_view(r@)),
{
    let v = discover_visit(snap, root, template, asked);
    let ghost vv = strings_view(v@);
    let mut sorted: Vec<String> = Vec::new();
    assert(strings_view(sorted@) =~= Seq::<Seq<char>>::empty());
    insert_dirs(&mut sorted, v);
    proof {
        crate::path::lemma_insert_all_sorted_members(Seq::empty(), vv);
        if asked@ == old(asked)@ {
            assert forall|k: int| 0 <= k < strings_view(sorted@).len() implies listing_index(
                snap.listings@,
                #[trigger] strings_view(sorted@)[k],
            ) is Some by {
                let y = strings_view(sorted@)[k];
                assert(insert_all_sorted(Seq::empty(), vv).contains(y));
                let w = choose|w: int| 0 <= w < vv.len() && vv[w] == y;
                assert(all_listed(*snap, vv));
            }
        }
    }
    sorted
}

/// What one scanned entry of a recursively organized directory yields:
/// nothing for a subdirectory discovery descends into, a skip for one it
/// stops at, and the entry's resolution for a file.
pub open spec fn rec_step_type(
    snap: FsSnapshot,
    rules: Seq<Rule>,
    table: Seq<(Seq<char>, Category)>,
    up: UnknownPolicy,
) -> spec_fn(Seq<char>, Entry) -> Option<(ActionView, Seq<Seq<char>>)> {
    |dir: Seq<char>, e: Entry|
        if e.is_dir {
            match crate::scanner::traversal_spec(e) {
                Some(r) => Some((skip_view(e.path@, r), Seq::empty())),
                None => None,
            }
        } else {
            Some(organize_resolution(snap, e, dir, rules, table, up))
        }
}

/// As `rec_step_type`, for `date`: a subdirectory whose name the template's
/// first level could have generated is reported and never entered.
pub open spec fn rec_step_date(snap: FsSnapshot, rules: Seq<Rule>, t: TemplateView) -> spec_fn(
    Seq<char>,
    Entry,
) -> Option<(ActionView, Seq<Seq<char>>)> {
    |dir: Seq<char>, e: Entry|
        if e.is_dir {
            match crate::scanner::traversal_spec(e) {
                Some(r) => Some((skip_view(e.path@, r), Seq::empty())),
                None => if crate::config::could_be_generated(t, 0, name_or_empty(e.path@)) {
                    Some((skip_view(e.path@, "date-organized directory"@), Seq::empty()))
                } else {
                    None
                },
            }
        } else {
            Some(date_resolution(snap, e, dir, rules, t))
        }
}

pub open spec fn entries_fold(
    acc: (Seq<ActionView>, Seq<Seq<char>>),
    dir: Seq<char>,
    entries: Seq<Entry>,
    f: spec_fn(Seq<char>, Entry) -> Option<(ActionView, Seq<Seq<char>>)>,
) -> (Seq<ActionView>, Seq<Seq<char>>)
    decreases entries.len(),
{
    if entries.len() == 0 {
        acc
    } else {
        let a = entries_fold(acc, dir, entries.drop_last(), f);
        match f(dir, entries.last()) {
            Some(res) => (a.0.push(res.0), insert_all_sorted(a.1, res.1)),
            None => a,
        }
    }
}

/// Every listed directory in turn, each one its own organize context.
pub open spec fn dirs_fold(
    snap: FsSnapshot,
    dirs: Seq<Seq<char>>,
    f: spec_fn(Seq<char>, Entry) -> Option<(ActionView, Seq<Seq<char>>)>,
) -> (Seq<ActionView>, Seq<Seq<char>>)
    decreases dirs.len(),
{
    if dirs.len() == 0 {
        (Seq::empty(), Seq::empty())
    } else {
        entries_fold(dirs_fold(snap, dirs.drop_last(), f), dirs.last(), listing_at(snap, dirs.last()), f)
    }
}

/// The result of a recursive organize: the flattened plan and how many
/// directories it covered.
pub struct RecursivePlan {
    pub plan: Plan,
    pub dirs_scanned: usize,
}

enum RecMode<'a> {
    Type(&'a CategoryDB, UnknownPolicy),
    Date(&'a Template, DateSource),
}

spec fn rec_mode_step(snap: FsSnapshot, rules: Seq<Rule>, m: RecMode) -> spec_fn(
    Seq<char>,
    Entry,
) -> Option<(ActionView, Seq<Seq<char>>)> {
    match m {
        RecMode::Type(db, up) => rec_step_type(snap, rules, db@, up),
        RecMode::Date(t, _) => rec_step_date(snap, rules, t@),
    }
}

spec fn rec_mode_obs(snap: FsSnapshot, rules: Seq<Rule>, m: RecMode) -> spec_fn(Seq<char>, Entry) -> bool {
    match m {
        RecMode::Type(db, up) => type_observer(snap, rules, db@, up),
        RecMode::Date(t, _) => date_observer(snap, rules, t@),
    }
}

/// What a `type` plan of a file in `dir` consults is in the snapshot.
pub open spec fn type_observer(
    snap: FsSnapshot,
    rules: Seq<Rule>,
    table: Seq<(Seq<char>, Category)>,
    up: UnknownPolicy,
) -> spec_fn(Seq<char>, Entry) -> bool {
    |dir: Seq<char>, e: Entry| organize_observed(snap, e, dir, rules, table, up)
}

/// What a `date` plan of a file in `dir` consults is in the snapshot.
pub open spec fn date_observer(snap: FsSnapshot, rules: Seq<Rule>, t: TemplateView) -> spec_fn(Seq<char>, Entry) -> bool {
    |dir: Seq<char>, e: Entry| date_observed(snap, e, dir, rules, t)
}

/// The snapshot holds `d`'s listing and what the plan of each file in it
/// consults.
pub open spec fn dir_observed(snap: FsSnapshot, d: Seq<char>, obs: spec_fn(Seq<char>, Entry) -> bool) -> bool {
    &&& listing_index(snap.listings@, d) is Some
    &&& forall|m: int|
        0 <= m < listing_at(snap, d).len() && !listing_at(snap, d)[m].is_dir ==> obs(
            d,
            #[trigger] listing_at(snap, d)[m],
        )
}

pub open spec fn dirs_observed(snap: FsSnapshot, dirs: Seq<Seq<char>>, obs: spec_fn(Seq<char>, Entry) -> bool) -> bool {
    forall|k: int| 0 <= k < dirs.len() ==> dir_observed(snap, #[trigger] dirs[k], obs)
}

/// When a recursive plan asked nothing: the snapshot held the root's
/// listing (a project root), or every discovered directory's listing and
/// what each file's plan consults.
pub open spec fn recursive_observed(
    snap: FsSnapshot,
    root: Seq<char>,
    project_root: bool,
    t: Option<TemplateView>,
    step: spec_fn(Seq<char>, Entry) -> Option<(ActionView, Seq<Seq<char>>)>,
    obs: spec_fn(Seq<char>, Entry) -> bool,
    r: RecursivePlan,
) -> bool {
    if project_root {
        listing_index(snap.listings@, root) is Some
    } else {
        exists|v: Seq<Seq<char>>|
            #![trigger discovery_ok(snap, t, root, v)]
            discovery_ok(snap, t, root, v) && actions_view(r.plan.actions@) == assemble(
                dirs_fold(snap, insert_all_sorted(Seq::empty(), v), step),
            ) && dirs_observed(snap, insert_all_sorted(Seq::empty(), v), obs)
    }
}

pub(crate) fn listing_entries<'a>(snap: &'a FsSnapshot, dir: &str, asked: &mut Vec<Query>) -> (r: &'a [Entry])
    ensures
        r@ == listing_at(*snap, dir@),
        extends(old(asked)@, final(asked)@),
        lookup_asked(
            old(asked)@,
            final(asked)@,
            listing_index(snap.listings@, dir@) is Some,
            QueryView::List(dir@),
        ),
{
    match find_listing(snap, dir, asked) {
        Some(k) => snap.listings[k].1.as_slice(),
        None => {
            assert(listing_at(*snap, dir@) =~= Seq::<Entry>::empty());
            &[]
        },
    }
}

fn plan_dirs(
    snap: &FsSnapshot,
    dirs: &Vec<String>,
    rules: &Vec<&Rule>,
    mode: &RecMode,
    asked: &mut Vec<Query>,
) -> (r: Plan)
    ensures
        actions_view(r.actions@) == assemble(
            dirs_fold(*snap, strings_view(dirs@), rec_mode_step(*snap, derefs(rules@), *mode)),
        ),
        extends(old(asked)@, final(asked)@),
        final(asked)@ == old(asked)@ ==> dirs_observed(
            *snap,
            strings_view(dirs@),
            rec_mode_obs(*snap, derefs(rules@), *mode),
        ),
{
    let ghost ob = rec_mode_obs(*snap, derefs(rules@), *mode);
    let ghost f = rec_mode_step(*snap, derefs(rules@), *mode);
    let ghost ds = strings_view(dirs@);
    let mut needed: Vec<String> = Vec::new();
    let mut acts: Vec<Action> = Vec::new();
    let mut d: usize = 0;
    assert(strings_view(needed@) =~= Seq::<Seq<char>>::empty());
    assert(actions_view(acts@) =~= Seq::<ActionView>::empty());
    while d < dirs.len()
        invariant
            d <= dirs@.len(),
            ds == strings_view(dirs@),
            f == rec_mode_step(*snap, derefs(rules@), *mode),
            (actions_view(acts@), strings_view(needed@)) == dirs_fold(*snap, ds.subrange(0, d as int), f),
            extends(old(asked)@, asked@),
            ob == rec_mode_obs(*snap, derefs(rules@), *mode),
            asked@ == old(asked)@ ==> forall|k: int| 0 <= k < d ==> dir_observed(*snap, #[trigger] ds[k], ob),
        decreases dirs@.len() - d,
    {
        let dir = dirs[d].as_str();
        assert(ds.subrange(0, d + 1).drop_last() =~= ds.subrange(0, d as int));
        assert(ds.subrange(0, d + 1).last() == dir@);
        let ghost ad = asked@;
        let entries = listing_entries(snap, dir, asked);
        let ghost ae = asked@;
        proof {
            if listing_index(snap.listings@, dir@) is None {
                assert(ae.len() != ad.len());
            }
        }
        let ghost acc0 = (actions_view(acts@), strings_view(needed@));
        let mut i: usize = 0;
        while i < entries.len()
            invariant
                i <= entries@.len(),
                f == rec_mode_step(*snap, derefs(rules@), *mode),
                (actions_view(acts@), strings_view(needed@)) == entries_fold(
                    acc0,
                    dir@,
                    entries@.subrange(0, i as int),
                    f,
                ),
                extends(old(asked)@, asked@),
                extends(ae, asked@),
                extends(old(asked)@, ad),
                extends(ad, ae),
                ob == rec_mode_obs(*snap, derefs(rules@), *mode),
                entries@ == listing_at(*snap, dir@),
                ae == ad ==> listing_index(snap.listings@, dir@) is Some,
                ad == old(asked)@ ==> forall|k: int| 0 <= k < d ==> dir_observed(*snap, #[trigger] ds[k], ob),
                asked@ == ae ==> forall|m: int|
                    0 <= m < i && !entries@[m].is_dir ==> ob(dir@, #[trigger] entries@[m]),
            decreases entries@.len() - i,
        {
            let e = &entries[i];
            let ghost ai = asked@;
            assert(entries@.subrange(0, i + 1).drop_last() =~= entries@.subrange(0, i as int));
            assert(entries@.subrange(0, i + 1).last() == *e);
            let ghost before = acts@;
            if e.is_dir {
                match crate::scanner::traversal_reason(e) {
                    Some(reason) => {
                        acts.push(skip_action(e.path.as_str(), reason));
                        assert(actions_view(acts@) =~= actions_view(before).push(
                            skip_view(e.path@, reason@),
                        ));
                        assert(insert_all_sorted(strings_view(needed@), Seq::empty())
                            == strings_view(needed@));
                    },
                    None => {
                        match mode {
                            RecMode::Date(t, _) => {
                                let name = file_name_or_empty(e.path.as_str());
                                if t.component_could_be_generated(0, name.as_str()) {
                                    acts.push(skip_action(e.path.as_str(), "date-organized directory"));
                                    assert(actions_view(acts@) =~= actions_view(before).push(
                                        skip_view(e.path@, "date-organized directory"@),
                                    ));
                                    assert(insert_all_sorted(strings_view(needed@), Seq::empty())
                                        == strings_view(needed@));
                                }
                            },
                            RecMode::Type(..) => {},
                        }
                    },
                }
            } else {
                let a = match mode {
                    RecMode::Type(db, up) => resolve_organize_action(
                        snap,
                        e,
                        dir,
                        rules,
                        db,
                        &mut needed,
                        *up,
                        asked,
                    ),
                    RecMode::Date(t, ds) => resolve_date_action(
                        snap,
                        e,
                        dir,
                        rules,
                        t,
                        *ds,
                        &mut needed,
                        asked,
                    ),
                };
                acts.push(a);
                assert(actions_view(acts@) =~= actions_view(before).push(action_view(a)));
            }
            proof {
                lemma_asked_seq(ae, ai, asked@);
                if asked@ == ae {
                    assert forall|m: int| 0 <= m < i + 1 && !entries@[m].is_dir implies ob(dir@, #[trigger] entries@[m]) by {
                        if m == i {
                        }
                    }
                }
            }
            i += 1;
        }
        assert(entries@.subrange(0, entries@.len() as int) =~= entries@);
        proof {
            lemma_asked_seq(ad, ae, asked@);
            lemma_asked_seq(old(asked)@, ad, asked@);
            if asked@ == old(asked)@ {
                assert forall|k: int| 0 <= k < d + 1 implies dir_observed(*snap, #[trigger] ds[k], ob) by {
                    if k == d {
                        assert(ds[k] == dir@);
                    }
                }
            }
        }
        d += 1;
    }
    assert(ds.subrange(0, dirs@.len() as int) =~= ds);
    assemble_plan(needed, acts)
}

pub open spec fn recursive_ok(
    snap: FsSnapshot,
    root: Seq<char>,
    project_root: bool,
    t: Option<TemplateView>,
    step: spec_fn(Seq<char>, Entry) -> Option<(ActionView, Seq<Seq<char>>)>,
    r: RecursivePlan,
) -> bool {
    if project_root {
        &&& actions_view(r.plan.actions@) == skip_all_spec(listing_at(snap, root), project_root_reason())
        &&& r.dirs_scanned == 0
    } else {
        exists|v: Seq<Seq<char>>|
            #![trigger discovery_ok(snap, t, root, v)]
            discovery_ok(snap, t, root, v) && r.dirs_scanned == insert_all_sorted(Seq::empty(), v).len()
                && actions_view(r.plan.actions@) == assemble(
                dirs_fold(snap, insert_all_sorted(Seq::empty(), v), step),
            )
    }
}

/// Organizes every directory reachable from `path` in place by type:
/// each directory is its own organize context, never flattened into
/// `path`; built-in category, build-output and protected directories are
/// never entered.
pub fn plan_organize_recursive(
    path: &str,
    project_root: bool,
    config_rules: &[Rule],
    builtin: &CategoryDB,
    unknown_policy: UnknownPolicy,
    snap: &FsSnapshot,
    asked: &mut Vec<Query>,
) -> (r: RecursivePlan)
    ensures
        recursive_ok(
            *snap,
            path@,
            project_root,
            None,
            rec_step_type(*snap, by_priority(config_rules@), builtin@, unknown_policy),
            r,
        ),
        extends(old(asked)@, final(asked)@),
        final(asked)@ == old(asked)@ ==> recursive_observed(
            *snap,
            path@,
            project_root,
            None,
            rec_step_type(*snap, by_priority(config_rules@), builtin@, unknown_policy),
            type_observer(*snap, by_priority(config_rules@), builtin@, unknown_policy),
            r,
        ),
{
    if project_root {
        let entries = listing_entries(snap, path, asked);
        proof {
            reveal_strlit("target is a software project root");
        }
        return RecursivePlan {
            plan: skip_all(entries, "target is a software project root"),
            dirs_scanned: 0,
        };
    }
    let ghost a0 = asked@;
    let dirs = discover_dirs(snap, path, None, asked);
    let ghost a1 = asked@;
    let rules = rules_by_priority(config_rules);
    let mode = RecMode::Type(builtin, unknown_policy);
    let plan = plan_dirs(snap, &dirs, &rules, &mode, asked);
    let n = dirs.len();
    proof {
        let v = choose|v: Seq<Seq<char>>|
            discovery_ok(*snap, topt_view(None), path@, v) && strings_view(dirs@)
                == insert_all_sorted(Seq::empty(), v);
        assert(discovery_ok(*snap, None, path@, v));
        lemma_asked_seq(a0, a1, asked@);
    }
    RecursivePlan { plan, dirs_scanned: n }
}

/// The `date` counterpart of `plan_organize_recursive`: a directory the
/// template's first level could have generated is never entered, which
/// keeps repeated runs from nesting `2026/09/2026/09/...`.
pub fn plan_organize_date_recursive(
    path: &str,
    project_root: bool,
    config_rules: &[Rule],
    template: &Template,
    date_source: DateSource,
    snap: &FsSnapshot,
    asked: &mut Vec<Query>,
) -> (r: RecursivePlan)
    ensures
        recursive_ok(
            *snap,
            path@,
            project_root,
            Some(template@),
            rec_step_date(*snap, by_priority(config_rules@), template@),
            r,
        ),
        extends(old(asked)@, final(asked)@),
        final(asked)@ == old(asked)@ ==> recursive_observed(
            *snap,
            path@,
            project_root,
            Some(template@),
            rec_step_date(*snap, by_priority(config_rules@), template@),
            date_observer(*snap, by_priority(config_rules@), template@),
            r,
        ),
{
    if project_root {
        let entries = listing_entries(snap, path, asked);
        proof {
            reveal_strlit("target is a software project root");
        }
        return RecursivePlan {
            plan: skip_all(entries, "target is a software project root"),
            dirs_scanned: 0,
        };
    }
    let ghost a0 = asked@;
    let dirs = discover_dirs(snap, path, Some(template), asked);
    let ghost a1 = asked@;
    let rules = rules_by_priority(config_rules);
    let mode = RecMode::Date(template, date_source);
    let plan = plan_dirs(snap, &dirs, &rules, &mode, asked);
    let n = dirs.len();
    proof {
        let v = choose|v: Seq<Seq<char>>|
            discovery_ok(*snap, topt_view(Some(template)), path@, v) && strings_view(dirs@)
                == insert_all_sorted(Seq::empty(), v);
        assert(discovery_ok(*snap, Some(template@), path@, v));
        lemma_asked_seq(a0, a1, asked@);
    }
    RecursivePlan { plan, dirs_scanned: n }
}

// ------------------------------------------------------ nested policies

pub open spec fn local_policy_in(
    ls: Seq<(String, Option<Result<EffectivePolicy, String>>)>,
    d: Seq<char>,
) -> Option<Result<EffectivePolicy, Seq<char>>>
    decreases ls.len(),
{
    if ls.len() == 0 {
        Some(Err("nested policy not observed"@))
    } else if ls[0].0@ == d {
        match ls[0].1 {
            None => None,
            Some(Ok(p)) => Some(Ok(p)),
            Some(Err(e)) => Some(Err(e@)),
        }
    } else {
        local_policy_in(ls.drop_first(), d)
    }
}

/// The nearest directory-own policy among `levels` (deepest first), with
/// the directory that owns it.
pub open spec fn nearest_override(snap: FsSnapshot, levels: Seq<Seq<char>>) -> Option<
    (Result<EffectivePolicy, Seq<char>>, Seq<char>),
>
    decreases levels.len(),
{
    if levels.len() == 0 {
        None
    } else {
        match local_policy_in(snap.local_policies@, levels.last()) {
            Some(r) => Some((r, levels.last())),
            None => nearest_override(snap, levels.drop_last()),
        }
    }
}

/// A directory known to have no policy file of its own was observed.
proof fn lemma_no_policy_observed(ls: Seq<(String, Option<Result<EffectivePolicy, String>>)>, d: Seq<char>)
    requires
        local_policy_in(ls, d) is None,
    ensures
        policy_observed(ls, d),
    decreases ls.len(),
{
    if ls[0].0@ != d {
        lemma_no_policy_observed(ls.drop_first(), d);
        let i = choose|i: int| 0 <= i < ls.drop_first().len() && ls.drop_first()[i].0@ == d;
        assert(ls[i + 1].0@ == d);
    }
}

/// Whether the snapshot holds every observation `nearest_override`
/// consults (each level's own policy file, deepest first, up to the
/// first one present).
pub open spec fn override_observed(snap: FsSnapshot, levels: Seq<Seq<char>>) -> bool
    decreases levels.len(),
{
    if levels.len() == 0 {
        true
    } else {
        match local_policy_in(snap.local_policies@, levels.last()) {
            None => override_observed(snap, levels.drop_last()),
            Some(_) => policy_observed(snap.local_policies@, levels.last()),
        }
    }
}

/// Whether the snapshot holds every observation `governing_policy`
/// consults.
pub open spec fn governing_observed(
    snap: FsSnapshot,
    root: Seq<char>,
    dir: Seq<char>,
) -> bool {
    match destination_levels_spec(root, dir) {
        None => true,
        Some(levels) => override_observed(snap, levels),
    }
}

/// The policy governing `dir` under a recursive organize of `root`: the
/// nearest `.sift.toml` between `dir` (inclusive) and `root` (exclusive),
/// else `root`'s own.
pub open spec fn governing_policy(
    snap: FsSnapshot,
    root: Seq<char>,
    root_policy: EffectivePolicy,
    dir: Seq<char>,
) -> Result<EffectivePolicy, Seq<char>> {
    match destination_levels_spec(root, dir) {
        None => Ok(root_policy),
        Some(levels) => match nearest_override(snap, levels) {
            None => Ok(root_policy),
            Some((Err(e), _)) => Err(e),
            Some((Ok(p), _)) => if crate::config::policy_wf(p) {
                Ok(p)
            } else {
                Err("policy is missing its template"@)
            },
        },
    }
}

pub open spec fn described_in(ds: Seq<(String, Option<Entry>)>, p: Seq<char>) -> Option<Entry>
    decreases ds.len(),
{
    if ds.len() == 0 {
        None
    } else if ds[0].0@ == p {
        ds[0].1
    } else {
        described_in(ds.drop_first(), p)
    }
}

/// The description of `p` (`None` when it does not exist or was not
/// observed, which is then asked for).
pub fn describe_path(snap: &FsSnapshot, p: &str, asked: &mut Vec<Query>) -> (r: Option<Entry>)
    ensures
        r == described_in(snap.described@, p@),
        extends(old(asked)@, final(asked)@),
        lookup_asked(
            old(asked)@,
            final(asked)@,
            described_observed(snap.described@, p@),
            QueryView::Describe(p@),
        ),
{
    let ghost ds = snap.described@;
    let mut i: usize = 0;
    assert(ds.subrange(0, ds.len() as int) =~= ds);
    while i < snap.described.len()
        invariant
            i <= ds.len(),
            ds == snap.described@,
            forall|j: int| 0 <= j < i ==> ds[j].0@ != p@,
            described_in(ds, p@) == described_in(ds.subrange(i as int, ds.len() as int), p@),
        decreases ds.len() - i,
    {
        let ghost rest = ds.subrange(i as int, ds.len() as int);
        assert(rest.drop_first() =~= ds.subrange(i + 1, ds.len() as int));
        assert(rest[0] == ds[i as int]);
        if str_eq(snap.described[i].0.as_str(), p) {
            return match &snap.described[i].1 {
                Some(e) => Some(e.clone()),
                None => None,
            };
        }
        i += 1;
    }
    asked.push(Query::Describe(p.to_owned()));
    None
}

/// Whether directory `d` holds its own valid `.sift.toml`.
pub open spec fn has_valid_override(snap: FsSnapshot, d: Seq<char>) -> bool {
    local_policy_in(snap.local_policies@, d) matches Some(Ok(_))
}

pub fn local_policy_override_ok(snap: &FsSnapshot, d: &str, asked: &mut Vec<Query>) -> (r: bool)
    ensures
        r == has_valid_override(*snap, d@),
        extends(old(asked)@, final(asked)@),
        lookup_asked(
            old(asked)@,
            final(asked)@,
            policy_observed(snap.local_policies@, d@),
            QueryView::LocalPolicy(d@),
        ),
{
    match find_local_policy(snap, d, asked) {
        Some(Ok(_)) => true,
        _ => false,
    }
}

fn find_local_policy<'a>(snap: &'a FsSnapshot, d: &str, asked: &mut Vec<Query>) -> (r: Option<
    Result<&'a EffectivePolicy, String>,
>)
    ensures
        match r {
            None => local_policy_in(snap.local_policies@, d@) is None,
            Some(Ok(p)) => local_policy_in(snap.local_policies@, d@) == Some(
                Ok::<EffectivePolicy, Seq<char>>(*p),
            ),
            Some(Err(e)) => local_policy_in(snap.local_policies@, d@) == Some(
                Err::<EffectivePolicy, Seq<char>>(e@),
            ),
        },
        extends(old(asked)@, final(asked)@),
        lookup_asked(
            old(asked)@,
            final(asked)@,
            policy_observed(snap.local_policies@, d@),
            QueryView::LocalPolicy(d@),
        ),
{
    let ghost ls = snap.local_policies@;
    let mut i: usize = 0;
    assert(ls.subrange(0, ls.len() as int) =~= ls);
    while i < snap.local_policies.len()
        invariant
            i <= ls.len(),
            ls == snap.local_policies@,
            forall|j: int| 0 <= j < i ==> ls[j].0@ != d@,
            local_policy_in(ls, d@) == local_policy_in(ls.subrange(i as int, ls.len() as int), d@),
        decreases ls.len() - i,
    {
        let ghost rest = ls.subrange(i as int, ls.len() as int);
        assert(rest.drop_first() =~= ls.subrange(i + 1, ls.len() as int));
        assert(rest[0] == ls[i as int]);
        let item = &snap.local_policies[i];
        if str_eq(item.0.as_str(), d) {
            return match &item.1 {
                None => None,
                Some(Ok(p)) => Some(Ok(p)),
                Some(Err(e)) => Some(Err(e.clone())),
            };
        }
        i += 1;
    }
    asked.push(Query::LocalPolicy(d.to_owned()));
    Some(Err("nested policy not observed".to_owned()))
}

fn policy_is_wf(p: &EffectivePolicy) -> (r: bool)
    ensures
        r == crate::config::policy_wf(*p),
{
    let is_date = match p.strategy {
        OrganizeStrategy::Date => true,
        _ => false,
    };
    let is_meta = !p.strategy.supports_recursive();
    let meta_ok = match &p.metadata_template {
        Some(m) => m.strategy() == p.strategy,
        None => true,
    };
    is_date == p.template.is_some() && is_date == p.date_source.is_some() && is_meta
        == p.metadata_template.is_some() && meta_ok
}

/// The policy governing `dir` (see `governing_policy`).
pub fn resolve_nested_policy<'a>(
    snap: &'a FsSnapshot,
    root: &str,
    root_policy: &'a EffectivePolicy,
    dir: &str,
    asked: &mut Vec<Query>,
) -> (r: Result<&'a EffectivePolicy, String>)
    ensures
        match r {
            Ok(p) => governing_policy(*snap, root@, *root_policy, dir@) == Ok::<
                EffectivePolicy,
                Seq<char>,
            >(*p),
            Err(e) => governing_policy(*snap, root@, *root_policy, dir@) == Err::<
                EffectivePolicy,
                Seq<char>,
            >(e@),
        },
        extends(old(asked)@, final(asked)@),
        final(asked)@ == old(asked)@ <==> governing_observed(*snap, root@, dir@),
{
    let levels = match destination_levels(root, dir) {
        None => {
            return Ok(root_policy);
        },
        Some(l) => l,
    };
    let ghost ls = strings_view(levels@);
    let mut k = levels.len();
    assert(ls.subrange(0, ls.len() as int) =~= ls);
    while k > 0
        invariant
            k <= levels@.len(),
            ls == strings_view(levels@),
            destination_levels_spec(root@, dir@) == Some(ls),
            nearest_override(*snap, ls) == nearest_override(*snap, ls.subrange(0, k as int)),
            override_observed(*snap, ls) == override_observed(*snap, ls.subrange(0, k as int)),
            asked@ == old(asked)@,
        decreases k,
    {
        let ghost sub = ls.subrange(0, k as int);
        assert(sub.drop_last() =~= ls.subrange(0, k - 1));
        assert(sub.last() == levels@[k - 1]@);
        let found = find_local_policy(snap, levels[k - 1].as_str(), asked);
        proof {
            if !policy_observed(snap.local_policies@, sub.last()) {
                assert(asked@.len() != old(asked)@.len());
            }
            if local_policy_in(snap.local_policies@, sub.last()) is None {
                lemma_no_policy_observed(snap.local_policies@, sub.last());
            }
        }
        match found {
            Some(Ok(p)) => {
                if policy_is_wf(p) {
                    return Ok(p);
                } else {
                    return Err("policy is missing its template".to_owned());
                }
            },
            Some(Err(e)) => {
                return Err(e);
            },
            None => {},
        }
        k -= 1;
    }
    assert(ls.subrange(0, 0) =~= Seq::<Seq<char>>::empty());
    Ok(root_policy)
}

/// Whether `name` is one of `policy`'s own organize destinations: a
/// built-in category directory or a `Move` rule's destination.
pub open spec fn own_output_dir_spec(p: EffectivePolicy, name: Seq<char>) -> bool {
    crate::scanner::is_category_name(name) || exists|i: int|
        0 <= i < p.rules@.len() && (#[trigger] p.rules@[i]).action@ == "Move"@ && opt_view(
            p.rules@[i].destination,
        ) == Some(name)
}

pub fn could_be_own_output_dir(policy: &EffectivePolicy, name: &str) -> (r: bool)
    ensures
        r == own_output_dir_spec(*policy, name@),
{
    if crate::scanner::is_sift_category_dir(name) {
        return true;
    }
    let mut i: usize = 0;
    while i < policy.rules.len()
        invariant
            i <= policy.rules@.len(),
            !crate::scanner::is_category_name(name@),
            forall|k: int|
                0 <= k < i ==> !((#[trigger] policy.rules@[k]).action@ == "Move"@ && opt_view(
                    policy.rules@[k].destination,
                ) == Some(name@)),
        decreases policy.rules@.len() - i,
    {
        let r = &policy.rules[i];
        if str_eq(r.action.as_str(), "Move") {
            match &r.destination {
                Some(d) => {
                    if str_eq(d.as_str(), name) {
                        return true;
                    }
                },
                None => {},
            }
        }
        i += 1;
    }
    false
}

// ---------------------------------------------------------- nested walk

/// What a nested recursive walk has produced so far.
pub struct WalkAcc {
    pub actions: Seq<ActionView>,
    pub needed: Seq<Seq<char>>,
    pub scanned: nat,
    pub visited: Seq<Seq<char>>,
}

/// What one scanned entry of a directory governed by `p` yields in a
/// nested walk: a skip (boundary, own destination, date-generated name),
/// a subdirectory to descend into, or the entry's own plan.
pub open spec fn nested_entry(
    snap: FsSnapshot,
    dir: Seq<char>,
    p: EffectivePolicy,
    table: Seq<(Seq<char>, Category)>,
    e: Entry,
) -> NestedStep {
    if e.is_dir {
        let name = name_or_empty(e.path@);
        match crate::scanner::traversal_spec(e) {
            Some(r) => NestedStep::Emit(skip_view(e.path@, r), Seq::empty()),
            None => if crate::config::is_metadata_strategy(p.strategy) {
                NestedStep::Emit(
                    skip_view(
                        e.path@,
                        "strategy = \""@ + crate::config::strategy_name(p.strategy)
                            + "\" does not support recursive organize"@,
                    ),
                    Seq::empty(),
                )
            } else if own_output_dir_spec(p, name) {
                NestedStep::Emit(skip_view(e.path@, "own organize destination directory"@), Seq::empty())
            } else if p.strategy == OrganizeStrategy::Date && crate::config::could_be_generated(
                p.template.unwrap()@,
                0,
                name,
            ) {
                NestedStep::Emit(skip_view(e.path@, "date-organized directory"@), Seq::empty())
            } else {
                NestedStep::Descend(e.path@)
            },
        }
    } else {
        let res = strategy_resolution(snap, e, dir, p, table);
        NestedStep::Emit(res.0, insert_all_sorted(Seq::empty(), res.1))
    }
}

pub enum NestedStep {
    /// An action, plus the directories it needs.
    Emit(ActionView, Seq<Seq<char>>),
    /// A subdirectory to walk after this directory.
    Descend(Seq<char>),
}

/// One directory's entries folded into the accumulator, collecting the
/// subdirectories to descend into.
pub open spec fn nested_entries(
    snap: FsSnapshot,
    dir: Seq<char>,
    p: EffectivePolicy,
    table: Seq<(Seq<char>, Category)>,
    entries: Seq<Entry>,
    acc: WalkAcc,
) -> (WalkAcc, Seq<Seq<char>>)
    decreases entries.len(),
{
    if entries.len() == 0 {
        (acc, Seq::empty())
    } else {
        let (a, ch) = nested_entries(snap, dir, p, table, entries.drop_last(), acc);
        match nested_entry(snap, dir, p, table, entries.last()) {
            NestedStep::Emit(act, dirs) => (
                WalkAcc { actions: a.actions.push(act), needed: insert_all_sorted(a.needed, dirs), ..a },
                ch,
            ),
            NestedStep::Descend(c) => (a, ch.push(c)),
        }
    }
}

/// The nested walk of `dir`: its governing policy decides its own
/// entries and which subdirectories to enter; those are then walked in
/// descending path order (each fully before the next). An invalid
/// directory-own `.sift.toml` skips that directory's whole subtree.
pub open spec fn walk(
    snap: FsSnapshot,
    root: Seq<char>,
    root_policy: EffectivePolicy,
    table: Seq<(Seq<char>, Category)>,
    dir: Seq<char>,
    fuel: nat,
    acc: WalkAcc,
) -> WalkAcc
    decreases fuel, 0nat,
{
    if fuel == 0 || acc.visited.contains(dir) {
        acc
    } else {
        let acc1 = WalkAcc { visited: acc.visited.push(dir), ..acc };
        match governing_policy(snap, root, root_policy, dir) {
            Err(e) => WalkAcc {
                actions: acc1.actions.push(skip_view(dir, "invalid nested .sift.toml: "@ + e)),
                ..acc1
            },
            Ok(p) => {
                let (a2, children) = nested_entries(
                    snap,
                    dir,
                    p,
                    table,
                    listing_at(snap, dir),
                    WalkAcc { scanned: acc1.scanned + 1, ..acc1 },
                );
                walk_children(snap, root, root_policy, table, children, (fuel - 1) as nat, a2)
            },
        }
    }
}

pub open spec fn walk_children(
    snap: FsSnapshot,
    root: Seq<char>,
    root_policy: EffectivePolicy,
    table: Seq<(Seq<char>, Category)>,
    children: Seq<Seq<char>>,
    fuel: nat,
    acc: WalkAcc,
) -> WalkAcc
    decreases fuel, children.len() + 1,
{
    if children.len() == 0 {
        acc
    } else {
        walk_children(
            snap,
            root,
            root_policy,
            table,
            children.drop_last(),
            fuel,
            walk(snap, root, root_policy, table, children.last(), fuel, acc),
        )
    }
}

/// Whether the snapshot holds every observation the plans of a
/// directory's files consult (subdirectories consult none).
pub open spec fn entries_observed(
    snap: FsSnapshot,
    dir: Seq<char>,
    p: EffectivePolicy,
    table: Seq<(Seq<char>, Category)>,
    entries: Seq<Entry>,
) -> bool {
    forall|k: int|
        0 <= k < entries.len() && !entries[k].is_dir ==> strategy_observed(
            snap,
            #[trigger] entries[k],
            dir,
            p,
            table,
        )
}

/// Whether the snapshot holds every observation the nested walk of `dir`
/// consults: governing policies, listings and each file's plan.
pub open spec fn walk_observed(
    snap: FsSnapshot,
    root: Seq<char>,
    root_policy: EffectivePolicy,
    table: Seq<(Seq<char>, Category)>,
    dir: Seq<char>,
    fuel: nat,
    acc: WalkAcc,
) -> bool
    decreases fuel, 0nat,
{
    if fuel == 0 || acc.visited.contains(dir) {
        true
    } else {
        let acc1 = WalkAcc { visited: acc.visited.push(dir), ..acc };
        governing_observed(snap, root, dir) && match governing_policy(snap, root, root_policy, dir) {
            Err(_) => true,
            Ok(p) => {
                let (a2, children) = nested_entries(
                    snap,
                    dir,
                    p,
                    table,
                    listing_at(snap, dir),
                    WalkAcc { scanned: acc1.scanned + 1, ..acc1 },
                );
                &&& listing_index(snap.listings@, dir) is Some
                &&& entries_observed(snap, dir, p, table, listing_at(snap, dir))
                &&& walk_children_observed(snap, root, root_policy, table, children, (fuel - 1) as nat, a2)
            },
        }
    }
}

pub open spec fn walk_children_observed(
    snap: FsSnapshot,
    root: Seq<char>,
    root_policy: EffectivePolicy,
    table: Seq<(Seq<char>, Category)>,
    children: Seq<Seq<char>>,
    fuel: nat,
    acc: WalkAcc,
) -> bool
    decreases fuel, children.len() + 1,
{
    if children.len() == 0 {
        true
    } else {
        walk_observed(snap, root, root_policy, table, children.last(), fuel, acc)
            && walk_children_observed(
            snap,
            root,
            root_policy,
            table,
            children.drop_last(),
            fuel,
            walk(snap, root, root_policy, table, children.last(), fuel, acc),
        )
    }
}

pub open spec fn wacc(acts: Seq<Action>, needed: Seq<String>, scanned: usize, visited: Seq<String>) -> WalkAcc {
    WalkAcc {
        actions: actions_view(acts),
        needed: strings_view(needed),
        scanned: scanned as nat,
        visited: strings_view(visited),
    }
}

pub open spec fn srcs_of(v: Seq<ActionView>) -> Seq<Seq<char>> {
    v.map_values(|a: ActionView| a.src)
}

fn insert_create_dirs(needed: &mut Vec<String>, cd: &Vec<Action>)
    ensures
        strings_view(final(needed)@) == insert_all_sorted(strings_view(old(needed)@), srcs_of(
            actions_view(cd@),
        )),
{
    let mut dirs: Vec<String> = Vec::new();
    let mut i: usize = 0;
    while i < cd.len()
        invariant
            i <= cd@.len(),
            strings_view(dirs@) == srcs_of(actions_view(cd@)).subrange(0, i as int),
        decreases cd@.len() - i,
    {
        let ghost before = strings_view(dirs@);
        dirs.push(cd[i].src.clone());
        assert(strings_view(dirs@) =~= before.push(cd@[i as int].src@));
        assert(srcs_of(actions_view(cd@)).subrange(0, i + 1) =~= srcs_of(actions_view(cd@)).subrange(
            0,
            i as int,
        ).push(cd@[i as int].src@));
        i += 1;
    }
    assert(srcs_of(actions_view(cd@)).subrange(0, cd@.len() as int) =~= srcs_of(actions_view(cd@)));
    insert_dirs(needed, dirs);
}

proof fn lemma_srcs_of_create(dirs: Seq<Seq<char>>)
    ensures
        srcs_of(dirs.map_values(|d: Seq<char>| create_dir_view(d))) == dirs,
{
    assert(srcs_of(dirs.map_values(|d: Seq<char>| create_dir_view(d))) =~= dirs);
}

fn walk_dir(
    snap: &FsSnapshot,
    root: &str,
    root_policy: &EffectivePolicy,
    builtin: &CategoryDB,
    dir: &str,
    fuel: usize,
    acts: &mut Vec<Action>,
    needed: &mut Vec<String>,
    scanned: &mut usize,
    visited: &mut Vec<String>,
    asked: &mut Vec<Query>,
)
    requires
        crate::config::policy_wf(*root_policy),
        *old(scanned) <= old(visited)@.len(),
    ensures
        wacc(final(acts)@, final(needed)@, *final(scanned), final(visited)@) == walk(
            *snap,
            root@,
            *root_policy,
            builtin@,
            dir@,
            fuel as nat,
            wacc(old(acts)@, old(needed)@, *old(scanned), old(visited)@),
        ),
        *final(scanned) <= final(visited)@.len(),
        extends(old(asked)@, final(asked)@),
        final(asked)@ == old(asked)@ <==> walk_observed(
            *snap,
            root@,
            *root_policy,
            builtin@,
            dir@,
            fuel as nat,
            wacc(old(acts)@, old(needed)@, *old(scanned), old(visited)@),
        ),
    decreases fuel,
{
    if fuel == 0 || contains_str(visited, dir) {
        return;
    }
    let ghost v0 = strings_view(visited@);
    visited.push(dir.to_owned());
    assert(strings_view(visited@) =~= v0.push(dir@));
    let ghost a0 = asked@;
    let gov = resolve_nested_policy(snap, root, root_policy, dir, asked);
    let ghost a1 = asked@;
    match gov {
        Err(e) => {
            let ghost a0 = acts@;
            let msg = concat("invalid nested .sift.toml: ", e.as_str());
            acts.push(skip_action(dir, msg.as_str()));
            assert(actions_view(acts@) =~= actions_view(a0).push(
                skip_view(dir@, "invalid nested .sift.toml: "@ + e@),
            ));
        },
        Ok(p) => {
            let visited_len = visited.len();
            assert(*scanned < visited_len);
            *scanned = *scanned + 1;
            let entries = listing_entries(snap, dir, asked);
            let ghost a2 = asked@;
            proof {
                lemma_asked_seq(a0, a1, a2);
                if listing_index(snap.listings@, dir@) is None {
                    assert(a2.len() != a1.len());
                }
            }
            let mut children: Vec<String> = Vec::new();
            let ghost acc_s = wacc(acts@, needed@, *scanned, visited@);
            let mut i: usize = 0;
            assert(strings_view(children@) =~= Seq::<Seq<char>>::empty());
            while i < entries.len()
                invariant
                    i <= entries@.len(),
                    crate::config::policy_wf(*p),
                    (wacc(acts@, needed@, *scanned, visited@), strings_view(children@))
                        == nested_entries(
                        *snap,
                        dir@,
                        *p,
                        builtin@,
                        entries@.subrange(0, i as int),
                        acc_s,
                    ),
                    *scanned <= visited@.len(),
                    extends(old(asked)@, asked@),
                    extends(a2, asked@),
                    asked@ == a2 <==> forall|k: int|
                        0 <= k < i && !entries@[k].is_dir ==> strategy_observed(
                            *snap,
                            #[trigger] entries@[k],
                            dir@,
                            *p,
                            builtin@,
                        ),
                decreases entries@.len() - i,
            {
                let e = &entries[i];
                let ghost ai = asked@;
                assert(entries@.subrange(0, i + 1).drop_last() =~= entries@.subrange(0, i as int));
                assert(entries@.subrange(0, i + 1).last() == *e);
                let ghost a0 = acts@;
                let ghost c0 = strings_view(children@);
                if e.is_dir {
                    let name = file_name_or_empty(e.path.as_str());
                    match crate::scanner::traversal_reason(e) {
                        Some(reason) => {
                            acts.push(skip_action(e.path.as_str(), reason));
                            assert(actions_view(acts@) =~= actions_view(a0).push(
                                skip_view(e.path@, reason@),
                            ));
                            assert(insert_all_sorted(strings_view(needed@), Seq::empty())
                                == strings_view(needed@));
                        },
                        None => {
                            if !p.strategy.supports_recursive() {
                                let why = concat3(
                                    "strategy = \"",
                                    p.strategy.as_str(),
                                    "\" does not support recursive organize",
                                );
                                acts.push(skip_action(e.path.as_str(), why.as_str()));
                                assert(actions_view(acts@) =~= actions_view(a0).push(
                                    skip_view(e.path@, why@),
                                ));
                                assert(insert_all_sorted(strings_view(needed@), Seq::empty())
                                    == strings_view(needed@));
                            } else if could_be_own_output_dir(p, name.as_str()) {
                                acts.push(
                                    skip_action(e.path.as_str(), "own organize destination directory"),
                                );
                                assert(actions_view(acts@) =~= actions_view(a0).push(
                                    skip_view(e.path@, "own organize destination directory"@),
                                ));
                                assert(insert_all_sorted(strings_view(needed@), Seq::empty())
                                    == strings_view(needed@));
                            } else {
                                let date_generated = match p.strategy {
                                    OrganizeStrategy::Date => {
                                        let t = p.template.as_ref().unwrap();
                                        t.component_could_be_generated(0, name.as_str())
                                    },
                                    _ => false,
                                };
                                if date_generated {
                                    acts.push(skip_action(e.path.as_str(), "date-organized directory"));
                                    assert(actions_view(acts@) =~= actions_view(a0).push(
                                        skip_view(e.path@, "date-organized directory"@),
                                    ));
                                    assert(insert_all_sorted(strings_view(needed@), Seq::empty())
                                        == strings_view(needed@));
                                } else {
                                    children.push(e.path.clone());
                                    assert(strings_view(children@) =~= c0.push(e.path@));
                                }
                            }
                        },
                    }
                } else {
                    let ep = plan_entry_with_strategy(e, dir, p, builtin, snap, asked);
                    proof {
                        lemma_asked_seq(a2, ai, asked@);
                        lemma_asked_seq(old(asked)@, ai, asked@);
                        let res = strategy_resolution(*snap, *e, dir@, *p, builtin@);
                        lemma_srcs_of_create(insert_all_sorted(Seq::empty(), res.1));
                    }
                    insert_create_dirs(needed, &ep.create_dirs);
                    let a = ep.action;
                    acts.push(a);
                    assert(actions_view(acts@) =~= actions_view(a0).push(action_view(a)));
                }
                proof {
                    if asked@ == a2 {
                        assert forall|k: int| 0 <= k < i + 1 && !entries@[k].is_dir implies strategy_observed(
                            *snap,
                            #[trigger] entries@[k],
                            dir@,
                            *p,
                            builtin@,
                        ) by {
                            if k == i {
                            }
                        }
                    }
                }
                i += 1;
            }
            assert(entries@.subrange(0, entries@.len() as int) =~= entries@);
            let ghost mid = wacc(acts@, needed@, *scanned, visited@);
            let ghost ch = strings_view(children@);
            let ghost a3 = asked@;
            let mut k = children.len();
            assert(ch.subrange(0, ch.len() as int) =~= ch);
            while k > 0
                invariant
                    k <= children@.len(),
                    ch == strings_view(children@),
                    fuel > 0,
                    crate::config::policy_wf(*root_policy),
                    walk_children(*snap, root@, *root_policy, builtin@, ch, (fuel - 1) as nat, mid)
                        == walk_children(
                        *snap,
                        root@,
                        *root_policy,
                        builtin@,
                        ch.subrange(0, k as int),
                        (fuel - 1) as nat,
                        wacc(acts@, needed@, *scanned, visited@),
                    ),
                    *scanned <= visited@.len(),
                    extends(old(asked)@, asked@),
                    extends(a3, asked@),
                    walk_children_observed(*snap, root@, *root_policy, builtin@, ch, (fuel - 1) as nat, mid)
                        == (asked@ == a3 && walk_children_observed(
                        *snap,
                        root@,
                        *root_policy,
                        builtin@,
                        ch.subrange(0, k as int),
                        (fuel - 1) as nat,
                        wacc(acts@, needed@, *scanned, visited@),
                    )),
                decreases k,
            {
                let ghost ak = asked@;
                let ghost sub = ch.subrange(0, k as int);
                assert(sub.drop_last() =~= ch.subrange(0, k - 1));
                assert(sub.last() == children@[k - 1]@);
                walk_dir(
                    snap,
                    root,
                    root_policy,
                    builtin,
                    children[k - 1].as_str(),
                    fuel - 1,
                    acts,
                    needed,
                    scanned,
                    visited,
                    asked,
                );
                proof {
                    lemma_asked_seq(a3, ak, asked@);
                }
                k -= 1;
            }
            proof {
                assert(ch.subrange(0, 0) =~= Seq::<Seq<char>>::empty());
                lemma_asked_seq(a2, a3, asked@);
                lemma_asked_seq(a0, a2, asked@);
            }
        },
    }
}

/// How deep a nested recursive walk may go (deeper than any path the
/// platform can name).
pub const MAX_WALK_DEPTH: usize = 4096;

pub open spec fn empty_acc() -> WalkAcc {
    WalkAcc { actions: Seq::empty(), needed: Seq::empty(), scanned: 0, visited: Seq::empty() }
}

/// The nested walk from `root`, as a plan: `CreateDir`s first.
pub open spec fn nested_plan_ok(
    snap: FsSnapshot,
    root: Seq<char>,
    policy: EffectivePolicy,
    table: Seq<(Seq<char>, Category)>,
    r: RecursivePlan,
) -> bool {
    let w = walk(snap, root, policy, table, root, MAX_WALK_DEPTH as nat, empty_acc());
    &&& actions_view(r.plan.actions@) == w.needed.map_values(|d: Seq<char>| create_dir_view(d))
        + w.actions
    &&& r.dirs_scanned == w.scanned
}

fn plan_recursive_nested(
    root: &str,
    root_policy: &EffectivePolicy,
    builtin: &CategoryDB,
    snap: &FsSnapshot,
    asked: &mut Vec<Query>,
) -> (r: RecursivePlan)
    requires
        crate::config::policy_wf(*root_policy),
    ensures
        nested_plan_ok(*snap, root@, *root_policy, builtin@, r),
        extends(old(asked)@, final(asked)@),
        final(asked)@ == old(asked)@ <==> walk_observed(
            *snap,
            root@,
            *root_policy,
            builtin@,
            root@,
            MAX_WALK_DEPTH as nat,
            empty_acc(),
        ),
{
    let mut acts: Vec<Action> = Vec::new();
    let mut needed: Vec<String> = Vec::new();
    let mut scanned: usize = 0;
    let mut visited: Vec<String> = Vec::new();
    assert(actions_view(acts@) =~= Seq::<ActionView>::empty());
    assert(strings_view(needed@) =~= Seq::<Seq<char>>::empty());
    assert(strings_view(visited@) =~= Seq::<Seq<char>>::empty());
    assert(wacc(acts@, needed@, scanned, visited@) == empty_acc());
    walk_dir(
        snap,
        root,
        root_policy,
        builtin,
        root,
        MAX_WALK_DEPTH,
        &mut acts,
        &mut needed,
        &mut scanned,
        &mut visited,
        asked,
    );
    let plan = assemble_plan(needed, acts);
    RecursivePlan { plan, dirs_scanned: scanned }
}

/// Recursive organize under `policy`: every subfolder's own `.sift.toml`
/// takes over its own subtree (its strategy, rules and unknown policy);
/// a software project root target is skipped wholesale. It asks nothing
/// exactly when the snapshot held every observation the walk needed.
pub fn plan_with_strategy_recursive(
    path: &str,
    project_root: bool,
    policy: &EffectivePolicy,
    builtin: &CategoryDB,
    snap: &FsSnapshot,
    asked: &mut Vec<Query>,
) -> (r: RecursivePlan)
    requires
        crate::config::policy_wf(*policy),
    ensures
        project_root ==> actions_view(r.plan.actions@) == skip_all_spec(
            listing_at(*snap, path@),
            project_root_reason(),
        ) && r.dirs_scanned == 0,
        !project_root && crate::config::is_metadata_strategy(policy.strategy) ==> actions_view(
            r.plan.actions@,
        ) == skip_all_spec(listing_at(*snap, path@), no_recursive_reason()) && r.dirs_scanned == 0,
        !project_root && !crate::config::is_metadata_strategy(policy.strategy) ==> nested_plan_ok(
            *snap,
            path@,
            *policy,
            builtin@,
            r,
        ),
        extends(old(asked)@, final(asked)@),
        final(asked)@ == old(asked)@ <==> (if project_root || crate::config::is_metadata_strategy(
            policy.strategy,
        ) {
            listing_index(snap.listings@, path@) is Some
        } else {
            walk_observed(*snap, path@, *policy, builtin@, path@, MAX_WALK_DEPTH as nat, empty_acc())
        }),
{
    if project_root {
        let entries = listing_entries(snap, path, asked);
        proof {
            reveal_strlit("target is a software project root");
        }
        return RecursivePlan {
            plan: skip_all(entries, "target is a software project root"),
            dirs_scanned: 0,
        };
    }
    if !policy.strategy.supports_recursive() {
        let entries = listing_entries(snap, path, asked);
        proof {
            reveal_strlit("strategy does not support --recursive");
        }
        return RecursivePlan { plan: skip_all(entries, "strategy does not support --recursive"), dirs_scanned: 0 };
    }
    plan_recursive_nested(path, policy, builtin, snap, asked)
}

/// The reason every entry gets when a recursive organize is asked of a
/// strategy that refuses it.
pub open spec fn no_recursive_reason() -> Seq<char> {
    "strategy does not support --recursive"@
}

// ------------------------------------------------------------------- laws

/// The per-entry plan `sift organize <dir>` uses under policy `p`.
pub open spec fn local_step(
    snap: FsSnapshot,
    dir: Seq<char>,
    p: EffectivePolicy,
    table: Seq<(Seq<char>, Category)>,
) -> spec_fn(Entry) -> (ActionView, Seq<Seq<char>>) {
    match p.strategy {
        OrganizeStrategy::Type => organize_step(snap, dir, by_priority(p.rules@), table, p.unknown_policy),
        OrganizeStrategy::Date => date_step(snap, dir, by_priority(p.rules@), p.template.unwrap()@),
        _ => crate::meta_plan::meta_step(snap, dir, by_priority(p.rules@), p.metadata_template.unwrap()@),
    }
}

/// Recursive organization keeps every file in its own directory's
/// context: a file found in `dir` gets exactly the action a plain
/// `organize` of `dir` (under the policy governing `dir`) gives it, so it
/// lands in a category or rule folder inside `dir`, never in one of the
/// root's.
pub proof fn law_recursive_organizes_in_place(
    snap: FsSnapshot,
    dir: Seq<char>,
    p: EffectivePolicy,
    table: Seq<(Seq<char>, Category)>,
    e: Entry,
)
    requires
        !e.is_dir,
    ensures
        nested_entry(snap, dir, p, table, e) == NestedStep::Emit(
            local_step(snap, dir, p, table)(e).0,
            insert_all_sorted(Seq::empty(), local_step(snap, dir, p, table)(e).1),
        ),
{
}

/// Recursive organization never descends through a traversal boundary:
/// a hidden, protected, project, build-output or category directory (the
/// last is what keeps `Documents/Documents/...` from ever happening) is
/// listed as a skip with its reason, and its contents are never planned.
pub proof fn law_recursion_stops_at_boundaries(
    snap: FsSnapshot,
    dir: Seq<char>,
    p: EffectivePolicy,
    table: Seq<(Seq<char>, Category)>,
    e: Entry,
)
    requires
        e.is_dir,
        crate::scanner::traversal_spec(e) is Some,
    ensures
        nested_entry(snap, dir, p, table, e) == NestedStep::Emit(
            skip_view(e.path@, crate::scanner::traversal_spec(e)->Some_0),
            Seq::empty(),
        ),
{
}

/// Under `strategy = "date"`, a directory whose name the template could
/// have generated at its first level (such as `2026` for
/// `{year}/{month}`) is never entered, so nothing inside it is planned and
/// a re-run never nests dates inside dates; it is listed as a skip.
pub proof fn law_date_directories_are_not_entered(
    snap: FsSnapshot,
    dir: Seq<char>,
    p: EffectivePolicy,
    table: Seq<(Seq<char>, Category)>,
    e: Entry,
)
    requires
        e.is_dir,
        p.strategy == OrganizeStrategy::Date,
        crate::config::could_be_generated(p.template.unwrap()@, 0, name_or_empty(e.path@)),
    ensures
        nested_entry(snap, dir, p, table, e) matches NestedStep::Emit(a, dirs) && a.op == Op::Skip
            && a.src == e.path@ && dirs.len() == 0,
{
}

/// An entry that is a symlink, a software project, protected, hidden, or
/// a plain directory is always skipped, under every strategy and by
/// `clean`, whatever the rules say.
pub proof fn law_protected_entries_are_skipped(
    snap: FsSnapshot,
    e: Entry,
    target: Seq<char>,
    rules: Seq<Rule>,
    table: Seq<(Seq<char>, Category)>,
    up: UnknownPolicy,
    t: TemplateView,
)
    requires
        categorical_skip_spec(e) is Some,
    ensures
        organize_resolution(snap, e, target, rules, table, up).0 == skip_view(
            e.path@,
            categorical_skip_spec(e).unwrap(),
        ),
        date_resolution(snap, e, target, rules, t).0 == skip_view(
            e.path@,
            categorical_skip_spec(e).unwrap(),
        ),
        clean_resolution(e, rules) == skip_view(e.path@, categorical_skip_spec(e).unwrap()),
{
}

/// For an entry that is not categorically excluded, a matching rule
/// decides, whatever the strategy would otherwise have decided.
pub proof fn law_rules_win_over_strategy(
    snap: FsSnapshot,
    e: Entry,
    target: Seq<char>,
    rules: Seq<Rule>,
    table: Seq<(Seq<char>, Category)>,
    up: UnknownPolicy,
    t: TemplateView,
)
    requires
        categorical_skip_spec(e) is None,
        rule_decision_spec(snap, e.path@, target, rules) is Some,
    ensures
        organize_decision(snap, e, target, rules, table, up) == rule_decision_spec(
            snap,
            e.path@,
            target,
            rules,
        ).unwrap(),
        date_decision(snap, e, target, rules, t) == rule_decision_spec(
            snap,
            e.path@,
            target,
            rules,
        ).unwrap(),
{
}

/// A planned move never overwrites anything: its destination was observed
/// free, or it is the free alternative name found next to an occupied one.
pub open spec fn move_is_safe(snap: FsSnapshot, a: ActionView) -> bool {
    a.op == Op::Move ==> match a.dst {
        Some(d) => dest_file_at(snap, a.src, d) is Clear || exists|orig: Seq<char>|
            dest_file_at(snap, a.src, orig) == DestinationFileStatus::Renamed(d),
        None => false,
    }
}

proof fn lemma_finalize_safe(snap: FsSnapshot, src: Seq<char>, dd: Seq<char>, reason: Seq<char>, tc: Seq<Seq<char>>)
    ensures
        move_is_safe(snap, finalize_spec(snap, src, dd, reason, tc).0),
{
    match file_name(src) {
        Some(f) => {
            let dest = join(dd, f);
            match dest_file_at(snap, src, dest) {
                DestinationFileStatus::Renamed(alt) => {
                    assert(dest_file_at(snap, src, dest) == DestinationFileStatus::Renamed(alt));
                },
                _ => {},
            }
        },
        None => {},
    }
}

/// Every move of a `type` or `date` organize is safe (`move_is_safe`).
pub proof fn law_moves_never_overwrite(
    snap: FsSnapshot,
    e: Entry,
    target: Seq<char>,
    rules: Seq<Rule>,
    table: Seq<(Seq<char>, Category)>,
    up: UnknownPolicy,
    t: TemplateView,
)
    ensures
        move_is_safe(snap, organize_resolution(snap, e, target, rules, table, up).0),
        move_is_safe(snap, date_resolution(snap, e, target, rules, t).0),
{
    match organize_decision(snap, e, target, rules, table, up) {
        Decision::Move { dest_dir, reason, cause: _ } => {
            lemma_finalize_safe(snap, e.path@, dest_dir, reason, seq![dest_dir]);
            lemma_finalize_safe(snap, e.path@, dest_dir, reason, Seq::empty());
        },
        _ => {},
    }
    match date_decision(snap, e, target, rules, t) {
        Decision::Move { dest_dir, reason, cause: _ } => {
            match destination_levels_spec(target, dest_dir) {
                Some(levels) => match level_scan(snap, levels) {
                    Some(tc) => lemma_finalize_safe(snap, e.path@, dest_dir, reason, tc),
                    None => {},
                },
                None => {},
            }
        },
        _ => {},
    }
}

proof fn lemma_fold_sorted(entries: Seq<Entry>, step: spec_fn(Entry) -> (ActionView, Seq<Seq<char>>))
    ensures
        crate::path::strictly_sorted(fold_resolutions(entries, step).1),
    decreases entries.len(),
{
    if entries.len() > 0 {
        lemma_fold_sorted(entries.drop_last(), step);
        crate::path::lemma_insert_all_sorted(
            fold_resolutions(entries.drop_last(), step).1,
            step(entries.last()).1,
        );
    }
}

/// The directories of a plan's `CreateDir` actions are in strictly
/// ascending path order; hence each is created once, and a directory
/// always before any directory inside it.
pub open spec fn creates_shallow_first(p: Seq<ActionView>) -> bool {
    &&& forall|i: int, j: int|
        0 <= i < j < p.len() && p[i].op == Op::CreateDir && p[j].op == Op::CreateDir ==> path_order(
            p[i].src,
            p[j].src,
        ) == Order3::Less
    &&& forall|i: int, j: int|
        0 <= i < p.len() && 0 <= j < p.len() && p[i].op == Op::CreateDir && p[j].op
            == Op::CreateDir && components(p[i].src).len() < components(p[j].src).len()
            && components(p[j].src).subrange(0, components(p[i].src).len() as int) == components(
            p[i].src,
        ) ==> i < j
}

proof fn lemma_assemble_shallow_first(f: (Seq<ActionView>, Seq<Seq<char>>))
    requires
        crate::path::strictly_sorted(f.1),
        forall|k: int| 0 <= k < f.0.len() ==> (#[trigger] f.0[k]).op != Op::CreateDir,
    ensures
        creates_shallow_first(assemble(f)),
{
    let p = assemble(f);
    let n = f.1.len();
    assert forall|i: int| 0 <= i < p.len() && p[i].op == Op::CreateDir implies i < n && p[i].src
        == f.1[i] by {
        if i >= n {
            assert(p[i] == f.0[i - n]);
        }
    }
    assert forall|i: int, j: int|
        0 <= i < p.len() && 0 <= j < p.len() && p[i].op == Op::CreateDir && p[j].op
            == Op::CreateDir && components(p[i].src).len() < components(p[j].src).len()
            && components(p[j].src).subrange(0, components(p[i].src).len() as int) == components(
            p[i].src,
        ) implies i < j by {
        crate::path::lemma_comps_prefix_less(components(p[i].src), components(p[j].src));
        crate::path::lemma_comps_order(components(p[i].src), components(p[j].src));
        if j < i {
            assert(path_order(f.1[j], f.1[i]) == Order3::Less);
        }
    }
}

proof fn lemma_single_level_op(snap: FsSnapshot, src: Seq<char>, d: Decision<Seq<char>>)
    ensures
        single_level_resolution(snap, src, d).0.op != Op::CreateDir,
{
}

proof fn lemma_multi_level_op(snap: FsSnapshot, src: Seq<char>, target: Seq<char>, d: Decision<Seq<char>>)
    ensures
        multi_level_resolution(snap, src, target, d).0.op != Op::CreateDir,
{
}

proof fn lemma_fold_ops(entries: Seq<Entry>, step: spec_fn(Entry) -> (ActionView, Seq<Seq<char>>))
    requires
        forall|e: Entry| (#[trigger] step(e)).0.op != Op::CreateDir,
    ensures
        forall|k: int|
            0 <= k < fold_resolutions(entries, step).0.len() ==> (#[trigger] fold_resolutions(
                entries,
                step,
            ).0[k]).op != Op::CreateDir,
    decreases entries.len(),
{
    if entries.len() > 0 {
        lemma_fold_ops(entries.drop_last(), step);
        let prev = fold_resolutions(entries.drop_last(), step);
        let cur = fold_resolutions(entries, step);
        assert forall|k: int| 0 <= k < cur.0.len() implies (#[trigger] cur.0[k]).op != Op::CreateDir by {
            if k < prev.0.len() {
                assert(cur.0[k] == prev.0[k]);
            } else {
                assert(cur.0[k] == step(entries.last()).0);
            }
        }
    }
}

proof fn lemma_safe_join_prefix(snap: FsSnapshot, cur: Seq<char>, cs: Seq<Comp<Seq<char>>>)
    requires
        forall|k: int| 0 <= k < cs.len() && (#[trigger] cs[k]) is Normal ==> !crate::path::is_absolute(cs[k]->Normal_0),
    ensures
        safe_join_comps(snap, cur, cs) matches Some(dd) ==> starts_with(dd, cur),
    decreases cs.len(),
{
    if cs.len() == 0 {
        assert(cur.subrange(0, cur.len() as int) =~= cur);
    } else {
        match cs[0] {
            Comp::Normal(part) => {
                let next = join(cur, part);
                assert(cs[0] is Normal);
                crate::path::lemma_join_prefix(cur, part);
                assert forall|k: int| 0 <= k < cs.drop_first().len() && (#[trigger] cs.drop_first()[k]) is Normal implies !crate::path::is_absolute(cs.drop_first()[k]->Normal_0) by {
                    assert(cs.drop_first()[k] == cs[k + 1]);
                }
                lemma_safe_join_prefix(snap, next, cs.drop_first());
                if safe_join_comps(snap, cur, cs) is Some {
                    crate::path::lemma_starts_with_trans(safe_join_comps(snap, cur, cs).unwrap(), next, cur);
                }
            },
            _ => {},
        }
    }
}

proof fn lemma_plain_comps_relative(d: Seq<char>)
    ensures
        forall|k: int| 0 <= k < components(d).len() && (#[trigger] components(d)[k]) is Normal ==> !crate::path::is_absolute(components(d)[k]->Normal_0),
{
    assert forall|k: int| 0 <= k < components(d).len() && (#[trigger] components(d)[k]) is Normal implies !crate::path::is_absolute(components(d)[k]->Normal_0) by {
        crate::path::lemma_normal_no_slash(d, k);
        assert(components(d)[k]->Normal_0[0] != '/');
    }
}

proof fn lemma_valid_dest_relative(d: Seq<char>)
    requires
        valid_dest(d),
    ensures
        !crate::path::is_absolute(d),
{
    if crate::path::is_absolute(d) {
        let rest = crate::path::comps_of_segs(crate::path::split_slash(d), true);
        assert(components(d) == seq![Comp::<Seq<char>>::RootDir] + rest);
        assert(components(d)[0] == Comp::<Seq<char>>::RootDir);
    }
}

proof fn lemma_rule_outcome_local(snap: FsSnapshot, r: Rule, target: Seq<char>)
    ensures
        rule_outcome(snap, r, target) matches Decision::Move { dest_dir, .. } ==> starts_with(dest_dir, target),
{
    match r.destination {
        Some(d) => {
            lemma_plain_comps_relative(d@);
            lemma_safe_join_prefix(snap, target, components(d@));
        },
        None => {},
    }
}

proof fn lemma_rule_decision_local(snap: FsSnapshot, path: Seq<char>, target: Seq<char>, rules: Seq<Rule>)
    ensures
        rule_decision_spec(snap, path, target, rules) matches Some(Decision::Move { dest_dir, .. }) ==> starts_with(
            dest_dir,
            target,
        ),
    decreases rules.len(),
{
    if rules.len() > 0 {
        if glob_spec(rules[0].pattern@, path) {
            lemma_rule_outcome_local(snap, rules[0], target);
        } else {
            lemma_rule_decision_local(snap, path, target, rules.drop_first());
        }
    }
}

/// Every move that organize decides, by rule, by type or by date, goes
/// into a directory under the directory being organized (never above or
/// beside it): with a recursive organize each file stays inside its own
/// folder's subtree.
pub proof fn law_moves_stay_under_target(
    snap: FsSnapshot,
    e: Entry,
    target: Seq<char>,
    rules: Seq<Rule>,
    table: Seq<(Seq<char>, Category)>,
    up: UnknownPolicy,
    t: TemplateView,
)
    ensures
        organize_decision(snap, e, target, rules, table, up) matches Decision::Move { dest_dir, .. }
            ==> starts_with(dest_dir, target),
        date_decision(snap, e, target, rules, t) matches Decision::Move { dest_dir, .. } ==> starts_with(
            dest_dir,
            target,
        ),
{
    lemma_rule_decision_local(snap, e.path@, target, rules);
    reveal_strlit("Documents");
    reveal_strlit("Images");
    reveal_strlit("Video");
    reveal_strlit("Audio");
    reveal_strlit("Archives");
    reveal_strlit("3D");
    reveal_strlit("Code");
    reveal_strlit("Data");
    reveal_strlit("Other");
    match builtin_dest_spec(classification(table, e)) {
        Some((n, _)) => crate::path::lemma_join_prefix(target, n),
        None => {},
    }
    crate::path::lemma_join_prefix(target, "Other"@);
    match date_of_spec(snap, e.path@) {
        Ok(d) => match crate::config::template_render(t, d) {
            Ok(rel) => {
                lemma_valid_dest_relative(rel);
                crate::path::lemma_join_prefix(target, rel);
            },
            Err(_) => {},
        },
        Err(_) => {},
    }
}

/// A non-recursive `type` or `date` organize creates directories shallow
/// to deep, each once, before any entry's own action.
pub proof fn law_plan_creates_dirs_shallow_first(
    snap: FsSnapshot,
    target: Seq<char>,
    entries: Seq<Entry>,
    rules: Seq<Rule>,
    table: Seq<(Seq<char>, Category)>,
    up: UnknownPolicy,
    t: TemplateView,
)
    ensures
        creates_shallow_first(plan_organize_spec(snap, target, entries, false, rules, table, up)),
        creates_shallow_first(plan_organize_date_spec(snap, target, entries, false, rules, t)),
{
    let s1 = organize_step(snap, target, by_priority(rules), table, up);
    assert forall|e: Entry| (#[trigger] s1(e)).0.op != Op::CreateDir by {
        lemma_single_level_op(snap, e.path@, organize_decision(snap, e, target, by_priority(rules), table, up));
    }
    lemma_fold_sorted(entries, s1);
    lemma_fold_ops(entries, s1);
    lemma_assemble_shallow_first(fold_resolutions(entries, s1));
    let s2 = date_step(snap, target, by_priority(rules), t);
    assert forall|e: Entry| (#[trigger] s2(e)).0.op != Op::CreateDir by {
        lemma_multi_level_op(snap, e.path@, target, date_decision(snap, e, target, by_priority(rules), t));
    }
    lemma_fold_sorted(entries, s2);
    lemma_fold_ops(entries, s2);
    lemma_assemble_shallow_first(fold_resolutions(entries, s2));
}


/// Cleaning never moves anything: every entry gets exactly one action, a
/// Trash or a Skip of that entry, with no destination and never undoable;
/// on a software project root every one is a Skip.
pub proof fn law_clean_trashes_or_skips(entries: Seq<Entry>, project_root: bool, rules: Seq<Rule>, i: int)
    requires
        0 <= i < entries.len(),
    ensures
        plan_clean_spec(entries, project_root, rules).len() == entries.len(),
        plan_clean_spec(entries, project_root, rules)[i].src == entries[i].path@,
        plan_clean_spec(entries, project_root, rules)[i].op == Op::Trash || plan_clean_spec(
            entries,
            project_root,
            rules,
        )[i].op == Op::Skip,
        plan_clean_spec(entries, project_root, rules)[i].dst is None,
        !plan_clean_spec(entries, project_root, rules)[i].undoable,
        project_root ==> plan_clean_spec(entries, project_root, rules)[i] == skip_view(
            entries[i].path@,
            project_root_reason(),
        ),
{
}

/// Planning one entry under a policy is the planner of the policy's
/// strategy: `type`, `date`, or the metadata strategy's own.
pub proof fn law_entry_plan_follows_strategy(
    snap: FsSnapshot,
    e: Entry,
    dir: Seq<char>,
    p: EffectivePolicy,
    table: Seq<(Seq<char>, Category)>,
)
    requires
        crate::config::policy_wf(p),
    ensures
        p.strategy == OrganizeStrategy::Type ==> strategy_resolution(snap, e, dir, p, table) == organize_resolution(
            snap,
            e,
            dir,
            by_priority(p.rules@),
            table,
            p.unknown_policy,
        ),
        p.strategy == OrganizeStrategy::Date ==> strategy_resolution(snap, e, dir, p, table) == date_resolution(
            snap,
            e,
            dir,
            by_priority(p.rules@),
            p.template.unwrap()@,
        ),
        crate::config::is_metadata_strategy(p.strategy) ==> strategy_resolution(snap, e, dir, p, table)
            == crate::meta_plan::meta_resolution(snap, e, dir, by_priority(p.rules@), p.metadata_template.unwrap()@)
            && p.metadata_template.unwrap()@.strategy == p.strategy,
{
}

/// Planning a directory under a policy is the planner of the policy's
/// strategy: `type`, `date`, or the metadata strategy's own.
pub proof fn law_directory_plan_follows_strategy(
    snap: FsSnapshot,
    target: Seq<char>,
    entries: Seq<Entry>,
    project_root: bool,
    p: EffectivePolicy,
    table: Seq<(Seq<char>, Category)>,
)
    requires
        crate::config::policy_wf(p),
    ensures
        p.strategy == OrganizeStrategy::Type ==> plan_with_strategy_spec(snap, target, entries, project_root, p, table)
            == plan_organize_spec(snap, target, entries, project_root, p.rules@, table, p.unknown_policy),
        p.strategy == OrganizeStrategy::Date ==> plan_with_strategy_spec(snap, target, entries, project_root, p, table)
            == plan_organize_date_spec(snap, target, entries, project_root, p.rules@, p.template.unwrap()@),
        crate::config::is_metadata_strategy(p.strategy) ==> plan_with_strategy_spec(
            snap,
            target,
            entries,
            project_root,
            p,
            table,
        ) == crate::meta_plan::plan_organize_metadata_spec(
            snap,
            target,
            entries,
            project_root,
            p.rules@,
            p.metadata_template.unwrap()@,
        ),
{
}

/// The built-in type destinations are the documented folders: an
/// ordinary file of each category is moved into the folder of that name
/// directly under the target (Documents, Images, Video, Audio, Archives,
/// 3D, Code, Data), with the category's reason; junk is trashed; an
/// unlisted file goes to Other (or is skipped, by the unknown policy).
pub proof fn law_builtin_destination_folders(target: Seq<char>, up: UnknownPolicy)
    ensures
        type_decision(target, Category::Document, up) == (Decision::Move {
            dest_dir: join(target, "Documents"@),
            reason: "Document"@,
            cause: DecisionCause::<Seq<char>>::Classified(Category::Document),
        }),
        type_decision(target, Category::Image, up) == (Decision::Move {
            dest_dir: join(target, "Images"@),
            reason: "Image"@,
            cause: DecisionCause::<Seq<char>>::Classified(Category::Image),
        }),
        type_decision(target, Category::Video, up) == (Decision::Move {
            dest_dir: join(target, "Video"@),
            reason: "Video"@,
            cause: DecisionCause::<Seq<char>>::Classified(Category::Video),
        }),
        type_decision(target, Category::Audio, up) == (Decision::Move {
            dest_dir: join(target, "Audio"@),
            reason: "Audio"@,
            cause: DecisionCause::<Seq<char>>::Classified(Category::Audio),
        }),
        type_decision(target, Category::Archive, up) == (Decision::Move {
            dest_dir: join(target, "Archives"@),
            reason: "Archive"@,
            cause: DecisionCause::<Seq<char>>::Classified(Category::Archive),
        }),
        type_decision(target, Category::ThreeD, up) == (Decision::Move {
            dest_dir: join(target, "3D"@),
            reason: "3D asset"@,
            cause: DecisionCause::<Seq<char>>::Classified(Category::ThreeD),
        }),
        type_decision(target, Category::Code, up) == (Decision::Move {
            dest_dir: join(target, "Code"@),
            reason: "Code"@,
            cause: DecisionCause::<Seq<char>>::Classified(Category::Code),
        }),
        type_decision(target, Category::Data, up) == (Decision::Move {
            dest_dir: join(target, "Data"@),
            reason: "Data"@,
            cause: DecisionCause::<Seq<char>>::Classified(Category::Data),
        }),
        type_decision(target, Category::Junk, up) == Decision::Trash(
            "built-in junk file"@,
            DecisionCause::<Seq<char>>::BuiltinJunk,
        ),
        up == UnknownPolicy::Other ==> type_decision(target, Category::Other, up) == (Decision::Move {
            dest_dir: join(target, "Other"@),
            reason: "Other"@,
            cause: DecisionCause::<Seq<char>>::UnknownFallback(UnknownPolicy::Other),
        }),
        up == UnknownPolicy::Skip ==> (type_decision(target, Category::Other, up) is Skip),
{
}

/// A rule pattern with a `*` matches a path exactly when the path's file
/// name contains the pattern's other characters, in order and
/// contiguously (so `IMG_*` matches every name containing `IMG_`, and
/// `abc*` every name starting with `abc`); a pattern without `*` matches
/// only a file name equal to it.
pub proof fn law_glob_star_matches_substring(pattern: Seq<char>, path: Seq<char>, name: Seq<char>)
    requires
        file_name(path) == Some(name),
    ensures
        pattern.contains('*') ==> (glob_spec(pattern, path) <==> exists|i: int|
            0 <= i && i + without_stars(pattern).len() <= name.len() && #[trigger] name.subrange(
                i,
                i + without_stars(pattern).len(),
            ) == without_stars(pattern)),
        !pattern.contains('*') ==> (glob_spec(pattern, path) <==> name == pattern),
{
    lemma_strip_stars_filter(pattern);
    let needle = without_stars(pattern);
    if pattern.contains('*') {
        if glob_spec(pattern, path) {
            let i = choose|i: int| crate::text::occurs_at(name, needle, i);
            assert(name.subrange(i, i + needle.len()) == needle);
        }
        if exists|i: int| 0 <= i && i + needle.len() <= name.len() && #[trigger] name.subrange(i, i + needle.len()) == needle {
            let i = choose|i: int| 0 <= i && i + needle.len() <= name.len() && #[trigger] name.subrange(i, i + needle.len()) == needle;
            assert(crate::text::occurs_at(name, needle, i));
        }
    }
}

/// A pattern's characters other than `*`, in order.
pub open spec fn without_stars(s: Seq<char>) -> Seq<char> {
    s.filter(|c: char| c != '*')
}

/// Removing the stars keeps every other character in order.
pub proof fn lemma_strip_stars_filter(s: Seq<char>)
    ensures
        strip_stars(s) == without_stars(s),
    decreases s.len(),
{
    reveal_with_fuel(Seq::<char>::filter, 1);
    if s.len() > 0 {
        lemma_strip_stars_filter(s.drop_last());
    }
}

proof fn lemma_first_match_at(rules: Seq<Rule>, path: Seq<char>, k: int)
    requires
        0 <= k < rules.len(),
        glob_spec(rules[k].pattern@, path),
        forall|j: int| 0 <= j < k ==> !glob_spec(#[trigger] rules[j].pattern@, path),
    ensures
        first_match(rules, path) == Some(rules[k]),
    decreases k,
{
    if k > 0 {
        assert(!glob_spec(rules[0].pattern@, path));
        assert forall|j: int| 0 <= j < k - 1 implies !glob_spec(#[trigger] rules.drop_first()[j].pattern@, path) by {
            assert(rules.drop_first()[j] == rules[j + 1]);
        }
        lemma_first_match_at(rules.drop_first(), path, k - 1);
    }
}

proof fn lemma_no_match(rules: Seq<Rule>, path: Seq<char>)
    requires
        forall|j: int| 0 <= j < rules.len() ==> !glob_spec(#[trigger] rules[j].pattern@, path),
    ensures
        first_match(rules, path) is None,
    decreases rules.len(),
{
    if rules.len() > 0 {
        assert(!glob_spec(rules[0].pattern@, path));
        assert forall|j: int| 0 <= j < rules.drop_first().len() implies !glob_spec(#[trigger] rules.drop_first()[j].pattern@, path) by {
            assert(rules.drop_first()[j] == rules[j + 1]);
        }
        lemma_no_match(rules.drop_first(), path);
    }
}

/// In `clean`, for an entry no protection applies to, the first rule (in
/// order) whose pattern matches its path decides: a `Skip` rule skips it
/// and a `Trash` rule trashes it, with the rule's reason, whatever the
/// built-in junk list says; a `Move` rule never moves it.
pub proof fn law_clean_first_matching_rule_decides(e: Entry, rules: Seq<Rule>, k: int)
    requires
        categorical_skip_spec(e) is None,
        0 <= k < rules.len(),
        glob_spec(rules[k].pattern@, e.path@),
        forall|j: int| 0 <= j < k ==> !glob_spec(#[trigger] rules[j].pattern@, e.path@),
    ensures
        rules[k].action@ == "Skip"@ ==> clean_resolution(e, rules) == (ActionView {
            src: e.path@,
            dst: None,
            op: Op::Skip,
            reason: Some(rule_reason(rules[k])),
            undoable: false,
        }),
        rules[k].action@ == "Trash"@ ==> clean_resolution(e, rules) == (ActionView {
            src: e.path@,
            dst: None,
            op: Op::Trash,
            reason: Some(rule_reason(rules[k])),
            undoable: false,
        }),
        rules[k].action@ != "Trash"@ ==> clean_resolution(e, rules).op == Op::Skip,
{
    lemma_first_match_at(rules, e.path@, k);
    reveal_strlit("Skip");
    reveal_strlit("Trash");
    assert("Skip"@.len() == 4);
    assert("Trash"@.len() == 5);
    assert("Skip"@ != "Trash"@);
}

/// The extension (compared case-insensitively) is `tmp`, `swp` or `swo`.
pub open spec fn junk_extension(path: Seq<char>) -> bool {
    match crate::path::extension(path) {
        Some(x) => lower_seq(x) == "tmp"@ || lower_seq(x) == "swp"@ || lower_seq(x) == "swo"@,
        None => false,
    }
}

/// In `clean`, the built-in junk list is consulted only when no rule
/// matches: then an unprotected entry is trashed exactly when its
/// extension is `tmp`, `swp` or `swo` (in any case), and skipped
/// otherwise.
pub proof fn law_clean_junk_only_without_rule(e: Entry, rules: Seq<Rule>)
    requires
        categorical_skip_spec(e) is None,
        forall|j: int| 0 <= j < rules.len() ==> !glob_spec(#[trigger] rules[j].pattern@, e.path@),
    ensures
        clean_resolution(e, rules).op == Op::Trash <==> junk_extension(e.path@),
        clean_resolution(e, rules).op == Op::Trash || clean_resolution(e, rules).op == Op::Skip,
{
    lemma_no_match(rules, e.path@);
}
} // verus!
