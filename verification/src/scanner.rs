//! Safety classification of scanned entries: which entries are
//! categorically off-limits, where recursive traversal stops, and the
//! read-only `doctor` findings over a directory listing.
use vstd::prelude::*;
use crate::domain::Entry;
use crate::path::{
    comp_string, components, comps_view, file_name, join, path_components, path_file_name, path_join,
    paths_equal, push_all, same_path, Comp,
};
use crate::planner::{
    all_listed, describe_path, described_in, described_observed, policy_observed, discover_dirs, discovery_ok, extends, lemma_asked_seq, listing_at, topt_view, has_valid_override, local_policy_override_ok,
    FsSnapshot, Query, QueryView, kind_at, lookup_asked, observed_kind, PathKind,
};
use crate::path::{extension, insert_all_sorted, path_compare, path_extension, path_order, strings_view, Order3};
use crate::text::{concat, lower_seq, str_eq, str_to_string, starts_with, to_lower};
use crate::utils::{is_sensitive_filename, spec_is_sensitive};

verus! {

/// Whether `name` is one of the built-in organize destination directories.
pub open spec fn is_category_name(name: Seq<char>) -> bool {
    name == "Documents"@ || name == "Images"@ || name == "Audio"@ || name == "Video"@ || name
        == "Archives"@ || name == "3D"@ || name == "Code"@ || name == "Data"@ || name == "Other"@
}

/// Conventional build-output / dependency-cache directory names.
pub open spec fn is_build_output_name(name: Seq<char>) -> bool {
    name == "node_modules"@ || name == "target"@ || name == ".venv"@
}

/// Whether `name` is one of the built-in organize destination directories
/// (recursive traversal never descends into one).
pub fn is_sift_category_dir(name: &str) -> (r: bool)
    ensures
        r == is_category_name(name@),
{
    str_eq(name, "Documents") || str_eq(name, "Images") || str_eq(name, "Audio") || str_eq(
        name,
        "Video",
    ) || str_eq(name, "Archives") || str_eq(name, "3D") || str_eq(name, "Code") || str_eq(
        name,
        "Data",
    ) || str_eq(name, "Other")
}

pub fn is_build_output_dir(name: &str) -> (r: bool)
    ensures
        r == is_build_output_name(name@),
{
    str_eq(name, "node_modules") || str_eq(name, "target") || str_eq(name, ".venv")
}

pub open spec fn opt_str_view(o: Option<&str>) -> Option<Seq<char>> {
    match o {
        Some(s) => Some(s@),
        None => None,
    }
}

/// Why an entry is categorically excluded from mutation and traversal:
/// symlinks, software project roots, protected directories and hidden
/// entries, in that order.
pub open spec fn protection_spec(e: Entry) -> Option<Seq<char>> {
    if e.is_symlink {
        Some("symlink"@)
    } else if e.project_root {
        Some("software project"@)
    } else if e.protected {
        Some("protected directory"@)
    } else if e.hidden {
        if e.is_dir {
            Some("hidden directory"@)
        } else {
            Some("hidden file"@)
        }
    } else {
        None
    }
}

/// The file name of `p` as text, or the empty text when it has none.
pub open spec fn name_or_empty(p: Seq<char>) -> Seq<char> {
    match file_name(p) {
        Some(n) => n,
        None => Seq::empty(),
    }
}

/// Where recursive discovery stops: every protection reason, plus the
/// built-in category directories and build-output directories.
pub open spec fn traversal_spec(e: Entry) -> Option<Seq<char>> {
    match protection_spec(e) {
        Some(r) => Some(r),
        None => {
            let name = name_or_empty(e.path@);
            if is_category_name(name) {
                Some("category directory"@)
            } else if is_build_output_name(name) {
                Some("build output"@)
            } else {
                None
            }
        },
    }
}

/// Whether a reason text is one of those `traversal_reason` can give.
pub open spec fn is_traversal_boundary_reason(r: Seq<char>) -> bool {
    r == "symlink"@ || r == "software project"@ || r == "protected directory"@ || r
        == "hidden directory"@ || r == "category directory"@ || r == "build output"@
}

/// Shared "categorically off-limits" check.
pub fn protection_reason(entry: &Entry) -> (r: Option<&'static str>)
    ensures
        opt_str_view(r) == protection_spec(*entry),
{
    if entry.is_symlink {
        Some("symlink")
    } else if entry.project_root {
        Some("software project")
    } else if entry.protected {
        Some("protected directory")
    } else if entry.hidden {
        Some(
            if entry.is_dir {
                "hidden directory"
            } else {
                "hidden file"
            },
        )
    } else {
        None
    }
}

/// The file name of `p`, or an empty string when it has none.
pub fn file_name_or_empty(p: &str) -> (r: String)
    ensures
        r@ == name_or_empty(p@),
{
    match path_file_name(p) {
        Some(n) => n,
        None => String::new(),
    }
}

/// Whether recursive discovery may descend into this directory entry, or
/// the reason it may not.
pub fn traversal_reason(entry: &Entry) -> (r: Option<&'static str>)
    ensures
        opt_str_view(r) == traversal_spec(*entry),
{
    match protection_reason(entry) {
        Some(r) => Some(r),
        None => {
            let name = file_name_or_empty(entry.path.as_str());
            if is_sift_category_dir(name.as_str()) {
                Some("category directory")
            } else if is_build_output_dir(name.as_str()) {
                Some("build output")
            } else {
                None
            }
        },
    }
}

// ------------------------------------------------------- revalidation

/// The parents of the path with components `c`, nearest first, up to and
/// including the first one equal to `root` (`None` if the walk runs out
/// before reaching it, as `Path::parent` does at a root or empty path).
pub open spec fn parent_chain(c: Seq<Comp<Seq<char>>>, root: Seq<char>) -> Option<Seq<Seq<char>>>
    decreases c.len(),
{
    if c.len() == 0 || c.last() is RootDir {
        None
    } else {
        let p = push_all(Seq::empty(), c.drop_last());
        if same_path(p, root) {
            Some(seq![p])
        } else {
            match parent_chain(c.drop_last(), root) {
                Some(rest) => Some(seq![p] + rest),
                None => None,
            }
        }
    }
}

/// The first problem among the ancestors (root first): each must still
/// exist as a directory, and every one below the root must be no
/// traversal boundary, except a category-named directory that governs
/// itself with its own valid `.sift.toml`.
pub open spec fn ancestors_problem(snap: FsSnapshot, root: Seq<char>, dirs: Seq<Seq<char>>) -> Option<Seq<char>>
    decreases dirs.len(),
{
    if dirs.len() == 0 {
        None
    } else {
        let d = dirs[0];
        match described_in(snap.described@, d) {
            None => Some("ancestor directory no longer exists"@),
            Some(e) => if !e.is_dir {
                Some("ancestor is no longer a directory"@)
            } else if !same_path(d, root) && match traversal_spec(e) {
                Some(r) => !(r == "category directory"@ && has_valid_override(snap, d)),
                None => false,
            } {
                Some("ancestor directory is protected"@)
            } else {
                ancestors_problem(snap, root, dirs.drop_first())
            },
        }
    }
}

/// Whether the snapshot holds every observation `ancestors_problem`
/// consults: each directory's description, and a category directory's own
/// policy file, down to the first problem.
pub open spec fn ancestors_observed(snap: FsSnapshot, root: Seq<char>, dirs: Seq<Seq<char>>) -> bool
    decreases dirs.len(),
{
    if dirs.len() == 0 {
        true
    } else {
        let d = dirs[0];
        described_observed(snap.described@, d) && match described_in(snap.described@, d) {
            None => true,
            Some(e) => if !e.is_dir {
                true
            } else if !same_path(d, root) && traversal_spec(e) is Some {
                let r = traversal_spec(e)->Some_0;
                (r == "category directory"@ ==> policy_observed(snap.local_policies@, d)) && (!(r
                    == "category directory"@ && has_valid_override(snap, d)) || ancestors_observed(
                    snap,
                    root,
                    dirs.drop_first(),
                ))
            } else {
                ancestors_observed(snap, root, dirs.drop_first())
            },
        }
    }
}

/// Whether the snapshot holds every observation `revalidate_spec`
/// consults.
pub open spec fn revalidate_observed(snap: FsSnapshot, root: Seq<char>, path: Seq<char>) -> bool {
    match parent_chain(components(path), root) {
        None => true,
        Some(chain) => ancestors_observed(snap, root, chain.reverse()) && (ancestors_problem(
            snap,
            root,
            chain.reverse(),
        ) is Some || described_observed(snap.described@, path)),
    }
}

/// Re-validation of a watch candidate against the (observed) live state.
pub open spec fn revalidate_spec(snap: FsSnapshot, root: Seq<char>, path: Seq<char>) -> Result<Entry, Seq<char>> {
    match parent_chain(components(path), root) {
        None => Err("path is not under the watch root"@),
        Some(chain) => match ancestors_problem(snap, root, chain.reverse()) {
            Some(why) => Err(why),
            None => match described_in(snap.described@, path) {
                None => Err("candidate no longer exists"@),
                Some(e) => if e.is_dir {
                    Err("candidate is now a directory"@)
                } else if e.is_symlink {
                    Err("candidate is a symlink"@)
                } else if e.hidden {
                    Err("candidate is hidden"@)
                } else {
                    Ok(e)
                },
            },
        },
    }
}

/// Re-checks, against the observed live state, that every directory from
/// `root` down to `path`'s parent is still traversal-eligible and that
/// `path` is still a plain, visible regular file (watch's guard against
/// an event that stopped describing a safe candidate).
pub fn revalidate_candidate(
    snap: &FsSnapshot,
    root: &str,
    path: &str,
    asked: &mut Vec<Query>,
) -> (r: Result<Entry, &'static str>)
    ensures
        match r {
            Ok(e) => revalidate_spec(*snap, root@, path@) == Ok::<Entry, Seq<char>>(e),
            Err(m) => revalidate_spec(*snap, root@, path@) == Err::<Entry, Seq<char>>(m@),
        },
        extends(old(asked)@, final(asked)@),
        final(asked)@ == old(asked)@ <==> revalidate_observed(*snap, root@, path@),
{
    let c = path_components(path);
    let ghost cv = comps_view(c@);
    // Walk the parents from the nearest one up to `root`.
    let mut chain: Vec<String> = Vec::new();
    let mut k = c.len();
    let mut found = false;
    assert(cv.subrange(0, k as int) =~= cv);
    while k > 0 && !found
        invariant
            k <= c@.len(),
            cv == comps_view(c@),
            cv == components(path@),
            !found ==> parent_chain(components(path@), root@) == match parent_chain(cv.subrange(0, k as int), root@) {
                Some(rest) => Some(crate::path::strings_view(chain@) + rest),
                None => None,
            },
            found ==> parent_chain(components(path@), root@) == Some(crate::path::strings_view(chain@)),
        decreases k,
    {
        let ghost sub = cv.subrange(0, k as int);
        assert(sub.drop_last() =~= cv.subrange(0, k - 1));
        assert(sub.last() == crate::path::comp_view(c@[k - 1]));
        match &c[k - 1] {
            Comp::RootDir => {
                return Err("path is not under the watch root");
            },
            _ => {},
        }
        let mut p = String::new();
        let mut j: usize = 0;
        while j < k - 1
            invariant
                j <= k - 1,
                k <= c@.len(),
                cv == comps_view(c@),
                p@ == push_all(Seq::empty(), cv.subrange(0, j as int)),
            decreases k - 1 - j,
        {
            assert(cv.subrange(0, j + 1).drop_last() =~= cv.subrange(0, j as int));
            assert(cv.subrange(0, j + 1).last() == crate::path::comp_view(c@[j as int]));
            let part = comp_string(&c[j]);
            p = path_join(p.as_str(), part.as_str());
            j += 1;
        }
        let ghost before = crate::path::strings_view(chain@);
        let is_root = paths_equal(p.as_str(), root);
        chain.push(p);
        assert(crate::path::strings_view(chain@) =~= before.push(chain@[chain@.len() - 1]@));
        proof {
            match parent_chain(sub.drop_last(), root@) {
                Some(rest) => {
                    assert(before + (seq![chain@[chain@.len() - 1]@] + rest) =~= crate::path::strings_view(chain@) + rest);
                },
                None => {},
            }
            if is_root {
                assert(before + seq![chain@[chain@.len() - 1]@] =~= crate::path::strings_view(chain@));
            }
        }
        if is_root {
            found = true;
        }
        k -= 1;
    }
    if !found {
        assert(cv.subrange(0, 0).len() == 0);
        return Err("path is not under the watch root");
    }
    // Check the ancestors, root first.
    let ghost chv = crate::path::strings_view(chain@);
    let mut i = chain.len();
    assert(chv.reverse().subrange(0, chv.len() as int) =~= chv.reverse());
    while i > 0
        invariant
            i <= chain@.len(),
            chv == crate::path::strings_view(chain@),
            parent_chain(components(path@), root@) == Some(chv),
            ancestors_problem(*snap, root@, chv.reverse()) == ancestors_problem(
                *snap,
                root@,
                chv.reverse().subrange((chv.len() - i) as int, chv.len() as int),
            ),
            extends(old(asked)@, asked@),
            ancestors_observed(*snap, root@, chv.reverse()) == (asked@ == old(asked)@ && ancestors_observed(
                *snap,
                root@,
                chv.reverse().subrange((chv.len() - i) as int, chv.len() as int),
            )),
        decreases i,
    {
        let ghost rest = chv.reverse().subrange((chv.len() - i) as int, chv.len() as int);
        assert(rest.drop_first() =~= chv.reverse().subrange((chv.len() - i + 1) as int, chv.len() as int));
        assert(rest[0] == chain@[i - 1]@);
        let d = chain[i - 1].as_str();
        let ghost a0 = asked@;
        let described = describe_path(snap, d, asked);
        proof {
            lemma_asked_seq(old(asked)@, a0, asked@);
            if !described_observed(snap.described@, d@) {
                assert(asked@.len() != a0.len());
            }
        }
        let e = match described {
            Some(e) => e,
            None => {
                return Err("ancestor directory no longer exists");
            },
        };
        if !e.is_dir {
            return Err("ancestor is no longer a directory");
        }
        if !paths_equal(d, root) {
            match traversal_reason(&e) {
                Some(reason) => {
                    let ghost a1 = asked@;
                    let own = str_eq(reason, "category directory") && local_policy_override_ok(snap, d, asked);
                    proof {
                        lemma_asked_seq(old(asked)@, a1, asked@);
                        if reason@ == "category directory"@ && !policy_observed(snap.local_policies@, d@) {
                            assert(asked@.len() != a1.len());
                        }
                    }
                    if !own {
                        return Err("ancestor directory is protected");
                    }
                },
                None => {},
            }
        }
        i -= 1;
    }
    assert(chv.reverse().subrange(chv.len() as int, chv.len() as int).len() == 0);
    let ghost a2 = asked@;
    let described = describe_path(snap, path, asked);
    proof {
        lemma_asked_seq(old(asked)@, a2, asked@);
        if !described_observed(snap.described@, path@) {
            assert(asked@.len() != a2.len());
        }
    }
    let fe = match described {
        Some(e) => e,
        None => {
            return Err("candidate no longer exists");
        },
    };
    if fe.is_dir {
        return Err("candidate is now a directory");
    }
    if fe.is_symlink {
        return Err("candidate is a symlink");
    }
    if fe.hidden {
        return Err("candidate is hidden");
    }
    Ok(fe)
}

// ------------------------------------------------------------------ doctor

/// What `doctor` reports about one entry (by name and metadata only).
#[derive(Debug)]
pub enum DoctorIssue<S> {
    /// A software project root: protected.
    SoftwareProject,
    ProtectedDirectory,
    Symlink,
    HiddenFile,
    SensitiveName,
    /// A file over 100 MB, with its size in bytes.
    LargeFile(u64),
    /// An archive last modified over a year ago.
    StaleArchive,
    /// A build-output directory, with its name.
    BuildOutput(S),
}

impl DoctorIssue<String> {
    /// The report text, except for `LargeFile`, whose text renders the
    /// size in human units.
    pub fn reason_text(&self) -> (r: Option<String>)
        ensures
            match r {
                Some(t) => !(*self is LargeFile) && t@ == issue_text(issue_view(*self)),
                None => *self is LargeFile,
            },
    {
        match self {
            DoctorIssue::SoftwareProject => Some(str_to_string("Software project detected — protected")),
            DoctorIssue::ProtectedDirectory => Some(str_to_string("Protected directory")),
            DoctorIssue::Symlink => Some(str_to_string("Symlink")),
            DoctorIssue::HiddenFile => Some(str_to_string("Hidden file")),
            DoctorIssue::SensitiveName => Some(str_to_string("Sensitive-looking filename")),
            DoctorIssue::LargeFile(_) => None,
            DoctorIssue::StaleArchive => Some(str_to_string("Stale archive (over a year old)")),
            DoctorIssue::BuildOutput(n) => Some(concat("Build output directory: ", n.as_str())),
        }
    }
}

pub open spec fn issue_view(i: DoctorIssue<String>) -> DoctorIssue<Seq<char>> {
    match i {
        DoctorIssue::SoftwareProject => DoctorIssue::SoftwareProject,
        DoctorIssue::ProtectedDirectory => DoctorIssue::ProtectedDirectory,
        DoctorIssue::Symlink => DoctorIssue::Symlink,
        DoctorIssue::HiddenFile => DoctorIssue::HiddenFile,
        DoctorIssue::SensitiveName => DoctorIssue::SensitiveName,
        DoctorIssue::LargeFile(n) => DoctorIssue::LargeFile(n),
        DoctorIssue::StaleArchive => DoctorIssue::StaleArchive,
        DoctorIssue::BuildOutput(s) => DoctorIssue::BuildOutput(s@),
    }
}

pub open spec fn issue_text(i: DoctorIssue<Seq<char>>) -> Seq<char> {
    match i {
        DoctorIssue::SoftwareProject => "Software project detected — protected"@,
        DoctorIssue::ProtectedDirectory => "Protected directory"@,
        DoctorIssue::Symlink => "Symlink"@,
        DoctorIssue::HiddenFile => "Hidden file"@,
        DoctorIssue::SensitiveName => "Sensitive-looking filename"@,
        DoctorIssue::LargeFile(_) => Seq::empty(),
        DoctorIssue::StaleArchive => "Stale archive (over a year old)"@,
        DoctorIssue::BuildOutput(n) => "Build output directory: "@ + n,
    }
}

/// One `doctor` finding.
#[derive(Debug)]
pub struct DoctorFinding {
    pub path: String,
    pub issue: DoctorIssue<String>,
}

pub open spec fn finding_view(f: DoctorFinding) -> (Seq<char>, DoctorIssue<Seq<char>>) {
    (f.path@, issue_view(f.issue))
}

pub open spec fn findings_view(v: Seq<DoctorFinding>) -> Seq<(Seq<char>, DoctorIssue<Seq<char>>)> {
    v.map_values(|f: DoctorFinding| finding_view(f))
}

pub open spec fn is_archive_ext(ext: Seq<char>) -> bool {
    ext == "zip"@ || ext == "tar"@ || ext == "gz"@ || ext == "bz2"@ || ext == "7z"@ || ext == "rar"@
}

/// Seconds in the year after which an archive counts as stale.
pub const STALE_ARCHIVE_SECS: u64 = 31536000;

/// Files above this many bytes are reported as large.
pub const LARGE_FILE_BYTES: u64 = 100000000;

pub open spec fn when_(c: bool, x: (Seq<char>, DoctorIssue<Seq<char>>)) -> Seq<(Seq<char>, DoctorIssue<Seq<char>>)> {
    if c {
        seq![x]
    } else {
        Seq::empty()
    }
}

/// The protection and naming findings of one entry.
pub open spec fn naming_findings(e: Entry) -> Seq<(Seq<char>, DoctorIssue<Seq<char>>)> {
    let p = e.path@;
    (if e.project_root {
        seq![(p, DoctorIssue::SoftwareProject)]
    } else {
        when_(e.protected, (p, DoctorIssue::ProtectedDirectory))
    }) + when_(e.is_symlink, (p, DoctorIssue::Symlink)) + when_(e.hidden, (p, DoctorIssue::HiddenFile))
        + when_(spec_is_sensitive(name_or_empty(p)), (p, DoctorIssue::SensitiveName))
}

/// The size, age and build-output findings of one entry; `now` is the
/// current time in seconds since the epoch.
pub open spec fn metadata_findings(e: Entry, now: u64) -> Seq<(Seq<char>, DoctorIssue<Seq<char>>)> {
    let p = e.path@;
    let name = name_or_empty(p);
    (match e.size {
        Some(sz) => when_(sz > LARGE_FILE_BYTES, (p, DoctorIssue::LargeFile(sz))),
        None => Seq::empty(),
    }) + (match (extension(p), e.mtime) {
        (Some(ext), Some(m)) => when_(
            is_archive_ext(lower_seq(ext)) && now > m + STALE_ARCHIVE_SECS,
            (p, DoctorIssue::StaleArchive),
        ),
        _ => Seq::empty(),
    }) + when_(e.is_dir && is_build_output_name(name), (p, DoctorIssue::BuildOutput(name)))
}

/// The findings of one entry, in report order.
pub open spec fn entry_findings(e: Entry, now: u64) -> Seq<(Seq<char>, DoctorIssue<Seq<char>>)> {
    naming_findings(e) + metadata_findings(e, now)
}

/// The findings of a directory listing, entry by entry.
pub open spec fn doctor_spec(entries: Seq<Entry>, now: u64) -> Seq<(Seq<char>, DoctorIssue<Seq<char>>)>
    decreases entries.len(),
{
    if entries.len() == 0 {
        Seq::empty()
    } else {
        doctor_spec(entries.drop_last(), now) + entry_findings(entries.last(), now)
    }
}

fn push_finding(out: &mut Vec<DoctorFinding>, e: &Entry, issue: DoctorIssue<String>)
    ensures
        findings_view(final(out)@) == findings_view(old(out)@).push((e.path@, issue_view(issue))),
{
    let ghost b = findings_view(out@);
    out.push(DoctorFinding { path: e.path.clone(), issue });
    assert(findings_view(out@) =~= b.push((e.path@, issue_view(issue))));
}

fn archive_ext(ext: &str) -> (r: bool)
    ensures
        r == is_archive_ext(ext@),
{
    str_eq(ext, "zip") || str_eq(ext, "tar") || str_eq(ext, "gz") || str_eq(ext, "bz2") || str_eq(
        ext,
        "7z",
    ) || str_eq(ext, "rar")
}

fn add_naming_findings(out: &mut Vec<DoctorFinding>, e: &Entry)
    ensures
        findings_view(final(out)@) == findings_view(old(out)@) + naming_findings(*e),
{
    let ghost before = findings_view(out@);
    let ghost p = e.path@;
    let ghost mut acc: Seq<(Seq<char>, DoctorIssue<Seq<char>>)> = Seq::empty();
    assert(findings_view(out@) =~= before + acc);
    if e.project_root {
        push_finding(out, e, DoctorIssue::SoftwareProject);
        proof { acc = acc.push((p, DoctorIssue::SoftwareProject)); assert(findings_view(out@) =~= before + acc); }
    } else if e.protected {
        push_finding(out, e, DoctorIssue::ProtectedDirectory);
        proof { acc = acc.push((p, DoctorIssue::ProtectedDirectory)); assert(findings_view(out@) =~= before + acc); }
    }
    let ghost a1 = acc;
    if e.is_symlink {
        push_finding(out, e, DoctorIssue::Symlink);
        proof { acc = acc.push((p, DoctorIssue::Symlink)); assert(findings_view(out@) =~= before + acc); }
    }
    let ghost a2 = acc;
    if e.hidden {
        push_finding(out, e, DoctorIssue::HiddenFile);
        proof { acc = acc.push((p, DoctorIssue::HiddenFile)); assert(findings_view(out@) =~= before + acc); }
    }
    let ghost a3 = acc;
    let fname = file_name_or_empty(e.path.as_str());
    if is_sensitive_filename(fname.as_str()) {
        push_finding(out, e, DoctorIssue::SensitiveName);
        proof { acc = acc.push((p, DoctorIssue::SensitiveName)); assert(findings_view(out@) =~= before + acc); }
    }
    proof {
        let e0 = *e;
        assert(a1 =~= (if e0.project_root {
            seq![(p, DoctorIssue::SoftwareProject)]
        } else {
            when_(e0.protected, (p, DoctorIssue::ProtectedDirectory))
        }));
        assert(a2 =~= a1 + when_(e0.is_symlink, (p, DoctorIssue::Symlink)));
        assert(a3 =~= a2 + when_(e0.hidden, (p, DoctorIssue::HiddenFile)));
        assert(acc =~= a3 + when_(spec_is_sensitive(name_or_empty(p)), (p, DoctorIssue::SensitiveName)));
    }
}

fn add_metadata_findings(out: &mut Vec<DoctorFinding>, e: &Entry, now: u64)
    ensures
        findings_view(final(out)@) == findings_view(old(out)@) + metadata_findings(*e, now),
{
    let ghost before = findings_view(out@);
    let ghost p = e.path@;
    let ghost mut acc: Seq<(Seq<char>, DoctorIssue<Seq<char>>)> = Seq::empty();
    assert(findings_view(out@) =~= before + acc);
    match e.size {
        Some(sz) => {
            if sz > LARGE_FILE_BYTES {
                push_finding(out, e, DoctorIssue::LargeFile(sz));
                proof { acc = acc.push((p, DoctorIssue::LargeFile(sz))); assert(findings_view(out@) =~= before + acc); }
            }
        },
        None => {},
    }
    let ghost a1 = acc;
    match path_extension(e.path.as_str()) {
        Some(ext) => {
            let low = to_lower(ext.as_str());
            if archive_ext(low.as_str()) {
                match e.mtime {
                    Some(m) => {
                        if m <= now && now - m > STALE_ARCHIVE_SECS {
                            push_finding(out, e, DoctorIssue::StaleArchive);
                            proof { acc = acc.push((p, DoctorIssue::StaleArchive)); assert(findings_view(out@) =~= before + acc); }
                        }
                    },
                    None => {},
                }
            }
        },
        None => {},
    }
    let ghost a2 = acc;
    let fname = file_name_or_empty(e.path.as_str());
    if e.is_dir && is_build_output_dir(fname.as_str()) {
        let ghost nm = fname@;
        push_finding(out, e, DoctorIssue::BuildOutput(fname));
        proof { acc = acc.push((p, DoctorIssue::BuildOutput(nm))); assert(findings_view(out@) =~= before + acc); }
    }
    proof {
        let e0 = *e;
        assert(a1 =~= (match e0.size {
            Some(sz) => when_(sz > LARGE_FILE_BYTES, (p, DoctorIssue::LargeFile(sz))),
            None => Seq::empty(),
        }));
        assert(a2 =~= a1 + (match (extension(p), e0.mtime) {
            (Some(ext), Some(m)) => when_(
                is_archive_ext(lower_seq(ext)) && now > m + STALE_ARCHIVE_SECS,
                (p, DoctorIssue::StaleArchive),
            ),
            _ => Seq::empty(),
        }));
        assert(acc =~= a2 + when_(e0.is_dir && is_build_output_name(name_or_empty(p)), (p, DoctorIssue::BuildOutput(name_or_empty(p)))));
    }
}

/// The findings of one directory's scanned `entries`, by name and
/// metadata only: never reads content, never changes anything.
pub fn doctor_findings(entries: &[Entry], now: u64) -> (r: Vec<DoctorFinding>)
    ensures
        findings_view(r@) == doctor_spec(entries@, now),
{
    let mut out: Vec<DoctorFinding> = Vec::new();
    let mut i: usize = 0;
    assert(findings_view(out@) =~= doctor_spec(entries@.subrange(0, 0), now));
    while i < entries.len()
        invariant
            i <= entries@.len(),
            findings_view(out@) == doctor_spec(entries@.subrange(0, i as int), now),
        decreases entries@.len() - i,
    {
        let ghost before = findings_view(out@);
        add_naming_findings(&mut out, &entries[i]);
        let ghost mid = findings_view(out@);
        add_metadata_findings(&mut out, &entries[i], now);
        proof {
            assert(entries@.subrange(0, i + 1).drop_last() =~= entries@.subrange(0, i as int));
            assert(entries@.subrange(0, i + 1).last() == entries@[i as int]);
            assert(findings_view(out@) =~= before + entry_findings(entries@[i as int], now));
        }
        i += 1;
    }
    assert(entries@.subrange(0, entries@.len() as int) =~= entries@);
    out
}

// ---------------------------------------------------------------- recursion

/// Every directory recursive treatment may enter under `root` (`root`
/// included), sorted by path, each once.
pub fn discover_recursive_dirs(snap: &FsSnapshot, root: &str, asked: &mut Vec<Query>) -> (r: Vec<String>)
    ensures
        exists|v: Seq<Seq<char>>|
            discovery_ok(*snap, None, root@, v) && strings_view(r@) == insert_all_sorted(Seq::empty(), v),
        extends(old(asked)@, final(asked)@),
        final(asked)@ == old(asked)@ ==> all_listed(*snap, strings_view(r@)),
{
    let r = discover_dirs(snap, root, None, asked);
    assert(topt_view(None) == None::<crate::config::TemplateView>);
    r
}

/// Stable insertion of an entry by path.
pub open spec fn insert_entry(s: Seq<Entry>, x: Entry) -> Seq<Entry>
    decreases s.len(),
{
    if s.len() == 0 {
        seq![x]
    } else if path_order(s.last().path@, x.path@) != Order3::Greater {
        s.push(x)
    } else {
        insert_entry(s.drop_last(), x).push(s.last())
    }
}

/// Entries sorted by path (a stable sort).
pub open spec fn sort_entries(s: Seq<Entry>) -> Seq<Entry>
    decreases s.len(),
{
    if s.len() == 0 {
        s
    } else {
        insert_entry(sort_entries(s.drop_last()), s.last())
    }
}

/// The listings of `dirs`, one after another.
pub open spec fn all_listings(snap: FsSnapshot, dirs: Seq<Seq<char>>) -> Seq<Entry>
    decreases dirs.len(),
{
    if dirs.len() == 0 {
        Seq::empty()
    } else {
        all_listings(snap, dirs.drop_last()) + listing_at(snap, dirs.last())
    }
}

fn insert_entry_exec(v: &mut Vec<Entry>, x: Entry)
    ensures
        final(v)@ == insert_entry(old(v)@, x),
    decreases old(v)@.len(),
{
    if v.len() == 0 {
        v.push(x);
        assert(v@ =~= seq![x]);
        return;
    }
    let last = v.len() - 1;
    if path_compare(v[last].path.as_str(), x.path.as_str()) != Order3::Greater {
        v.push(x);
        return;
    }
    let ghost before = v@;
    let top = v.pop().unwrap();
    assert(v@ =~= before.drop_last());
    insert_entry_exec(v, x);
    v.push(top);
}

/// The entries of every discovered directory (`root` included), sorted by
/// path. A boundary directory appears once, as an entry; its contents never
/// do.
pub fn scan_entries_recursive(snap: &FsSnapshot, root: &str, asked: &mut Vec<Query>) -> (r: Vec<Entry>)
    ensures
        exists|v: Seq<Seq<char>>|
            discovery_ok(*snap, None, root@, v) && r@ == sort_entries(
                all_listings(*snap, insert_all_sorted(Seq::empty(), v)),
            ),
        extends(old(asked)@, final(asked)@),
        final(asked)@ == old(asked)@ ==> exists|v: Seq<Seq<char>>|
            discovery_ok(*snap, None, root@, v) && r@ == sort_entries(
                all_listings(*snap, insert_all_sorted(Seq::empty(), v)),
            ) && all_listed(*snap, insert_all_sorted(Seq::empty(), v)),
{
    let ghost a0 = asked@;
    let dirs = discover_recursive_dirs(snap, root, asked);
    let ghost a1 = asked@;
    let ghost dv = strings_view(dirs@);
    let mut flat: Vec<Entry> = Vec::new();
    let mut d: usize = 0;
    assert(flat@ =~= all_listings(*snap, dv.subrange(0, 0)));
    while d < dirs.len()
        invariant
            d <= dirs@.len(),
            dv == strings_view(dirs@),
            extends(a0, asked@),
            a0 == old(asked)@,
            extends(a0, a1),
            extends(a1, asked@),
            a1 == a0 ==> all_listed(*snap, dv),
            flat@ == all_listings(*snap, dv.subrange(0, d as int)),
        decreases dirs@.len() - d,
    {
        let es = crate::planner::listing_entries(snap, dirs[d].as_str(), asked);
        let ghost f0 = flat@;
        let mut k: usize = 0;
        while k < es.len()
            invariant
                k <= es@.len(),
                flat@ == f0 + es@.subrange(0, k as int),
            decreases es@.len() - k,
        {
            flat.push(es[k].clone());
            assert(es@.subrange(0, k + 1) =~= es@.subrange(0, k as int).push(es@[k as int]));
            assert(flat@ =~= f0 + es@.subrange(0, k + 1));
            k += 1;
        }
        assert(es@.subrange(0, es@.len() as int) =~= es@);
        assert(dv.subrange(0, d + 1).drop_last() =~= dv.subrange(0, d as int));
        assert(dv.subrange(0, d + 1).last() == dirs@[d as int]@);
        d += 1;
    }
    assert(dv.subrange(0, dv.len() as int) =~= dv);
    proof {
        lemma_asked_seq(a0, a1, asked@);
    }
    sorted_by_path(flat)
}

/// Entries in `Path` order (a stable sort): the order directory listings
/// are planned and shown in.
pub fn sorted_by_path(entries: Vec<Entry>) -> (r: Vec<Entry>)
    ensures
        r@ == sort_entries(entries@),
{
    let ghost fl = entries@;
    let mut sorted: Vec<Entry> = Vec::new();
    let mut j: usize = 0;
    assert(sorted@ =~= sort_entries(fl.subrange(0, 0)));
    while j < entries.len()
        invariant
            j <= entries@.len(),
            fl == entries@,
            sorted@ == sort_entries(fl.subrange(0, j as int)),
        decreases entries@.len() - j,
    {
        assert(fl.subrange(0, j + 1).drop_last() =~= fl.subrange(0, j as int));
        assert(fl.subrange(0, j + 1).last() == fl[j as int]);
        insert_entry_exec(&mut sorted, entries[j].clone());
        j += 1;
    }
    assert(fl.subrange(0, fl.len() as int) =~= fl);
    sorted
}

/// The `doctor` findings of `dirs`' listings, one directory after another.
pub open spec fn dirs_findings(snap: FsSnapshot, dirs: Seq<Seq<char>>, now: u64) -> Seq<(Seq<char>, DoctorIssue<Seq<char>>)>
    decreases dirs.len(),
{
    if dirs.len() == 0 {
        Seq::empty()
    } else {
        dirs_findings(snap, dirs.drop_last(), now) + doctor_spec(listing_at(snap, dirs.last()), now)
    }
}

/// The `doctor` findings of every discovered directory (`root` included).
/// A boundary directory is an entry of exactly one scanned directory, so it
/// is reported once and never looked into.
pub fn doctor_findings_recursive(snap: &FsSnapshot, root: &str, now: u64, asked: &mut Vec<Query>) -> (r: Vec<DoctorFinding>)
    ensures
        exists|v: Seq<Seq<char>>|
            discovery_ok(*snap, None, root@, v) && findings_view(r@) == dirs_findings(
                *snap,
                insert_all_sorted(Seq::empty(), v),
                now,
            ),
        extends(old(asked)@, final(asked)@),
{
    let ghost a0 = asked@;
    let dirs = discover_recursive_dirs(snap, root, asked);
    let ghost dv = strings_view(dirs@);
    let mut out: Vec<DoctorFinding> = Vec::new();
    let mut d: usize = 0;
    assert(findings_view(out@) =~= dirs_findings(*snap, dv.subrange(0, 0), now));
    while d < dirs.len()
        invariant
            d <= dirs@.len(),
            dv == strings_view(dirs@),
            extends(a0, asked@),
            a0 == old(asked)@,
            findings_view(out@) == dirs_findings(*snap, dv.subrange(0, d as int), now),
        decreases dirs@.len() - d,
    {
        let es = crate::planner::listing_entries(snap, dirs[d].as_str(), asked);
        let mut found = doctor_findings(es, now);
        let ghost f0 = findings_view(out@);
        let ghost f1 = findings_view(found@);
        let ghost o0 = out@;
        let ghost n0 = found@;
        out.append(&mut found);
        assert(out@ =~= o0 + n0);
        assert(findings_view(out@) =~= f0 + f1);
        assert(dv.subrange(0, d + 1).drop_last() =~= dv.subrange(0, d as int));
        assert(dv.subrange(0, d + 1).last() == dirs@[d as int]@);
        d += 1;
    }
    assert(dv.subrange(0, dv.len() as int) =~= dv);
    out
}


// --------------------------------------------------------- project roots

/// The names whose presence marks a software project's root.
pub open spec fn is_project_marker(name: Seq<char>) -> bool {
    name == ".git"@ || name == "Cargo.toml"@ || name == "package.json"@ || name == "pyproject.toml"@
        || name == "pubspec.yaml"@
}

/// The markers in the order they are looked for.
pub open spec fn project_markers() -> Seq<Seq<char>> {
    seq![".git"@, "Cargo.toml"@, "package.json"@, "pyproject.toml"@, "pubspec.yaml"@]
}

/// Something (anything, a dangling symlink too) is observed at `p`.
pub open spec fn present_at(snap: FsSnapshot, p: Seq<char>) -> bool {
    kind_at(snap.kinds@, p) matches Some(k) && k != PathKind::Absent
}

/// Whether one of `ms`, looked for in order under `dir`, is present.
pub open spec fn marker_found(snap: FsSnapshot, dir: Seq<char>, ms: Seq<Seq<char>>) -> bool
    decreases ms.len(),
{
    ms.len() > 0 && (present_at(snap, join(dir, ms[0])) || marker_found(snap, dir, ms.drop_first()))
}

/// Whether the snapshot holds each marker's kind that the search looks
/// at (up to the first present one).
pub open spec fn markers_observed(snap: FsSnapshot, dir: Seq<char>, ms: Seq<Seq<char>>) -> bool
    decreases ms.len(),
{
    ms.len() == 0 || (kind_at(snap.kinds@, join(dir, ms[0])) is Some && (present_at(
        snap,
        join(dir, ms[0]),
    ) || markers_observed(snap, dir, ms.drop_first())))
}

proof fn lemma_marker_found(snap: FsSnapshot, dir: Seq<char>, ms: Seq<Seq<char>>)
    ensures
        marker_found(snap, dir, ms) <==> exists|i: int| 0 <= i < ms.len() && present_at(snap, join(dir, #[trigger] ms[i])),
    decreases ms.len(),
{
    if ms.len() > 0 {
        lemma_marker_found(snap, dir, ms.drop_first());
        if marker_found(snap, dir, ms.drop_first()) {
            let i = choose|i: int| 0 <= i < ms.drop_first().len() && present_at(snap, join(dir, #[trigger] ms.drop_first()[i]));
            assert(ms[i + 1] == ms.drop_first()[i]);
        }
        if exists|i: int| 0 <= i < ms.len() && present_at(snap, join(dir, #[trigger] ms[i])) {
            let i = choose|i: int| 0 <= i < ms.len() && present_at(snap, join(dir, #[trigger] ms[i]));
            if i > 0 {
                assert(ms.drop_first()[i - 1] == ms[i]);
            }
        }
    }
}

proof fn lemma_project_root_markers(snap: FsSnapshot, dir: Seq<char>)
    ensures
        (exists|m: Seq<char>| is_project_marker(m) && present_at(snap, join(dir, m))) == (present_at(
            snap,
            join(dir, ".git"@),
        ) || present_at(snap, join(dir, "Cargo.toml"@)) || present_at(snap, join(dir, "package.json"@))
            || present_at(snap, join(dir, "pyproject.toml"@)) || present_at(snap, join(dir, "pubspec.yaml"@))),
{
    if exists|m: Seq<char>| is_project_marker(m) && present_at(snap, join(dir, m)) {
        let m = choose|m: Seq<char>| is_project_marker(m) && present_at(snap, join(dir, m));
        assert(m == ".git"@ || m == "Cargo.toml"@ || m == "package.json"@ || m == "pyproject.toml"@ || m
            == "pubspec.yaml"@);
    }
    if present_at(snap, join(dir, ".git"@)) {
        assert(is_project_marker(".git"@));
    }
    if present_at(snap, join(dir, "Cargo.toml"@)) {
        assert(is_project_marker("Cargo.toml"@));
    }
    if present_at(snap, join(dir, "package.json"@)) {
        assert(is_project_marker("package.json"@));
    }
    if present_at(snap, join(dir, "pyproject.toml"@)) {
        assert(is_project_marker("pyproject.toml"@));
    }
    if present_at(snap, join(dir, "pubspec.yaml"@)) {
        assert(is_project_marker("pubspec.yaml"@));
    }
}

fn marker_present(snap: &FsSnapshot, dir: &str, m: &str, asked: &mut Vec<Query>) -> (r: bool)
    ensures
        r == present_at(*snap, join(dir@, m@)),
        extends(old(asked)@, final(asked)@),
        lookup_asked(
            old(asked)@,
            final(asked)@,
            kind_at(snap.kinds@, join(dir@, m@)) is Some,
            QueryView::Kind(join(dir@, m@)),
        ),
{
    let p = crate::path::path_join(dir, m);
    match observed_kind(snap, p.as_str(), asked) {
        Some(PathKind::Absent) | None => false,
        Some(_) => true,
    }
}

/// Whether `dir` is a software project's root: one of the project
/// markers (`.git`, `Cargo.toml`, `package.json`, `pyproject.toml`,
/// `pubspec.yaml`) is present under it, observed without following
/// symlinks. It asks for each marker it looks at and the snapshot lacks.
pub fn is_project_root(snap: &FsSnapshot, dir: &str, asked: &mut Vec<Query>) -> (r: bool)
    ensures
        r == exists|m: Seq<char>| is_project_marker(m) && present_at(*snap, join(dir@, m)),
        r == marker_found(*snap, dir@, project_markers()),
        extends(old(asked)@, final(asked)@),
        final(asked)@ == old(asked)@ <==> markers_observed(*snap, dir@, project_markers()),
{
    let ghost ms = project_markers();
    proof {
        reveal_strlit(".git");
        reveal_strlit("Cargo.toml");
        reveal_strlit("package.json");
        reveal_strlit("pyproject.toml");
        reveal_strlit("pubspec.yaml");
        lemma_project_root_markers(*snap, dir@);
        reveal_with_fuel(marker_found, 6);
        reveal_with_fuel(markers_observed, 6);
        assert(ms.drop_first() =~= seq!["Cargo.toml"@, "package.json"@, "pyproject.toml"@, "pubspec.yaml"@]);
        assert(ms.drop_first().drop_first() =~= seq!["package.json"@, "pyproject.toml"@, "pubspec.yaml"@]);
        assert(ms.drop_first().drop_first().drop_first() =~= seq!["pyproject.toml"@, "pubspec.yaml"@]);
        assert(ms.drop_first().drop_first().drop_first().drop_first() =~= seq!["pubspec.yaml"@]);
        assert(ms.drop_first().drop_first().drop_first().drop_first().drop_first() =~= Seq::<Seq<char>>::empty());
    }
    let a0 = marker_present(snap, dir, ".git", asked);
    if a0 {
        return true;
    }
    let ghost s1 = asked@;
    let a1 = marker_present(snap, dir, "Cargo.toml", asked);
    proof {
        crate::planner::lemma_asked_seq(old(asked)@, s1, asked@);
        if kind_at(snap.kinds@, join(dir@, ms[1])) is None { assert(asked@.len() != s1.len()); }
    }
    if a1 {
        return true;
    }
    let ghost s2 = asked@;
    let a2 = marker_present(snap, dir, "package.json", asked);
    proof {
        crate::planner::lemma_asked_seq(old(asked)@, s2, asked@);
        if kind_at(snap.kinds@, join(dir@, ms[2])) is None { assert(asked@.len() != s2.len()); }
    }
    if a2 {
        return true;
    }
    let ghost s3 = asked@;
    let a3 = marker_present(snap, dir, "pyproject.toml", asked);
    proof {
        crate::planner::lemma_asked_seq(old(asked)@, s3, asked@);
        if kind_at(snap.kinds@, join(dir@, ms[3])) is None { assert(asked@.len() != s3.len()); }
    }
    if a3 {
        return true;
    }
    let ghost s4 = asked@;
    let a4 = marker_present(snap, dir, "pubspec.yaml", asked);
    proof {
        crate::planner::lemma_asked_seq(old(asked)@, s4, asked@);
        if kind_at(snap.kinds@, join(dir@, ms[4])) is None { assert(asked@.len() != s4.len()); }
    }
    a4
}

/// Whether a path's file name starts with a dot.
pub open spec fn hidden_name(p: Seq<char>) -> bool {
    match file_name(p) {
        Some(n) => n.len() > 0 && n[0] == '.',
        None => false,
    }
}

/// The description of one path from its no-follow metadata: hidden by its
/// name, a project root when it is a directory holding a marker (and then
/// protected), and a size only for what is neither a directory nor a
/// symlink.
pub fn entry_from_metadata(
    path: &str,
    is_dir: bool,
    is_symlink: bool,
    len: u64,
    mtime: Option<u64>,
    has_marker: bool,
) -> (e: Entry)
    ensures
        e.path@ == path@,
        e.is_dir == is_dir,
        e.is_symlink == is_symlink,
        e.hidden == hidden_name(path@),
        e.size == (if is_dir || is_symlink {
            None
        } else {
            Some(len)
        }),
        e.mtime == mtime,
        e.project_root == (is_dir && has_marker),
        e.protected == (is_dir && has_marker),
        e.classified_as is None,
{
    let hidden = match crate::path::path_file_name(path) {
        Some(n) => {
            let v = crate::text::chars_of(n.as_str());
            v.len() > 0 && v[0] == '.'
        },
        None => false,
    };
    let project_root = is_dir && has_marker;
    Entry {
        path: path.to_owned(),
        is_dir,
        is_symlink,
        hidden,
        size: if is_dir || is_symlink {
            None
        } else {
            Some(len)
        },
        mtime,
        project_root,
        protected: project_root,
        classified_as: None,
    }
}

/// Entries in ascending `Path` order.
pub open spec fn path_sorted(s: Seq<Entry>) -> bool {
    forall|i: int, j: int| 0 <= i < j < s.len() ==> path_order(s[i].path@, s[j].path@) != Order3::Greater
}

proof fn lemma_path_le_trans(a: Seq<char>, b: Seq<char>, c: Seq<char>)
    requires
        path_order(a, b) != Order3::Greater,
        path_order(b, c) != Order3::Greater,
    ensures
        path_order(a, c) != Order3::Greater,
{
    let (ca, cb, cc) = (components(a), components(b), components(c));
    crate::path::lemma_comps_order(ca, cb);
    crate::path::lemma_comps_order(cb, cc);
    crate::path::lemma_comps_order(ca, cc);
    if path_order(a, b) == Order3::Less && path_order(b, c) == Order3::Less {
        crate::path::lemma_comps_order_trans(ca, cb, cc);
    }
}

proof fn lemma_insert_entry(s: Seq<Entry>, x: Entry)
    requires
        path_sorted(s),
    ensures
        path_sorted(insert_entry(s, x)),
        insert_entry(s, x).to_multiset() =~= s.to_multiset().insert(x),
    decreases s.len(),
{
    broadcast use vstd::seq_lib::group_to_multiset_ensures;
    if s.len() == 0 {
        assert(insert_entry(s, x) =~= seq![x]);
        assert(seq![x] =~= Seq::<Entry>::empty().push(x));
    } else if path_order(s.last().path@, x.path@) != Order3::Greater {
        let r = s.push(x);
        assert forall|i: int, j: int| 0 <= i < j < r.len() implies path_order(r[i].path@, r[j].path@) != Order3::Greater by {
            if j == s.len() {
                if i < s.len() - 1 {
                    lemma_path_le_trans(s[i].path@, s.last().path@, x.path@);
                }
            }
        }
    } else {
        let p = s.drop_last();
        assert(path_sorted(p));
        lemma_insert_entry(p, x);
        let q = insert_entry(p, x);
        crate::path::lemma_comps_order(components(s.last().path@), components(x.path@));
        assert forall|k: int| 0 <= k < q.len() implies path_order(q[k].path@, s.last().path@) != Order3::Greater by {
            assert(q.to_multiset().contains(q[k]));
            assert(p.to_multiset().insert(x).contains(q[k]));
            if q[k] != x {
                assert(p.contains(q[k]));
                let w = choose|w: int| 0 <= w < p.len() && p[w] == q[k];
                assert(s[w] == q[k]);
            }
        }
        let r = q.push(s.last());
        assert forall|i: int, j: int| 0 <= i < j < r.len() implies path_order(r[i].path@, r[j].path@) != Order3::Greater by {
            if j == q.len() {
            }
        }
        assert(s =~= p.push(s.last()));
    }
}

proof fn lemma_sort_entries(s: Seq<Entry>)
    ensures
        path_sorted(sort_entries(s)),
        sort_entries(s).to_multiset() =~= s.to_multiset(),
    decreases s.len(),
{
    broadcast use vstd::seq_lib::group_to_multiset_ensures;
    if s.len() > 0 {
        lemma_sort_entries(s.drop_last());
        lemma_insert_entry(sort_entries(s.drop_last()), s.last());
        assert(s =~= s.drop_last().push(s.last()));
    }
}

/// The recursive scan is the listings of the discovered directories, one
/// after another, put in path order: the same entries (each as often as
/// the listings hold it), and ascending by path.
pub proof fn law_recursive_scan_is_sorted_listings(snap: FsSnapshot, dirs: Seq<Seq<char>>)
    ensures
        path_sorted(sort_entries(all_listings(snap, dirs))),
        sort_entries(all_listings(snap, dirs)).to_multiset() =~= all_listings(snap, dirs).to_multiset(),
{
    lemma_sort_entries(all_listings(snap, dirs));
}

/// What stops traversal, and why: a symlink, a software project root, a
/// protected directory or a hidden entry first (in that order); then,
/// for an ordinary directory, one of the organize destination folders
/// (Documents, Images, Audio, Video, Archives, 3D, Code, Data, Other) or a
/// build-output folder (node_modules, target, .venv); nothing else.
pub proof fn law_traversal_boundaries(e: Entry)
    ensures
        e.is_symlink ==> traversal_spec(e) == Some("symlink"@),
        !e.is_symlink && e.project_root ==> traversal_spec(e) == Some("software project"@),
        !e.is_symlink && !e.project_root && e.protected ==> traversal_spec(e) == Some("protected directory"@),
        !e.is_symlink && !e.project_root && !e.protected && e.hidden && e.is_dir ==> traversal_spec(e) == Some(
            "hidden directory"@,
        ),
        !e.is_symlink && !e.project_root && !e.protected && e.hidden && !e.is_dir ==> traversal_spec(e) == Some(
            "hidden file"@,
        ),
        !e.is_symlink && !e.project_root && !e.protected && !e.hidden ==> traversal_spec(e) == (if (
        name_or_empty(e.path@) == "Documents"@ || name_or_empty(e.path@) == "Images"@ || name_or_empty(e.path@)
            == "Audio"@ || name_or_empty(e.path@) == "Video"@ || name_or_empty(e.path@) == "Archives"@
            || name_or_empty(e.path@) == "3D"@ || name_or_empty(e.path@) == "Code"@ || name_or_empty(e.path@)
            == "Data"@ || name_or_empty(e.path@) == "Other"@) {
            Some("category directory"@)
        } else if (name_or_empty(e.path@) == "node_modules"@ || name_or_empty(e.path@) == "target"@
            || name_or_empty(e.path@) == ".venv"@) {
            Some("build output"@)
        } else {
            None::<Seq<char>>
        }),
{
}

/// The project markers are exactly `.git`, `Cargo.toml`, `package.json`,
/// `pyproject.toml` and `pubspec.yaml`.
pub proof fn law_project_markers(m: Seq<char>)
    ensures
        is_project_marker(m) <==> (m == ".git"@ || m == "Cargo.toml"@ || m == "package.json"@ || m
            == "pyproject.toml"@ || m == "pubspec.yaml"@),
{
}
} // verus!
