//! The dry-run view of `sift folders`: which folders would move where,
//! which are held back and why, and which duplicate files would go.
use vstd::prelude::*;
use crate::domain::Category;
use crate::folders::{Decision, DuplicateRemoval, FolderCandidate, FoldersPlan};
use crate::planner::builtin_dest_spec;
use crate::preview::{count_text, line_if, max_byte_len, pad_right, pad_right_text, text_byte_len};
use crate::render::{
    dec_text, display_rel, display_rel_spec, folder_dest_label, lines_view, plural, plural_spec, push_line,
    push_str,
};
use crate::text::dec;

verus! {

/// Which section of the view a decision is listed in.
pub open spec fn section_of(d: Decision) -> int {
    match d {
        Decision::Move { .. } => 0,
        Decision::MoveRefused { .. } => 1,
        Decision::Suggest { .. } => 2,
        Decision::Protect { .. } => 3,
        Decision::Leave { .. } => 4,
    }
}

pub open spec fn section_title(k: int) -> Seq<char> {
    if k == 0 {
        "Move"@
    } else if k == 1 {
        "Move refused"@
    } else if k == 2 {
        "Suggestions"@
    } else if k == 3 {
        "Protected"@
    } else {
        "Uncertain"@
    }
}

pub open spec fn dest_label(cat: Category) -> Seq<char> {
    match builtin_dest_spec(cat) {
        Some((n, _)) => n,
        None => "?"@,
    }
}

pub open spec fn evidence_text(c: FolderCandidate) -> Seq<char> {
    dec(c.evidence_files as nat) + " file"@ + plural_spec(c.evidence_files as nat)
}

/// What follows a candidate's padded name: where it would go and why.
/// `pct` is its confidence as a rounded percentage.
pub open spec fn candidate_tail(c: FolderCandidate, pct: Seq<char>) -> Seq<char> {
    match c.decision {
        Decision::Move { category, .. } => "→ "@ + dest_label(category) + "/   "@ + pct + "%  ("@ + evidence_text(c) + ")"@,
        Decision::MoveRefused { category, reason, .. } => "→ "@ + dest_label(category) + "/   "@ + reason@,
        Decision::Suggest { category, reason, .. } => "→ "@ + dest_label(category) + "/   "@ + pct + "%  "@ + reason@
            + " ("@ + evidence_text(c) + ")"@,
        Decision::Protect { reason } => reason@,
        Decision::Leave { reason } => reason@,
    }
}

/// Each candidate with its rendered percentage.
pub open spec fn rows(cands: Seq<FolderCandidate>, pcts: Seq<Seq<char>>) -> Seq<(FolderCandidate, Seq<char>)> {
    Seq::new(cands.len(), |i: int| (cands[i], pcts[i]))
}

pub open spec fn section_rows(r: Seq<(FolderCandidate, Seq<char>)>, k: int) -> Seq<(FolderCandidate, Seq<char>)> {
    r.filter(|x: (FolderCandidate, Seq<char>)| section_of(x.0.decision) == k)
}

pub open spec fn row_names(r: Seq<(FolderCandidate, Seq<char>)>) -> Seq<Seq<char>> {
    r.map_values(|x: (FolderCandidate, Seq<char>)| x.0.name@)
}

pub open spec fn candidate_line(x: (FolderCandidate, Seq<char>), w: nat) -> Seq<char> {
    "  "@ + pad_right(x.0.name@ + "/"@, w) + "  "@ + candidate_tail(x.0, x.1)
}

/// One titled section, names padded to the widest (plus its `/`).
pub open spec fn section_text(r: Seq<(FolderCandidate, Seq<char>)>, k: int) -> Seq<Seq<char>> {
    let g = section_rows(r, k);
    if g.len() == 0 {
        Seq::empty()
    } else {
        let w = max_byte_len(row_names(g)) + 1;
        seq![""@, section_title(k)] + Seq::new(g.len(), |i: int| candidate_line(g[i], w))
    }
}

/// Joins the parts with `sep` between them.
pub open spec fn join_with(parts: Seq<Seq<char>>, sep: Seq<char>) -> Seq<char>
    decreases parts.len(),
{
    if parts.len() == 0 {
        Seq::empty()
    } else if parts.len() == 1 {
        parts[0]
    } else {
        join_with(parts.drop_last(), sep) + sep + parts.last()
    }
}

fn tail_text(c: &FolderCandidate, pct: &str) -> (r: String)
    ensures
        r@ == candidate_tail(*c, pct@),
{
    match c.decision {
        Decision::Move { category, .. } => {
            let mut s = "→ ".to_owned();
            s.append(folder_dest_label(category));
            s.append("/   ");
            s.append(pct);
            s.append("%  (");
            let d = dec_text(c.evidence_files);
            s.append(d.as_str());
            s.append(" file");
            s.append(plural(c.evidence_files));
            s.append(")");
            s
        },
        Decision::MoveRefused { category, reason, .. } => {
            let mut s = "→ ".to_owned();
            s.append(folder_dest_label(category));
            s.append("/   ");
            s.append(reason);
            s
        },
        Decision::Suggest { category, reason, .. } => {
            let mut s = "→ ".to_owned();
            s.append(folder_dest_label(category));
            s.append("/   ");
            s.append(pct);
            s.append("%  ");
            s.append(reason);
            s.append(" (");
            let d = dec_text(c.evidence_files);
            s.append(d.as_str());
            s.append(" file");
            s.append(plural(c.evidence_files));
            s.append(")");
            s
        },
        Decision::Protect { reason } => reason.to_owned(),
        Decision::Leave { reason } => reason.to_owned(),
    }
}

fn section_code(d: &Decision) -> (r: u8)
    ensures
        r as int == section_of(*d),
{
    match d {
        Decision::Move { .. } => 0,
        Decision::MoveRefused { .. } => 1,
        Decision::Suggest { .. } => 2,
        Decision::Protect { .. } => 3,
        Decision::Leave { .. } => 4,
    }
}

fn section_name(k: u8) -> (r: &'static str)
    ensures
        r@ == section_title(k as int),
{
    if k == 0 {
        "Move"
    } else if k == 1 {
        "Move refused"
    } else if k == 2 {
        "Suggestions"
    } else if k == 3 {
        "Protected"
    } else {
        "Uncertain"
    }
}

pub open spec fn strings_of(v: Seq<String>) -> Seq<Seq<char>> {
    v.map_values(|s: String| s@)
}

/// How many candidates fall in section `k`, and the widest name among them.
fn section_stats(cands: &Vec<FolderCandidate>, pcts: &Vec<String>, k: u8) -> (r: (usize, u128))
    requires
        pcts@.len() == cands@.len(),
    ensures
        r.0 == section_rows(rows(cands@, strings_of(pcts@)), k as int).len(),
        r.1 == max_byte_len(row_names(section_rows(rows(cands@, strings_of(pcts@)), k as int))),
        r.1 <= 4 * (usize::MAX as u128),
{
    let ghost all = rows(cands@, strings_of(pcts@));
    let mut n: usize = 0;
    let mut m: u128 = 0;
    let mut i: usize = 0;
    assert(section_rows(all.subrange(0, 0), k as int) =~= Seq::<(FolderCandidate, Seq<char>)>::empty()) by {
        reveal(Seq::filter);
    }
    while i < cands.len()
        invariant
            i <= cands@.len(),
            pcts@.len() == cands@.len(),
            all == rows(cands@, strings_of(pcts@)),
            n == section_rows(all.subrange(0, i as int), k as int).len(),
            n <= i,
            m == max_byte_len(row_names(section_rows(all.subrange(0, i as int), k as int))),
            m <= 4 * (usize::MAX as u128),
        decreases cands@.len() - i,
    {
        let ghost pre = section_rows(all.subrange(0, i as int), k as int);
        assert(all.subrange(0, i + 1) =~= all.subrange(0, i as int).push(all[i as int]));
        proof {
            all.subrange(0, i as int).lemma_filter_push(
                all[i as int],
                |x: (FolderCandidate, Seq<char>)| section_of(x.0.decision) == k as int,
            );
        }
        if section_code(&cands[i].decision) == k {
            let b = text_byte_len(cands[i].name.as_str());
            let ghost post = pre.push(all[i as int]);
            assert(row_names(post).drop_last() =~= row_names(pre));
            if b > m {
                m = b;
            }
            n += 1;
        }
        i += 1;
    }
    assert(all.subrange(0, cands@.len() as int) =~= all);
    (n, m)
}

fn add_section(out: &mut Vec<String>, cands: &Vec<FolderCandidate>, pcts: &Vec<String>, k: u8)
    requires
        pcts@.len() == cands@.len(),
    ensures
        lines_view(final(out)@) == lines_view(old(out)@) + section_text(rows(cands@, strings_of(pcts@)), k as int),
{
    let ghost all = rows(cands@, strings_of(pcts@));
    let ghost g = section_rows(all, k as int);
    let (n, m) = section_stats(cands, pcts, k);
    if n == 0 {
        assert(lines_view(out@) =~= lines_view(out@) + Seq::<Seq<char>>::empty());
        return;
    }
    let w = m + 1;
    let ghost sw = max_byte_len(row_names(g)) + 1;
    let ghost base = lines_view(out@);
    push_str(out, "");
    push_str(out, section_name(k));
    let ghost head = lines_view(out@);
    let mut i: usize = 0;
    assert(section_rows(all.subrange(0, 0), k as int) =~= Seq::<(FolderCandidate, Seq<char>)>::empty()) by {
        reveal(Seq::filter);
    }
    while i < cands.len()
        invariant
            i <= cands@.len(),
            pcts@.len() == cands@.len(),
            all == rows(cands@, strings_of(pcts@)),
            g == section_rows(all, k as int),
            w == sw,
            lines_view(out@) == head + Seq::new(
                section_rows(all.subrange(0, i as int), k as int).len(),
                |j: int| candidate_line(section_rows(all.subrange(0, i as int), k as int)[j], sw),
            ),
        decreases cands@.len() - i,
    {
        let ghost pre = section_rows(all.subrange(0, i as int), k as int);
        assert(all.subrange(0, i + 1) =~= all.subrange(0, i as int).push(all[i as int]));
        proof {
            all.subrange(0, i as int).lemma_filter_push(
                all[i as int],
                |x: (FolderCandidate, Seq<char>)| section_of(x.0.decision) == k as int,
            );
        }
        if section_code(&cands[i].decision) == k {
            let c = &cands[i];
            let name = crate::text::concat(c.name.as_str(), "/");
            let mut line = "  ".to_owned();
            let padded = pad_right_text(name.as_str(), w);
            line.append(padded.as_str());
            line.append("  ");
            let tail = tail_text(c, pcts[i].as_str());
            line.append(tail.as_str());
            assert(all[i as int] == (cands@[i as int], pcts@[i as int]@));
            assert(line@ == candidate_line(all[i as int], sw));
            push_line(out, line);
            let ghost post = pre.push(all[i as int]);
            assert(Seq::new(post.len(), |j: int| candidate_line(post[j], sw)) =~= Seq::new(
                pre.len(),
                |j: int| candidate_line(pre[j], sw),
            ).push(candidate_line(all[i as int], sw)));
        }
        i += 1;
    }
    assert(all.subrange(0, cands@.len() as int) =~= all);
    assert(lines_view(out@) =~= base + section_text(all, k as int));
}

pub open spec fn folders_counts(r: Seq<(FolderCandidate, Seq<char>)>) -> Seq<Seq<char>> {
    let m = section_rows(r, 0).len();
    let f = section_rows(r, 1).len();
    let s = section_rows(r, 2).len();
    let p = section_rows(r, 3).len();
    let l = section_rows(r, 4).len();
    seq![""@, "Plan"@, count_text(m, " folder"@ + plural_spec(m) + " to move"@)] + line_if(
        f > 0,
        count_text(f, " move"@ + plural_spec(f) + " refused"@),
    ) + seq![
        count_text(s, " suggestion"@ + plural_spec(s)),
        count_text(p, " protected"@),
        count_text(l, " uncertain"@),
    ]
}

pub open spec fn sections(r: Seq<(FolderCandidate, Seq<char>)>) -> Seq<Seq<char>> {
    section_text(r, 0) + section_text(r, 1) + section_text(r, 2) + section_text(r, 3) + section_text(r, 4)
}

pub open spec fn duplicate_groups(groups: Seq<Vec<String>>) -> Seq<Seq<char>> {
    if groups.len() == 0 {
        Seq::empty()
    } else {
        seq![""@, "Possible duplicates (report only — never merged or moved)"@] + Seq::new(
            groups.len(),
            |i: int| "  "@ + join_with(strings_of(groups[i]@), ", "@),
        )
    }
}

pub open spec fn removal_line(r: DuplicateRemoval, size: Seq<char>, root: Seq<char>, w: nat) -> Seq<char> {
    "  "@ + pad_right(display_rel_spec(r.remove@, root), w) + "  = "@ + display_rel_spec(r.keep@, root) + "  ("@
        + size + ")"@
}

/// The identical files that would be trashed; `sizes` are their sizes
/// as rendered for people.
pub open spec fn removals_text(removals: Seq<DuplicateRemoval>, sizes: Seq<Seq<char>>, root: Seq<char>) -> Seq<Seq<char>> {
    if removals.len() == 0 {
        Seq::empty()
    } else {
        let w = max_byte_len(removals.map_values(|r: DuplicateRemoval| display_rel_spec(r.remove@, root)));
        seq![
            ""@,
            "Duplicate files (identical content — will be sent to Trash, not undoable via sift undo)"@,
        ] + Seq::new(removals.len(), |j: int| removal_line(removals[j], sizes[j], root, w))
    }
}

pub open spec fn folders_closing(moves: nat, removals: nat) -> Seq<Seq<char>> {
    let todo = line_if(moves > 0, "move "@ + dec(moves) + " folder"@ + plural_spec(moves)) + line_if(
        removals > 0,
        "remove "@ + dec(removals) + " duplicate file"@ + plural_spec(removals),
    );
    seq![""@, "No changes made."@] + line_if(
        moves > 0 || removals > 0,
        "Run with --apply to "@ + join_with(todo, " and "@) + "."@,
    )
}

/// What `sift folders` shows without `--apply`. `percents` renders each
/// candidate's confidence, `sizes` each removal's size.
pub open spec fn folders_dry_run_text(
    fp: FoldersPlan,
    removals: Seq<DuplicateRemoval>,
    percents: Seq<Seq<char>>,
    sizes: Seq<Seq<char>>,
) -> Seq<Seq<char>> {
    let r = rows(fp.candidates@, percents);
    seq!["Sift folders"@, fp.root@] + folders_counts(r) + sections(r) + duplicate_groups(fp.possible_duplicates@)
        + removals_text(removals, sizes, fp.root@) + folders_closing(section_rows(r, 0).len(), removals.len())
}

fn add_folders_counts(out: &mut Vec<String>, cands: &Vec<FolderCandidate>, pcts: &Vec<String>)
    requires
        pcts@.len() == cands@.len(),
    ensures
        lines_view(final(out)@) == lines_view(old(out)@) + folders_counts(rows(cands@, strings_of(pcts@))),
{
    let ghost base = lines_view(out@);
    let (m, _w0) = section_stats(cands, pcts, 0);
    let (f, _w1) = section_stats(cands, pcts, 1);
    let (s, _w2) = section_stats(cands, pcts, 2);
    let (p, _w3) = section_stats(cands, pcts, 3);
    let (l, _w4) = section_stats(cands, pcts, 4);
    push_str(out, "");
    push_str(out, "Plan");
    let n1 = crate::text::concat3(" folder", plural(m), " to move");
    add_count_line(out, m, n1.as_str());
    if f > 0 {
        let n2 = crate::text::concat3(" move", plural(f), " refused");
        add_count_line(out, f, n2.as_str());
    }
    let ghost mid = lines_view(out@);
    let n3 = crate::text::concat(" suggestion", plural(s));
    add_count_line(out, s, n3.as_str());
    add_count_line(out, p, " protected");
    add_count_line(out, l, " uncertain");
    assert(lines_view(out@) =~= base + folders_counts(rows(cands@, strings_of(pcts@))));
}

fn add_count_line(out: &mut Vec<String>, n: usize, noun: &str)
    ensures
        lines_view(final(out)@) == lines_view(old(out)@).push(count_text(n as nat, noun@)),
{
    let d = dec_text(n);
    let mut line = "  ".to_owned();
    line.append(d.as_str());
    line.append(noun);
    push_line(out, line);
}

fn join_strings(parts: &Vec<String>, sep: &str) -> (r: String)
    ensures
        r@ == join_with(strings_of(parts@), sep@),
{
    let ghost sv = strings_of(parts@);
    if parts.len() == 0 {
        assert(sv =~= Seq::<Seq<char>>::empty());
        return String::new();
    }
    let mut s = parts[0].clone();
    let mut k: usize = 1;
    while k < parts.len()
        invariant
            1 <= k <= parts@.len(),
            sv == strings_of(parts@),
            s@ == join_with(sv.subrange(0, k as int), sep@),
        decreases parts@.len() - k,
    {
        assert(sv.subrange(0, k + 1).drop_last() =~= sv.subrange(0, k as int));
        s.append(sep);
        s.append(parts[k].as_str());
        k += 1;
    }
    assert(sv.subrange(0, parts@.len() as int) =~= sv);
    s
}

fn add_duplicate_groups(out: &mut Vec<String>, groups: &Vec<Vec<String>>)
    ensures
        lines_view(final(out)@) == lines_view(old(out)@) + duplicate_groups(groups@),
{
    if groups.len() == 0 {
        assert(lines_view(out@) =~= lines_view(out@) + Seq::<Seq<char>>::empty());
        return;
    }
    let ghost base = lines_view(out@);
    push_str(out, "");
    push_str(out, "Possible duplicates (report only — never merged or moved)");
    let ghost head = lines_view(out@);
    let mut i: usize = 0;
    while i < groups.len()
        invariant
            i <= groups@.len(),
            lines_view(out@) == head + Seq::new(i as nat, |j: int| "  "@ + join_with(strings_of(groups@[j]@), ", "@)),
        decreases groups@.len() - i,
    {
        let j = join_strings(&groups[i], ", ");
        let line = crate::text::concat("  ", j.as_str());
        push_line(out, line);
        assert(Seq::new((i + 1) as nat, |j: int| "  "@ + join_with(strings_of(groups@[j]@), ", "@)) =~= Seq::new(
            i as nat,
            |j: int| "  "@ + join_with(strings_of(groups@[j]@), ", "@),
        ).push("  "@ + join_with(strings_of(groups@[i as int]@), ", "@)));
        i += 1;
    }
    assert(lines_view(out@) =~= base + duplicate_groups(groups@));
}

fn add_removals(out: &mut Vec<String>, removals: &[DuplicateRemoval], sizes: &[String], root: &str)
    requires
        sizes@.len() == removals@.len(),
    ensures
        lines_view(final(out)@) == lines_view(old(out)@) + removals_text(removals@, strings_of(sizes@), root@),
{
    if removals.len() == 0 {
        assert(lines_view(out@) =~= lines_view(out@) + Seq::<Seq<char>>::empty());
        return;
    }
    let ghost names = removals@.map_values(|r: DuplicateRemoval| display_rel_spec(r.remove@, root@));
    let mut w: u128 = 0;
    let mut i: usize = 0;
    while i < removals.len()
        invariant
            i <= removals@.len(),
            names == removals@.map_values(|r: DuplicateRemoval| display_rel_spec(r.remove@, root@)),
            w == max_byte_len(names.subrange(0, i as int)),
        decreases removals@.len() - i,
    {
        assert(names.subrange(0, i + 1).drop_last() =~= names.subrange(0, i as int));
        let rel = display_rel(removals[i].remove.as_str(), root);
        let b = text_byte_len(rel.as_str());
        if b > w {
            w = b;
        }
        i += 1;
    }
    assert(names.subrange(0, removals@.len() as int) =~= names);
    let ghost sz = strings_of(sizes@);
    let ghost base = lines_view(out@);
    push_str(out, "");
    push_str(out, "Duplicate files (identical content — will be sent to Trash, not undoable via sift undo)");
    let ghost head = lines_view(out@);
    let mut j: usize = 0;
    while j < removals.len()
        invariant
            j <= removals@.len(),
            sizes@.len() == removals@.len(),
            sz == strings_of(sizes@),
            w == max_byte_len(names),
            names == removals@.map_values(|r: DuplicateRemoval| display_rel_spec(r.remove@, root@)),
            lines_view(out@) == head + Seq::new(j as nat, |k: int| removal_line(removals@[k], sz[k], root@, w as nat)),
        decreases removals@.len() - j,
    {
        let r = &removals[j];
        let rel = display_rel(r.remove.as_str(), root);
        let keep = display_rel(r.keep.as_str(), root);
        let mut line = "  ".to_owned();
        let padded = pad_right_text(rel.as_str(), w);
        line.append(padded.as_str());
        line.append("  = ");
        line.append(keep.as_str());
        line.append("  (");
        line.append(sizes[j].as_str());
        line.append(")");
        assert(line@ == removal_line(removals@[j as int], sz[j as int], root@, w as nat));
        push_line(out, line);
        assert(Seq::new((j + 1) as nat, |k: int| removal_line(removals@[k], sz[k], root@, w as nat)) =~= Seq::new(
            j as nat,
            |k: int| removal_line(removals@[k], sz[k], root@, w as nat),
        ).push(removal_line(removals@[j as int], sz[j as int], root@, w as nat)));
        j += 1;
    }
    assert(lines_view(out@) =~= base + removals_text(removals@, strings_of(sizes@), root@));
}

fn add_folders_closing(out: &mut Vec<String>, moves: usize, removals: usize)
    ensures
        lines_view(final(out)@) == lines_view(old(out)@) + folders_closing(moves as nat, removals as nat),
{
    let ghost base = lines_view(out@);
    push_str(out, "");
    push_str(out, "No changes made.");
    if moves > 0 || removals > 0 {
        let mut todo: Vec<String> = Vec::new();
        if moves > 0 {
            let d = dec_text(moves);
            let mut s = "move ".to_owned();
            s.append(d.as_str());
            s.append(" folder");
            s.append(plural(moves));
            todo.push(s);
        }
        let ghost t1 = strings_of(todo@);
        if removals > 0 {
            let d = dec_text(removals);
            let mut s = "remove ".to_owned();
            s.append(d.as_str());
            s.append(" duplicate file");
            s.append(plural(removals));
            todo.push(s);
        }
        assert(strings_of(todo@) =~= line_if(moves > 0, "move "@ + dec(moves as nat) + " folder"@ + plural_spec(moves as nat))
            + line_if(removals > 0, "remove "@ + dec(removals as nat) + " duplicate file"@ + plural_spec(removals as nat)));
        let joined = join_strings(&todo, " and ");
        let mut line = "Run with --apply to ".to_owned();
        line.append(joined.as_str());
        line.append(".");
        push_line(out, line);
    }
    assert(lines_view(out@) =~= base + folders_closing(moves as nat, removals as nat));
}

/// The lines `sift folders` prints for a plan it has not applied.
/// `percents[i]` is candidate `i`'s confidence rendered as a whole
/// percentage, `sizes[j]` removal `j`'s size rendered for people.
pub fn folders_dry_run(
    fp: &FoldersPlan,
    dup_removals: &[DuplicateRemoval],
    percents: &Vec<String>,
    sizes: &[String],
) -> (r: Vec<String>)
    requires
        percents@.len() == fp.candidates@.len(),
        sizes@.len() == dup_removals@.len(),
    ensures
        lines_view(r@) == folders_dry_run_text(*fp, dup_removals@, strings_of(percents@), strings_of(sizes@)),
{
    let ghost r = rows(fp.candidates@, strings_of(percents@));
    let mut out: Vec<String> = Vec::new();
    push_str(&mut out, "Sift folders");
    push_str(&mut out, fp.root.as_str());
    let ghost s0 = lines_view(out@);
    add_folders_counts(&mut out, &fp.candidates, percents);
    let ghost s1 = lines_view(out@);
    add_section(&mut out, &fp.candidates, percents, 0);
    add_section(&mut out, &fp.candidates, percents, 1);
    add_section(&mut out, &fp.candidates, percents, 2);
    add_section(&mut out, &fp.candidates, percents, 3);
    add_section(&mut out, &fp.candidates, percents, 4);
    let ghost s2 = lines_view(out@);
    assert(s2 =~= s1 + sections(r));
    add_duplicate_groups(&mut out, &fp.possible_duplicates);
    add_removals(&mut out, dup_removals, sizes, fp.root.as_str());
    let ghost s3 = lines_view(out@);
    let (moves, _w) = section_stats(&fp.candidates, percents, 0);
    add_folders_closing(&mut out, moves, dup_removals.len());
    assert(lines_view(out@) =~= folders_dry_run_text(*fp, dup_removals@, strings_of(percents@), strings_of(sizes@)));
    out
}

} // verus!
