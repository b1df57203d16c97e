//! What the commands report once they have acted: applied plans, folder
//! moves, undo attempts and the history of past runs.
use vstd::prelude::*;
use crate::domain::{Action, ActionResult, Entry, HistoryItem, Op};
use crate::preview::{line_if, max_byte_len, pad_right, pad_right_text, text_byte_len};
use crate::render::{
    add_apply_failures, add_apply_head, any_undoable, any_undoable_exec, apply_failures, apply_head,
    apply_outcome_lines, apply_outcome_text, colorize, colorize_spec, count_failed, count_failures,
    count_line, count_of_op, count_ok, count_ok_spec, count_op, dec_text, failure_lines, lines_view,
    plural, plural_spec, push_line, push_str, y_ies, y_ies_text, display_rel, display_rel_spec,
};
use crate::scanner::{traversal_reason, traversal_spec};
use crate::render::{format_timestamp, timestamp_spec};
use crate::text::{dec, str_eq};

verus! {

// ------------------------------------------------------- applied plans

/// What `sift organize --apply` prints.
pub open spec fn organize_apply_text(
    path: Seq<char>,
    actions: Seq<Action>,
    outcomes: Seq<ActionResult>,
    hist_id: Seq<char>,
    color: bool,
) -> Seq<Seq<char>> {
    seq!["Sift organize"@, path, ""@] + apply_outcome_text(actions, outcomes, hist_id, color)
}

/// What `sift clean --apply` prints.
pub open spec fn clean_apply_text(
    path: Seq<char>,
    actions: Seq<Action>,
    outcomes: Seq<ActionResult>,
    hist_id: Seq<char>,
    color: bool,
) -> Seq<Seq<char>> {
    seq!["Sift clean"@, path, ""@] + apply_outcome_text(actions, outcomes, hist_id, color)
}

fn titled(title: &str, path: &str, body: Vec<String>) -> (r: Vec<String>)
    ensures
        lines_view(r@) == seq![title@, path@, ""@] + lines_view(body@),
{
    let mut out: Vec<String> = Vec::new();
    push_str(&mut out, title);
    push_str(&mut out, path);
    push_str(&mut out, "");
    let ghost head = lines_view(out@);
    let mut j: usize = 0;
    while j < body.len()
        invariant
            j <= body@.len(),
            head == seq![title@, path@, ""@],
            lines_view(out@) == head + lines_view(body@).subrange(0, j as int),
        decreases body@.len() - j,
    {
        assert(lines_view(body@).subrange(0, j + 1) =~= lines_view(body@).subrange(0, j as int).push(
            body@[j as int]@,
        ));
        let l = body[j].clone();
        push_line(&mut out, l);
        j += 1;
    }
    assert(lines_view(body@).subrange(0, body@.len() as int) =~= lines_view(body@));
    out
}

/// The lines `sift organize --apply` prints after executing a plan.
pub fn organize_apply_result(
    path: &str,
    actions: &[Action],
    outcomes: &[ActionResult],
    hist_id: &str,
    color: bool,
) -> (r: Vec<String>)
    ensures
        lines_view(r@) == organize_apply_text(path@, actions@, outcomes@, hist_id@, color),
{
    let body = apply_outcome_lines(actions, outcomes, hist_id, color);
    titled("Sift organize", path, body)
}

/// The lines `sift clean --apply` prints after executing a plan.
pub fn clean_apply_result(
    path: &str,
    actions: &[Action],
    outcomes: &[ActionResult],
    hist_id: &str,
    color: bool,
) -> (r: Vec<String>)
    ensures
        lines_view(r@) == clean_apply_text(path@, actions@, outcomes@, hist_id@, color),
{
    let body = apply_outcome_lines(actions, outcomes, hist_id, color);
    titled("Sift clean", path, body)
}

// ------------------------------------------------------------ folders

pub open spec fn folders_counts(outcomes: Seq<ActionResult>) -> Seq<Seq<char>> {
    let moved = count_ok_spec(outcomes, Op::MoveDir);
    let created = count_ok_spec(outcomes, Op::CreateDir);
    let trashed = count_ok_spec(outcomes, Op::Trash);
    let skipped = count_op(outcomes, Op::Skip);
    let failed = count_failed(outcomes);
    seq!["  "@ + dec(moved) + " folder"@ + plural_spec(moved) + " moved"@] + line_if(
        created > 0,
        "  "@ + dec(created) + " categor"@ + y_ies(created) + " created"@,
    ) + line_if(trashed > 0, "  "@ + dec(trashed) + " duplicate file"@ + plural_spec(trashed) + " sent to Trash"@)
        + seq![
        "  "@ + dec(skipped) + " entr"@ + y_ies(skipped) + " left untouched"@,
        "  "@ + dec(failed) + " failure"@ + plural_spec(failed),
    ]
}

pub open spec fn folders_history(outcomes: Seq<ActionResult>, hist_id: Seq<char>) -> Seq<Seq<char>> {
    seq![""@, "History"@, "  "@ + hist_id] + if any_undoable(outcomes) {
        seq![""@, "Undo"@, "  sift undo "@ + hist_id]
    } else if count_ok_spec(outcomes, Op::MoveDir) > 0 {
        seq![""@, "Folder moves are not undoable in this version."@]
    } else {
        Seq::empty()
    }
}

/// What `sift folders --apply` prints after executing a plan.
pub open spec fn folders_apply_text(outcomes: Seq<ActionResult>, hist_id: Seq<char>, color: bool) -> Seq<Seq<char>> {
    seq!["Sift folders"@, ""@] + apply_head(outcomes, color) + folders_counts(outcomes) + apply_failures(outcomes)
        + folders_history(outcomes, hist_id)
}

fn add_folders_counts(out: &mut Vec<String>, outcomes: &[ActionResult])
    ensures
        lines_view(final(out)@) == lines_view(old(out)@) + folders_counts(outcomes@),
{
    let ghost base = lines_view(out@);
    let moved = count_ok(outcomes, Op::MoveDir);
    let created = count_ok(outcomes, Op::CreateDir);
    let trashed = count_ok(outcomes, Op::Trash);
    let skipped = count_of_op(outcomes, Op::Skip);
    let failed = count_failures(outcomes);
    count_line(out, moved, " folder", plural(moved), " moved");
    let ghost a = lines_view(out@);
    if created > 0 {
        count_line(out, created, " categor", y_ies_text(created), " created");
    }
    let ghost b = lines_view(out@);
    if trashed > 0 {
        count_line(out, trashed, " duplicate file", plural(trashed), " sent to Trash");
    }
    let ghost c = lines_view(out@);
    count_line(out, skipped, " entr", y_ies_text(skipped), " left untouched");
    let d = dec_text(failed);
    let mut line = "  ".to_owned();
    line.append(d.as_str());
    line.append(" failure");
    line.append(plural(failed));
    push_line(out, line);
    assert(lines_view(out@) =~= base + folders_counts(outcomes@));
}

fn add_folders_history(out: &mut Vec<String>, outcomes: &[ActionResult], hist_id: &str)
    ensures
        lines_view(final(out)@) == lines_view(old(out)@) + folders_history(outcomes@, hist_id@),
{
    let ghost base = lines_view(out@);
    push_str(out, "");
    push_str(out, "History");
    let mut l = "  ".to_owned();
    l.append(hist_id);
    push_line(out, l);
    if any_undoable_exec(outcomes) {
        push_str(out, "");
        push_str(out, "Undo");
        let mut u = "  sift undo ".to_owned();
        u.append(hist_id);
        push_line(out, u);
    } else if count_ok(outcomes, Op::MoveDir) > 0 {
        push_str(out, "");
        push_str(out, "Folder moves are not undoable in this version.");
    }
    assert(lines_view(out@) =~= base + folders_history(outcomes@, hist_id@));
}

/// The lines `sift folders --apply` prints after executing a plan.
pub fn folders_apply_result(outcomes: &[ActionResult], hist_id: &str, color: bool) -> (r: Vec<String>)
    ensures
        lines_view(r@) == folders_apply_text(outcomes@, hist_id@, color),
{
    let mut out: Vec<String> = Vec::new();
    push_str(&mut out, "Sift folders");
    push_str(&mut out, "");
    let ghost h = lines_view(out@);
    add_apply_head(&mut out, outcomes, color);
    let ghost a = lines_view(out@);
    add_folders_counts(&mut out, outcomes);
    let ghost b = lines_view(out@);
    add_apply_failures(&mut out, outcomes);
    let ghost c = lines_view(out@);
    add_folders_history(&mut out, outcomes, hist_id);
    assert(lines_view(out@) =~= folders_apply_text(outcomes@, hist_id@, color));
    out
}

// --------------------------------------------------------------- undo

/// The headline of an undo: nothing to do, all restored, or some refused.
pub open spec fn undo_headline(restored: nat, refused: nat, trash_skipped: nat, color: bool) -> Seq<char> {
    if restored == 0 && refused == 0 && trash_skipped == 0 {
        "Nothing to undo."@
    } else if refused == 0 {
        colorize_spec("✓"@, "32"@, color) + " "@ + dec(restored) + " item"@ + plural_spec(restored) + " restored"@
    } else {
        colorize_spec(
            if restored > 0 {
                "⚠"@
            } else {
                "✗"@
            },
            if restored > 0 {
                "33"@
            } else {
                "31"@
            },
            color,
        ) + " "@ + dec(restored) + " restored, "@ + dec(refused) + " refused"@
    }
}

/// What `sift undo <id>` prints once it has run.
pub open spec fn undo_result_text(
    id: Seq<char>,
    restored: nat,
    refused: Seq<ActionResult>,
    trash_skipped: nat,
    color: bool,
) -> Seq<Seq<char>> {
    seq!["Sift undo "@ + id, ""@, undo_headline(restored, refused.len(), trash_skipped, color)] + (if refused.len()
        > 0 {
        seq![""@, "Refused"@] + failure_lines(refused)
    } else {
        Seq::empty()
    }) + line_if(trash_skipped > 0, ""@) + line_if(
        trash_skipped > 0,
        dec(trash_skipped) + " trashed file"@ + plural_spec(trash_skipped)
            + " can't be undone here — restore from your system Trash if needed."@,
    )
}

fn undo_headline_text(restored: usize, refused: usize, trash_skipped: usize, color: bool) -> (r: String)
    ensures
        r@ == undo_headline(restored as nat, refused as nat, trash_skipped as nat, color),
{
    if restored == 0 && refused == 0 && trash_skipped == 0 {
        "Nothing to undo.".to_owned()
    } else if refused == 0 {
        let mut l = colorize("✓", "32", color);
        l.append(" ");
        let d = dec_text(restored);
        l.append(d.as_str());
        l.append(" item");
        l.append(plural(restored));
        l.append(" restored");
        l
    } else {
        let symbol = if restored > 0 {
            "⚠"
        } else {
            "✗"
        };
        let code = if restored > 0 {
            "33"
        } else {
            "31"
        };
        let mut l = colorize(symbol, code, color);
        l.append(" ");
        let d = dec_text(restored);
        l.append(d.as_str());
        l.append(" restored, ");
        let e = dec_text(refused);
        l.append(e.as_str());
        l.append(" refused");
        l
    }
}

/// The lines `sift undo <id>` prints: how many moves were restored, which
/// were refused and why, and how many trashed files it cannot bring back.
pub fn undo_result(id: &str, restored: usize, refused: &[ActionResult], trash_skipped: usize, color: bool) -> (r: Vec<String>)
    ensures
        lines_view(r@) == undo_result_text(id@, restored as nat, refused@, trash_skipped as nat, color),
{
    let mut out: Vec<String> = Vec::new();
    let mut title = "Sift undo ".to_owned();
    title.append(id);
    push_line(&mut out, title);
    push_str(&mut out, "");
    let h = undo_headline_text(restored, refused.len(), trash_skipped, color);
    push_line(&mut out, h);
    let ghost a = lines_view(out@);
    if refused.len() > 0 {
        push_str(&mut out, "");
        push_str(&mut out, "Refused");
        crate::render::add_failure_lines(&mut out, refused);
    }
    let ghost b = lines_view(out@);
    if trash_skipped > 0 {
        push_str(&mut out, "");
        let d = dec_text(trash_skipped);
        let mut l = d;
        l.append(" trashed file");
        l.append(plural(trash_skipped));
        l.append(" can't be undone here — restore from your system Trash if needed.");
        push_line(&mut out, l);
    }
    assert(lines_view(out@) =~= undo_result_text(id@, restored as nat, refused@, trash_skipped as nat, color));
    out
}

/// What `sift undo <id>` prints when no record has that id.
pub fn undo_not_found(id: &str, color: bool) -> (r: Vec<String>)
    ensures
        lines_view(r@) == seq![
            "Sift undo "@ + id@,
            ""@,
            colorize_spec("✗"@, "31"@, color) + " No history record found for "@ + id@,
        ],
{
    let mut out: Vec<String> = Vec::new();
    let mut title = "Sift undo ".to_owned();
    title.append(id);
    push_line(&mut out, title);
    push_str(&mut out, "");
    let mut l = colorize("✗", "31", color);
    l.append(" No history record found for ");
    l.append(id);
    push_line(&mut out, l);
    assert(lines_view(out@) =~= seq![
        "Sift undo "@ + id@,
        ""@,
        colorize_spec("✗"@, "31"@, color) + " No history record found for "@ + id@,
    ]);
    out
}

/// What `sift undo <id>` prints when the record cannot be read.
pub fn undo_parse_error(id: &str, color: bool) -> (r: Vec<String>)
    ensures
        lines_view(r@) == seq![
            "Sift undo "@ + id@,
            ""@,
            colorize_spec("✗"@, "31"@, color) + " Could not read that history record (it may be corrupted)"@,
        ],
{
    let mut out: Vec<String> = Vec::new();
    let mut title = "Sift undo ".to_owned();
    title.append(id);
    push_line(&mut out, title);
    push_str(&mut out, "");
    let mut l = colorize("✗", "31", color);
    l.append(" Could not read that history record (it may be corrupted)");
    push_line(&mut out, l);
    assert(lines_view(out@) =~= seq![
        "Sift undo "@ + id@,
        ""@,
        colorize_spec("✗"@, "31"@, color) + " Could not read that history record (it may be corrupted)"@,
    ]);
    out
}

// ------------------------------------------------------------ history

/// `order` (indices of records, newest first) with record `x` placed
/// after every record at least as recent as it.
pub open spec fn insert_newest_first(order: Seq<int>, ts: Seq<u64>, x: int) -> Seq<int>
    decreases order.len(),
{
    if order.len() == 0 {
        seq![x]
    } else if ts[order.last()] >= ts[x] {
        order.push(x)
    } else {
        insert_newest_first(order.drop_last(), ts, x).push(order.last())
    }
}

/// The first `n` records' indices ordered newest first; records with the
/// same timestamp keep the order they were recorded in.
pub open spec fn newest_first(ts: Seq<u64>, n: int) -> Seq<int>
    decreases n,
{
    if n <= 0 {
        Seq::empty()
    } else {
        insert_newest_first(newest_first(ts, n - 1), ts, n - 1)
    }
}

pub open spec fn timestamps(items: Seq<HistoryItem>) -> Seq<u64> {
    items.map_values(|h: HistoryItem| h.timestamp)
}

proof fn lemma_insert_newest_first(order: Seq<int>, ts: Seq<u64>, x: int, p: int)
    requires
        0 <= p <= order.len(),
        0 <= x < ts.len(),
        forall|k: int| 0 <= k < order.len() ==> 0 <= #[trigger] order[k] < ts.len(),
        forall|k: int| p <= k < order.len() ==> ts[#[trigger] order[k]] < ts[x],
        p == 0 || ts[order[p - 1]] >= ts[x],
    ensures
        insert_newest_first(order, ts, x) == order.insert(p, x),
    decreases order.len(),
{
    if order.len() == 0 {
        assert(order.insert(p, x) =~= seq![x]);
    } else if ts[order.last()] >= ts[x] {
        if p < order.len() {
            assert(ts[order[order.len() - 1]] < ts[x]);
        }
        assert(order.insert(p, x) =~= order.push(x));
    } else {
        let d = order.drop_last();
        if p == order.len() {
            assert(ts[order[p - 1]] >= ts[x]);
        }
        lemma_insert_newest_first(d, ts, x, p);
        assert(d.insert(p, x).push(order.last()) =~= order.insert(p, x));
    }
}

pub open spec fn index_view(v: Seq<usize>) -> Seq<int> {
    v.map_values(|i: usize| i as int)
}

/// The records' indices, newest first (a stable order on equal times).
fn newest_first_order(items: &[HistoryItem]) -> (r: Vec<usize>)
    ensures
        index_view(r@) == newest_first(timestamps(items@), items@.len() as int),
        forall|k: int| 0 <= k < r@.len() ==> r@[k] < items@.len(),
{
    let ghost ts = timestamps(items@);
    let mut out: Vec<usize> = Vec::new();
    let mut x: usize = 0;
    while x < items.len()
        invariant
            x <= items@.len(),
            ts == timestamps(items@),
            index_view(out@) == newest_first(ts, x as int),
            forall|k: int| 0 <= k < out@.len() ==> out@[k] < x,
        decreases items@.len() - x,
    {
        let mut p: usize = out.len();
        while p > 0 && items[out[p - 1]].timestamp < items[x].timestamp
            invariant
                p <= out@.len(),
                x < items@.len(),
                ts == timestamps(items@),
                forall|k: int| 0 <= k < out@.len() ==> out@[k] < x,
                forall|k: int| p <= k < out@.len() ==> ts[#[trigger] out@[k] as int] < ts[x as int],
            decreases p,
        {
            p -= 1;
        }
        proof {
            let ov = index_view(out@);
            assert forall|k: int| 0 <= k < ov.len() implies 0 <= #[trigger] ov[k] < ts.len() by {
                assert(ov[k] == out@[k] as int);
            }
            assert forall|k: int| p <= k < ov.len() implies ts[#[trigger] ov[k]] < ts[x as int] by {
                assert(ov[k] == out@[k] as int);
            }
            if p > 0 {
                assert(ov[p - 1] == out@[p - 1] as int);
            }
            lemma_insert_newest_first(ov, ts, x as int, p as int);
        }
        let ghost before = out@;
        out.insert(p, x);
        assert(index_view(out@) =~= index_view(before).insert(p as int, x as int));
        x += 1;
    }
    out
}

/// Joins the parts with `" · "`.
pub open spec fn join_dot(parts: Seq<Seq<char>>) -> Seq<char>
    decreases parts.len(),
{
    if parts.len() == 0 {
        Seq::empty()
    } else if parts.len() == 1 {
        parts[0]
    } else {
        join_dot(parts.drop_last()) + " · "@ + parts.last()
    }
}

pub open spec fn history_parts(h: HistoryItem) -> Seq<Seq<char>> {
    let o = h.outcomes@;
    let undo = h.kind@ == "undo"@;
    let moved = count_ok_spec(o, Op::Move);
    let dirs = count_ok_spec(o, Op::MoveDir);
    let created = count_ok_spec(o, Op::CreateDir);
    let trashed = count_ok_spec(o, Op::Trash);
    let skipped = count_op(o, Op::Skip);
    let failed = count_failed(o);
    line_if(
        moved > 0,
        dec(moved) + " "@ + if undo {
            "restored"@
        } else {
            "moved"@
        },
    ) + line_if(
        dirs > 0,
        dec(dirs) + " "@ + if undo {
            "folders restored"@
        } else {
            "folders moved"@
        },
    ) + line_if(created > 0, dec(created) + " directories"@) + line_if(trashed > 0, dec(trashed) + " trashed"@)
        + line_if(skipped > 0, dec(skipped) + " skipped"@) + line_if(failed > 0, dec(failed) + " failed"@)
}

pub open spec fn history_breakdown(h: HistoryItem) -> Seq<char> {
    if history_parts(h).len() == 0 {
        "no actions"@
    } else {
        join_dot(history_parts(h))
    }
}

pub open spec fn history_kind(h: HistoryItem) -> Seq<char> {
    if h.kind@ == ""@ {
        "operation"@
    } else {
        h.kind@
    }
}

pub open spec fn history_origin(h: HistoryItem) -> Seq<char> {
    if h.origin@ == "watch"@ {
        match h.watch_root {
            Some(r) => " · watch · "@ + r@,
            None => " · watch"@,
        }
    } else {
        ""@
    }
}

/// One record in the history listing.
pub open spec fn history_entry(h: HistoryItem) -> Seq<Seq<char>> {
    seq![
        "  "@ + h.id@,
        "  "@ + timestamp_spec(h.timestamp as int),
        "  "@ + history_kind(h) + " · "@ + history_breakdown(h) + history_origin(h),
        ""@,
    ]
}

pub open spec fn history_entries(items: Seq<HistoryItem>, order: Seq<int>) -> Seq<Seq<char>>
    decreases order.len(),
{
    if order.len() == 0 {
        Seq::empty()
    } else {
        history_entries(items, order.drop_last()) + history_entry(items[order.last()])
    }
}

/// What `sift history` prints: every record, newest first.
pub open spec fn history_text(items: Seq<HistoryItem>) -> Seq<Seq<char>> {
    seq!["History"@, ""@] + if items.len() == 0 {
        seq!["No operations recorded yet."@]
    } else {
        history_entries(items, newest_first(timestamps(items), items.len() as int)) + seq![
            "To undo one of these:"@,
            "  sift undo <id>"@,
        ]
    }
}

fn add_part(parts: &mut Vec<String>, n: usize, label: &str)
    ensures
        crate::path::strings_view(final(parts)@) == crate::path::strings_view(old(parts)@).push(dec(n as nat) + " "@ + label@),
{
    let d = dec_text(n);
    let mut s = d;
    s.append(" ");
    s.append(label);
    let ghost before = parts@;
    parts.push(s);
    assert(crate::path::strings_view(parts@) =~= crate::path::strings_view(before).push(dec(n as nat) + " "@ + label@));
}

fn add_part_word(parts: &mut Vec<String>, n: usize, word: &str)
    ensures
        crate::path::strings_view(final(parts)@) == crate::path::strings_view(old(parts)@).push(dec(n as nat) + word@),
{
    let d = dec_text(n);
    let mut s = d;
    s.append(word);
    let ghost before = parts@;
    parts.push(s);
    assert(crate::path::strings_view(parts@) =~= crate::path::strings_view(before).push(dec(n as nat) + word@));
}

fn history_parts_of(h: &HistoryItem) -> (r: Vec<String>)
    ensures
        crate::path::strings_view(r@) == history_parts(*h),
{
    let o = h.outcomes.as_slice();
    let undo = str_eq(h.kind.as_str(), "undo");
    let moved = count_ok(o, Op::Move);
    let dirs = count_ok(o, Op::MoveDir);
    let created = count_ok(o, Op::CreateDir);
    let trashed = count_ok(o, Op::Trash);
    let skipped = count_of_op(o, Op::Skip);
    let failed = count_failures(o);
    let mut parts: Vec<String> = Vec::new();
    assert(crate::path::strings_view(parts@) =~= Seq::<Seq<char>>::empty());
    if moved > 0 {
        add_part(&mut parts, moved, if undo { "restored" } else { "moved" });
    }
    let ghost a = crate::path::strings_view(parts@);
    if dirs > 0 {
        add_part(&mut parts, dirs, if undo { "folders restored" } else { "folders moved" });
    }
    let ghost b = crate::path::strings_view(parts@);
    if created > 0 {
        add_part_word(&mut parts, created, " directories");
    }
    let ghost c = crate::path::strings_view(parts@);
    if trashed > 0 {
        add_part_word(&mut parts, trashed, " trashed");
    }
    let ghost d = crate::path::strings_view(parts@);
    if skipped > 0 {
        add_part_word(&mut parts, skipped, " skipped");
    }
    let ghost e = crate::path::strings_view(parts@);
    if failed > 0 {
        add_part_word(&mut parts, failed, " failed");
    }
    assert(crate::path::strings_view(parts@) =~= history_parts(*h));
    parts
}

fn join_parts(parts: &Vec<String>) -> (r: String)
    requires
        parts@.len() > 0,
    ensures
        r@ == join_dot(crate::path::strings_view(parts@)),
{
    let ghost sv = crate::path::strings_view(parts@);
    let mut s = parts[0].clone();
    assert(sv.subrange(0, 1).len() == 1);
    let mut k: usize = 1;
    while k < parts.len()
        invariant
            1 <= k <= parts@.len(),
            sv == crate::path::strings_view(parts@),
            s@ == join_dot(sv.subrange(0, k as int)),
        decreases parts@.len() - k,
    {
        assert(sv.subrange(0, k + 1).drop_last() =~= sv.subrange(0, k as int));
        s.append(" · ");
        s.append(parts[k].as_str());
        k += 1;
    }
    assert(sv.subrange(0, parts@.len() as int) =~= sv);
    s
}

fn history_entry_lines(out: &mut Vec<String>, h: &HistoryItem)
    ensures
        lines_view(final(out)@) == lines_view(old(out)@) + history_entry(*h),
{
    let ghost base = lines_view(out@);
    let mut l1 = "  ".to_owned();
    l1.append(h.id.as_str());
    push_line(out, l1);
    let ts = format_timestamp(h.timestamp);
    let mut l2 = "  ".to_owned();
    l2.append(ts.as_str());
    push_line(out, l2);
    let parts = history_parts_of(h);
    let breakdown = if parts.len() == 0 {
        "no actions".to_owned()
    } else {
        join_parts(&parts)
    };
    let kind: &str = if str_eq(h.kind.as_str(), "") {
        "operation"
    } else {
        h.kind.as_str()
    };
    let mut l3 = "  ".to_owned();
    l3.append(kind);
    l3.append(" · ");
    l3.append(breakdown.as_str());
    if str_eq(h.origin.as_str(), "watch") {
        match &h.watch_root {
            Some(r) => {
                let mut o = " · watch · ".to_owned();
                o.append(r.as_str());
                l3.append(o.as_str());
            },
            None => {
                l3.append(" · watch");
            },
        }
    } else {
        l3.append("");
    }
    push_line(out, l3);
    push_str(out, "");
    assert(lines_view(out@) =~= base + history_entry(*h));
}

/// The lines `sift history` prints: every recorded run, newest first,
/// with what it did and how to undo it.
#[verifier::spinoff_prover]
#[verifier::rlimit(40)]
pub fn history(items: &[HistoryItem]) -> (r: Vec<String>)
    ensures
        lines_view(r@) == history_text(items@),
{
    let mut out: Vec<String> = Vec::new();
    push_str(&mut out, "History");
    push_str(&mut out, "");
    let ghost head = lines_view(out@);
    if items.len() == 0 {
        push_str(&mut out, "No operations recorded yet.");
        assert(lines_view(out@) =~= history_text(items@));
        return out;
    }
    let order = newest_first_order(items);
    let ghost ov = index_view(order@);
    let mut k: usize = 0;
    while k < order.len()
        invariant
            k <= order@.len(),
            ov == index_view(order@),
            forall|j: int| 0 <= j < order@.len() ==> order@[j] < items@.len(),
            lines_view(out@) == head + history_entries(items@, ov.subrange(0, k as int)),
        decreases order@.len() - k,
    {
        assert(ov.subrange(0, k + 1).drop_last() =~= ov.subrange(0, k as int));
        assert(ov.subrange(0, k + 1).last() == order@[k as int] as int);
        let idx = order[k];
        history_entry_lines(&mut out, &items[idx]);
        k += 1;
    }
    assert(ov.subrange(0, order@.len() as int) =~= ov);
    push_str(&mut out, "To undo one of these:");
    push_str(&mut out, "  sift undo <id>");
    assert(lines_view(out@) =~= history_text(items@));
    out
}

// -------------------------------------------------------------- doctor

/// One doctor finding as the report shows it: where, why, and whether it
/// is a directory (shown with a trailing `/`).
pub struct ReportedFinding {
    pub path: String,
    pub reason: String,
    pub is_dir: bool,
}

pub open spec fn finding_name(f: ReportedFinding, target: Seq<char>) -> Seq<char> {
    if f.is_dir {
        display_rel_spec(f.path@, target) + "/"@
    } else {
        display_rel_spec(f.path@, target)
    }
}

pub open spec fn finding_lines(fs: Seq<ReportedFinding>, target: Seq<char>, color: bool) -> Seq<Seq<char>>
    decreases fs.len(),
{
    if fs.len() == 0 {
        Seq::empty()
    } else {
        finding_lines(fs.drop_last(), target, color) + seq![
            "  "@ + colorize_spec("⚠"@, "33"@, color) + " "@ + finding_name(fs.last(), target),
            "    "@ + fs.last().reason@,
            ""@,
        ]
    }
}

/// What `sift doctor` prints.
pub open spec fn doctor_text(path: Seq<char>, fs: Seq<ReportedFinding>, color: bool) -> Seq<Seq<char>> {
    seq!["Sift doctor"@, path, ""@] + if fs.len() == 0 {
        seq!["No issues found."@]
    } else {
        seq!["Issues found"@, ""@] + finding_lines(fs, path, color) + seq![
            dec(fs.len()) + " finding"@ + plural_spec(fs.len()),
        ]
    }
}

/// The lines `sift doctor` prints for its findings.
pub fn doctor(path: &str, findings: &[ReportedFinding], color: bool) -> (r: Vec<String>)
    ensures
        lines_view(r@) == doctor_text(path@, findings@, color),
{
    let mut out: Vec<String> = Vec::new();
    push_str(&mut out, "Sift doctor");
    push_str(&mut out, path);
    push_str(&mut out, "");
    if findings.len() == 0 {
        push_str(&mut out, "No issues found.");
        assert(lines_view(out@) =~= doctor_text(path@, findings@, color));
        return out;
    }
    push_str(&mut out, "Issues found");
    push_str(&mut out, "");
    let ghost head = lines_view(out@);
    let mut i: usize = 0;
    while i < findings.len()
        invariant
            i <= findings@.len(),
            lines_view(out@) == head + finding_lines(findings@.subrange(0, i as int), path@, color),
        decreases findings@.len() - i,
    {
        assert(findings@.subrange(0, i + 1).drop_last() =~= findings@.subrange(0, i as int));
        let f = &findings[i];
        let rel = display_rel(f.path.as_str(), path);
        let name = if f.is_dir {
            crate::text::concat(rel.as_str(), "/")
        } else {
            rel
        };
        let mut l1 = "  ".to_owned();
        let mark = colorize("⚠", "33", color);
        l1.append(mark.as_str());
        l1.append(" ");
        l1.append(name.as_str());
        push_line(&mut out, l1);
        let mut l2 = "    ".to_owned();
        l2.append(f.reason.as_str());
        push_line(&mut out, l2);
        push_str(&mut out, "");
        assert(lines_view(out@) =~= head + finding_lines(findings@.subrange(0, i + 1), path@, color));
        i += 1;
    }
    assert(findings@.subrange(0, findings@.len() as int) =~= findings@);
    let d = dec_text(findings.len());
    let mut last = d;
    last.append(" finding");
    last.append(plural(findings.len()));
    push_line(&mut out, last);
    assert(lines_view(out@) =~= doctor_text(path@, findings@, color));
    out
}

// -------------------------------------------------------- recursive scan

/// An entry where recursive scanning stopped.
pub open spec fn is_stop(e: Entry) -> bool {
    (e.is_dir || e.is_symlink) && traversal_spec(e) is Some
}

pub open spec fn entry_rel(e: Entry, target: Seq<char>) -> Seq<char> {
    display_rel_spec(e.path@, target)
}

pub open spec fn visible_line(e: Entry, target: Seq<char>) -> Seq<char> {
    "  "@ + if e.is_dir {
        entry_rel(e, target) + "/"@
    } else {
        entry_rel(e, target)
    }
}

pub open spec fn stop_line(e: Entry, target: Seq<char>, w: nat) -> Seq<char> {
    "  "@ + pad_right(entry_rel(e, target) + "/"@, w) + "  "@ + traversal_spec(e)->Some_0
}

pub open spec fn stop_width(stops: Seq<Entry>, target: Seq<char>) -> nat {
    max_byte_len(stops.map_values(|e: Entry| entry_rel(e, target))) + 1
}

/// What `sift scan --recursive` prints: everything visited, then where
/// traversal stopped and why.
pub open spec fn scan_recursive_text(path: Seq<char>, entries: Seq<Entry>) -> Seq<Seq<char>> {
    let visible = entries.filter(|e: Entry| !is_stop(e));
    let stops = entries.filter(|e: Entry| is_stop(e));
    seq!["Sift scan"@, path, ""@, "Recursive scan"@, ""@] + (if visible.len() == 0 {
        seq!["  (nothing found)"@]
    } else {
        Seq::new(visible.len(), |i: int| visible_line(visible[i], path))
    }) + if stops.len() > 0 {
        let w = stop_width(stops, path);
        seq![""@, "Protected"@] + Seq::new(stops.len(), |i: int| stop_line(stops[i], path, w))
    } else {
        Seq::empty()
    }
}

fn stop_reason(e: &Entry) -> (r: Option<&'static str>)
    ensures
        r is Some == is_stop(*e),
        r is Some ==> traversal_spec(*e) == Some(r->Some_0@),
{
    if e.is_dir || e.is_symlink {
        traversal_reason(e)
    } else {
        None
    }
}

/// The lines `sift scan --recursive` prints for what it found.
pub fn scan_recursive(path: &str, entries: &[Entry]) -> (r: Vec<String>)
    ensures
        lines_view(r@) == scan_recursive_text(path@, entries@),
{
    let ghost visible = entries@.filter(|e: Entry| !is_stop(e));
    let ghost stops = entries@.filter(|e: Entry| is_stop(e));
    let mut vis_lines: Vec<String> = Vec::new();
    let mut stop_entries: Vec<Entry> = Vec::new();
    let mut stop_reasons: Vec<&'static str> = Vec::new();
    let mut w: u128 = 0;
    let mut i: usize = 0;
    assert(entries@.subrange(0, 0).filter(|e: Entry| !is_stop(e)) =~= Seq::<Entry>::empty()) by {
        reveal(Seq::filter);
    }
    assert(entries@.subrange(0, 0).filter(|e: Entry| is_stop(e)) =~= Seq::<Entry>::empty()) by {
        reveal(Seq::filter);
    }
    while i < entries.len()
        invariant
            i <= entries@.len(),
            visible == entries@.filter(|e: Entry| !is_stop(e)),
            stops == entries@.filter(|e: Entry| is_stop(e)),
            lines_view(vis_lines@) =~= {
                let v = entries@.subrange(0, i as int).filter(|e: Entry| !is_stop(e));
                Seq::new(v.len(), |k: int| visible_line(v[k], path@))
            },
            stop_entries@ == entries@.subrange(0, i as int).filter(|e: Entry| is_stop(e)),
            stop_reasons@.len() == stop_entries@.len(),
            forall|k: int| 0 <= k < stop_entries@.len() ==> traversal_spec(#[trigger] stop_entries@[k]) == Some(
                stop_reasons@[k]@,
            ),
            w == max_byte_len(stop_entries@.map_values(|e: Entry| entry_rel(e, path@))),
            w <= 4 * (usize::MAX as u128),
        decreases entries@.len() - i,
    {
        let ghost pre_v = entries@.subrange(0, i as int).filter(|e: Entry| !is_stop(e));
        let ghost pre_s = entries@.subrange(0, i as int).filter(|e: Entry| is_stop(e));
        assert(entries@.subrange(0, i + 1) =~= entries@.subrange(0, i as int).push(entries@[i as int]));
        proof {
            entries@.subrange(0, i as int).lemma_filter_push(entries@[i as int], |e: Entry| !is_stop(e));
            entries@.subrange(0, i as int).lemma_filter_push(entries@[i as int], |e: Entry| is_stop(e));
        }
        let e = &entries[i];
        let rel = display_rel(e.path.as_str(), path);
        match stop_reason(e) {
            Some(reason) => {
                let b = text_byte_len(rel.as_str());
                let ghost names = stop_entries@.map_values(|x: Entry| entry_rel(x, path@));
                stop_entries.push(e.clone());
                stop_reasons.push(reason);
                let ghost names2 = stop_entries@.map_values(|x: Entry| entry_rel(x, path@));
                assert(names2.drop_last() =~= names);
                if b > w {
                    w = b;
                }
            },
            None => {
                let mut l = "  ".to_owned();
                if e.is_dir {
                    let n = crate::text::concat(rel.as_str(), "/");
                    l.append(n.as_str());
                } else {
                    l.append(rel.as_str());
                }
                let ghost before = lines_view(vis_lines@);
                push_line(&mut vis_lines, l);
                let ghost v2 = pre_v.push(entries@[i as int]);
                assert(lines_view(vis_lines@) =~= Seq::new(v2.len(), |k: int| visible_line(v2[k], path@)));
            },
        }
        i += 1;
    }
    assert(entries@.subrange(0, entries@.len() as int) =~= entries@);
    let mut out: Vec<String> = Vec::new();
    push_str(&mut out, "Sift scan");
    push_str(&mut out, path);
    push_str(&mut out, "");
    push_str(&mut out, "Recursive scan");
    push_str(&mut out, "");
    let ghost head = lines_view(out@);
    if vis_lines.len() == 0 {
        push_str(&mut out, "  (nothing found)");
    } else {
        let mut j: usize = 0;
        while j < vis_lines.len()
            invariant
                j <= vis_lines@.len(),
                lines_view(out@) == head + lines_view(vis_lines@).subrange(0, j as int),
            decreases vis_lines@.len() - j,
        {
            assert(lines_view(vis_lines@).subrange(0, j + 1) =~= lines_view(vis_lines@).subrange(0, j as int).push(
                vis_lines@[j as int]@,
            ));
            let l = vis_lines[j].clone();
            push_line(&mut out, l);
            j += 1;
        }
        assert(lines_view(vis_lines@).subrange(0, vis_lines@.len() as int) =~= lines_view(vis_lines@));
    }
    let ghost mid = lines_view(out@);
    assert(mid =~= head + (if visible.len() == 0 {
        seq!["  (nothing found)"@]
    } else {
        Seq::new(visible.len(), |k: int| visible_line(visible[k], path@))
    }));
    if stop_entries.len() > 0 {
        push_str(&mut out, "");
        push_str(&mut out, "Protected");
        let width = w + 1;
        let ghost sw = stop_width(stops, path@);
        let mut k: usize = 0;
        while k < stop_entries.len()
            invariant
                k <= stop_entries@.len(),
                stop_entries@ == stops,
                stop_reasons@.len() == stop_entries@.len(),
                forall|m: int| 0 <= m < stop_entries@.len() ==> traversal_spec(#[trigger] stop_entries@[m]) == Some(
                    stop_reasons@[m]@,
                ),
                width == sw,
                lines_view(out@) == mid + seq![""@, "Protected"@] + Seq::new(
                    k as nat,
                    |m: int| stop_line(stops[m], path@, sw),
                ),
            decreases stop_entries@.len() - k,
        {
            let e = &stop_entries[k];
            let rel = display_rel(e.path.as_str(), path);
            let name = crate::text::concat(rel.as_str(), "/");
            let mut l = "  ".to_owned();
            let padded = pad_right_text(name.as_str(), width);
            l.append(padded.as_str());
            l.append("  ");
            l.append(stop_reasons[k]);
            assert(traversal_spec(stop_entries@[k as int]) == Some(stop_reasons@[k as int]@));
            assert(l@ == stop_line(stops[k as int], path@, sw));
            push_line(&mut out, l);
            assert(Seq::new((k + 1) as nat, |m: int| stop_line(stops[m], path@, sw)) =~= Seq::new(
                k as nat,
                |m: int| stop_line(stops[m], path@, sw),
            ).push(stop_line(stops[k as int], path@, sw)));
            k += 1;
        }
        assert(Seq::new(stops.len(), |m: int| stop_line(stops[m], path@, sw)) =~= Seq::new(
            k as nat,
            |m: int| stop_line(stops[m], path@, sw),
        ));
    }
    assert(lines_view(out@) =~= scan_recursive_text(path@, entries@));
    out
}

// ------------------------------------------------------- policy errors

/// What a manual command prints when the effective policy is invalid: it
/// refuses to run rather than fall back to defaults.
pub open spec fn policy_error_text(command: Seq<char>, path: Seq<char>, error: Seq<char>, color: bool) -> Seq<Seq<char>> {
    seq![
        "Sift "@ + command,
        path,
        ""@,
        colorize_spec("✗"@, "31"@, color) + " Invalid configuration"@,
        ""@,
    ] + crate::render::text_lines(error).map_values(|l: Seq<char>| "  "@ + l) + seq![""@, "No changes made."@]
}

/// The lines a manual command prints for an invalid policy.
pub fn policy_error(command: &str, path: &str, error: &str, color: bool) -> (r: Vec<String>)
    ensures
        lines_view(r@) == policy_error_text(command@, path@, error@, color),
{
    let mut out: Vec<String> = Vec::new();
    let mut title = "Sift ".to_owned();
    title.append(command);
    push_line(&mut out, title);
    push_str(&mut out, path);
    push_str(&mut out, "");
    let mut l = colorize("✗", "31", color);
    l.append(" Invalid configuration");
    push_line(&mut out, l);
    push_str(&mut out, "");
    crate::render::push_text_lines(&mut out, error);
    push_str(&mut out, "");
    push_str(&mut out, "No changes made.");
    assert(lines_view(out@) =~= policy_error_text(command@, path@, error@, color));
    out
}

} // verus!
