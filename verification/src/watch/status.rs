//! What `sift watch list`, `sift watch status` and `sift watch daemon
//! status` print about the registered watches and the daemon.
use vstd::prelude::*;
use crate::preview::line_if;
use crate::render::{format_timestamp, lines_view, push_line, push_str, timestamp_spec};
use crate::text::dec;
use crate::watch::registry::{state_label, WatchEntry, WatchState};

verus! {

/// Whether the watch daemon is running, as far as its lock and info file
/// tell.
pub enum DaemonStatus {
    Running { pid: Option<u32>, started_at: Option<u64> },
    NotRunning,
}

/// The daemon's state as `sift watch daemon status` prints it.
pub open spec fn daemon_status_spec(s: DaemonStatus) -> Seq<char> {
    match s {
        DaemonStatus::Running { pid, started_at } => "running"@ + match pid {
            Some(p) => " (pid "@ + dec(p as nat) + ")"@,
            None => ""@,
        } + match started_at {
            Some(t) => ", started "@ + timestamp_spec(t as int),
            None => ""@,
        },
        DaemonStatus::NotRunning => "not running"@,
    }
}

pub fn daemon_status_text(s: &DaemonStatus) -> (r: String)
    ensures
        r@ == daemon_status_spec(*s),
{
    match s {
        DaemonStatus::Running { pid, started_at } => {
            let mut out = "running".to_owned();
            match pid {
                Some(p) => {
                    let d = crate::text::fmt_u64(*p as u64, 0);
                    let mut part = " (pid ".to_owned();
                    part.append(d.as_str());
                    part.append(")");
                    out.append(part.as_str());
                },
                None => {
                    out.append("");
                },
            }
            match started_at {
                Some(t) => {
                    let ts = format_timestamp(*t);
                    let mut part = ", started ".to_owned();
                    part.append(ts.as_str());
                    out.append(part.as_str());
                },
                None => {
                    out.append("");
                },
            }
            out
        },
        DaemonStatus::NotRunning => "not running".to_owned(),
    }
}

/// The daemon line closing `sift watch status`.
pub open spec fn daemon_line_spec(s: DaemonStatus) -> Seq<char> {
    match s {
        DaemonStatus::Running { pid, .. } => match pid {
            Some(p) => "Daemon:        running (pid "@ + dec(p as nat) + ")"@,
            None => "Daemon:        running"@,
        },
        DaemonStatus::NotRunning => "Daemon:        not running"@,
    }
}

pub fn daemon_line(s: &DaemonStatus) -> (r: String)
    ensures
        r@ == daemon_line_spec(*s),
{
    match s {
        DaemonStatus::Running { pid, .. } => match pid {
            Some(p) => {
                let d = crate::text::fmt_u64(*p as u64, 0);
                let mut out = "Daemon:        running (pid ".to_owned();
                out.append(d.as_str());
                out.append(")");
                out
            },
            None => "Daemon:        running".to_owned(),
        },
        DaemonStatus::NotRunning => "Daemon:        not running".to_owned(),
    }
}

/// When a watch last did something: its last success, else its last
/// event.
pub open spec fn last_activity(w: WatchEntry) -> Option<u64> {
    if w.last_success_at is Some {
        w.last_success_at
    } else {
        w.last_event_at
    }
}

pub open spec fn activity_text(w: WatchEntry) -> Seq<char> {
    match last_activity(w) {
        Some(t) => timestamp_spec(t as int),
        None => "never"@,
    }
}

fn activity(w: &WatchEntry) -> (r: String)
    ensures
        r@ == activity_text(*w),
{
    let t = match w.last_success_at {
        Some(t) => Some(t),
        None => w.last_event_at,
    };
    match t {
        Some(t) => format_timestamp(t),
        None => "never".to_owned(),
    }
}

pub open spec fn state_symbol(s: WatchState) -> Seq<char> {
    match s {
        WatchState::Running => "\u{25cf}"@,
        WatchState::Paused => "\u{2161}"@,
        WatchState::Stopped => "\u{25cb}"@,
    }
}

/// A running watch is healthy: the registry records no configuration
/// error that would suspend it.
pub open spec fn health_text(s: WatchState) -> Seq<char> {
    if s == WatchState::Running {
        " · healthy"@
    } else {
        ""@
    }
}

pub open spec fn on_off(b: bool) -> Seq<char> {
    if b {
        "on"@
    } else {
        "off"@
    }
}

/// One watch in `sift watch list`.
pub open spec fn watch_entry_lines(w: WatchEntry) -> Seq<Seq<char>> {
    seq![
        "  "@ + state_symbol(w.state) + "  "@ + w.path@,
        "     "@ + state_label(w.state) + " · auto-apply · recursive "@ + on_off(w.recursive) + health_text(w.state),
    ] + line_if(
        w.organized_count > 0 || w.last_success_at is Some,
        "     "@ + dec(w.organized_count as nat) + " organized · last activity "@ + activity_text(w),
    ) + match w.last_error {
        Some(e) => seq!["     last error: "@ + e@],
        None => Seq::empty(),
    } + seq![""@]
}

pub open spec fn watch_entries_lines(ws: Seq<WatchEntry>) -> Seq<Seq<char>>
    decreases ws.len(),
{
    if ws.len() == 0 {
        Seq::empty()
    } else {
        watch_entries_lines(ws.drop_last()) + watch_entry_lines(ws.last())
    }
}

/// What `sift watch list` prints.
pub open spec fn watch_list_text(ws: Seq<WatchEntry>) -> Seq<Seq<char>> {
    seq!["Sift watch"@, ""@] + if ws.len() == 0 {
        seq!["  No watches registered. Add one with `sift watch add <path> --auto-apply`."@]
    } else {
        watch_entries_lines(ws)
    }
}

fn state_symbol_text(s: WatchState) -> (r: &'static str)
    ensures
        r@ == state_symbol(s),
{
    match s {
        WatchState::Running => "\u{25cf}",
        WatchState::Paused => "\u{2161}",
        WatchState::Stopped => "\u{25cb}",
    }
}

fn add_watch_entry(out: &mut Vec<String>, w: &WatchEntry)
    ensures
        lines_view(final(out)@) == lines_view(old(out)@) + watch_entry_lines(*w),
{
    let ghost base = lines_view(out@);
    let mut l1 = "  ".to_owned();
    l1.append(state_symbol_text(w.state));
    l1.append("  ");
    l1.append(w.path.as_str());
    push_line(out, l1);
    let mut l2 = "     ".to_owned();
    l2.append(w.state.label());
    l2.append(" · auto-apply · recursive ");
    l2.append(if w.recursive {
        "on"
    } else {
        "off"
    });
    l2.append(if w.state == WatchState::Running {
        " · healthy"
    } else {
        ""
    });
    push_line(out, l2);
    let ghost a = lines_view(out@);
    if w.organized_count > 0 || w.last_success_at.is_some() {
        let d = crate::text::fmt_u64(w.organized_count, 0);
        let mut l3 = "     ".to_owned();
        l3.append(d.as_str());
        l3.append(" organized · last activity ");
        let act = activity(w);
        l3.append(act.as_str());
        push_line(out, l3);
    }
    let ghost b = lines_view(out@);
    match &w.last_error {
        Some(e) => {
            let mut l4 = "     last error: ".to_owned();
            l4.append(e.as_str());
            push_line(out, l4);
        },
        None => {},
    }
    push_str(out, "");
    assert(lines_view(out@) =~= base + watch_entry_lines(*w));
}

/// The lines `sift watch list` prints for the registered watches.
pub fn watch_list(entries: &[WatchEntry]) -> (r: Vec<String>)
    ensures
        lines_view(r@) == watch_list_text(entries@),
{
    let mut out: Vec<String> = Vec::new();
    push_str(&mut out, "Sift watch");
    push_str(&mut out, "");
    if entries.len() == 0 {
        push_str(&mut out, "  No watches registered. Add one with `sift watch add <path> --auto-apply`.");
        assert(lines_view(out@) =~= watch_list_text(entries@));
        return out;
    }
    let ghost head = lines_view(out@);
    let mut i: usize = 0;
    while i < entries.len()
        invariant
            i <= entries@.len(),
            lines_view(out@) == head + watch_entries_lines(entries@.subrange(0, i as int)),
        decreases entries@.len() - i,
    {
        assert(entries@.subrange(0, i + 1).drop_last() =~= entries@.subrange(0, i as int));
        add_watch_entry(&mut out, &entries[i]);
        assert(lines_view(out@) =~= head + watch_entries_lines(entries@.subrange(0, i + 1)));
        i += 1;
    }
    assert(entries@.subrange(0, entries@.len() as int) =~= entries@);
    assert(lines_view(out@) =~= watch_list_text(entries@));
    out
}

pub open spec fn bool_text(b: bool) -> Seq<char> {
    if b {
        "true"@
    } else {
        "false"@
    }
}

/// What `sift watch status <path>` prints for one watch.
pub open spec fn watch_status_text(w: WatchEntry, daemon: DaemonStatus) -> Seq<Seq<char>> {
    seq![
        "Path:          "@ + w.path@,
        "State:         "@ + state_label(w.state) + health_text(w.state),
        "Recursive:     "@ + bool_text(w.recursive),
        "Auto-apply:    "@ + bool_text(w.auto_apply),
        "Organized:     "@ + dec(w.organized_count as nat),
        "Errors:        "@ + dec(w.error_count as nat),
        "Last activity: "@ + activity_text(w),
    ] + match w.last_error {
        Some(e) => seq!["Last error:    "@ + e@],
        None => Seq::empty(),
    } + seq![daemon_line_spec(daemon)]
}

/// The lines `sift watch status <path>` prints.
pub fn watch_status(w: &WatchEntry, daemon: &DaemonStatus) -> (r: Vec<String>)
    ensures
        lines_view(r@) == watch_status_text(*w, *daemon),
{
    let mut out: Vec<String> = Vec::new();
    let mut l = "Path:          ".to_owned();
    l.append(w.path.as_str());
    push_line(&mut out, l);
    let mut l = "State:         ".to_owned();
    l.append(w.state.label());
    l.append(if w.state == WatchState::Running {
        " · healthy"
    } else {
        ""
    });
    push_line(&mut out, l);
    let mut l = "Recursive:     ".to_owned();
    l.append(if w.recursive {
        "true"
    } else {
        "false"
    });
    push_line(&mut out, l);
    let mut l = "Auto-apply:    ".to_owned();
    l.append(if w.auto_apply {
        "true"
    } else {
        "false"
    });
    push_line(&mut out, l);
    let d = crate::text::fmt_u64(w.organized_count, 0);
    let mut l = "Organized:     ".to_owned();
    l.append(d.as_str());
    push_line(&mut out, l);
    let d = crate::text::fmt_u64(w.error_count, 0);
    let mut l = "Errors:        ".to_owned();
    l.append(d.as_str());
    push_line(&mut out, l);
    let act = activity(w);
    let mut l = "Last activity: ".to_owned();
    l.append(act.as_str());
    push_line(&mut out, l);
    let ghost a = lines_view(out@);
    match &w.last_error {
        Some(e) => {
            let mut l = "Last error:    ".to_owned();
            l.append(e.as_str());
            push_line(&mut out, l);
        },
        None => {},
    }
    let dl = daemon_line(daemon);
    push_line(&mut out, dl);
    assert(lines_view(out@) =~= watch_status_text(*w, *daemon));
    out
}

} // verus!
