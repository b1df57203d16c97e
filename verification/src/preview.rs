//! The dry-run views of organize and clean plans, as the lines a terminal
//! shows: what would move, be trashed or be skipped, and why.
use vstd::prelude::*;
use crate::domain::{Action, Op};
use crate::path::{
    parent_path,
    path_parent,
    file_name,
    path_file_name,
    paths_equal,
    same_path,
    chars_compare_pub,
    chars_order,
    lemma_chars_order,
    lemma_chars_order_trans,
    Order3,
};
use crate::render::{
    filter_op,
    dir_header,
    dir_header_spec,
    is_traversal_boundary,
    colorize,
    colorize_spec,
    dec_text,
    dir_like_reason,
    display_rel,
    display_rel_spec,
    duplicate_collision_spec,
    is_duplicate_collision_reason,
    lines_view,
    plural,
    plural_spec,
    push_line,
    push_str,
    with_dir_suffix,
    y_ies,
    y_ies_text,
};
use crate::text::{chars_of, dec, str_eq};

verus! {

// ------------------------------------------------------------- columns

/// Bytes that `c` takes in UTF-8.
pub open spec fn utf8_width(c: char) -> nat {
    if (c as u32) < 0x80 {
        1
    } else if (c as u32) < 0x800 {
        2
    } else if (c as u32) < 0x10000 {
        3
    } else {
        4
    }
}

/// `str::len`: the length of the text in UTF-8 bytes.
pub open spec fn byte_len(s: Seq<char>) -> nat
    decreases s.len(),
{
    if s.len() == 0 {
        0
    } else {
        byte_len(s.drop_last()) + utf8_width(s.last())
    }
}

pub open spec fn spaces(n: nat) -> Seq<char> {
    Seq::new(n, |_i: int| ' ')
}

/// `{:<w$}`: left-aligned in a field of `w` characters.
pub open spec fn pad_right(s: Seq<char>, w: nat) -> Seq<char> {
    if s.len() < w {
        s + spaces((w - s.len()) as nat)
    } else {
        s
    }
}

/// `{:>w$}`: right-aligned in a field of `w` characters.
pub open spec fn pad_left(s: Seq<char>, w: nat) -> Seq<char> {
    if s.len() < w {
        spaces((w - s.len()) as nat) + s
    } else {
        s
    }
}

/// The widest of `names`, in bytes (0 when there are none).
pub open spec fn max_byte_len(names: Seq<Seq<char>>) -> nat
    decreases names.len(),
{
    if names.len() == 0 {
        0
    } else {
        let m = max_byte_len(names.drop_last());
        let b = byte_len(names.last());
        if b > m {
            b
        } else {
            m
        }
    }
}

fn char_width(c: char) -> (r: u128)
    ensures
        r == utf8_width(c),
{
    let u = c as u32;
    if u < 0x80 {
        1
    } else if u < 0x800 {
        2
    } else if u < 0x10000 {
        3
    } else {
        4
    }
}

/// The UTF-8 length of `s`.
pub fn text_byte_len(s: &str) -> (r: u128)
    ensures
        r == byte_len(s@),
        r <= 4 * (usize::MAX as u128),
{
    let v = chars_of(s);
    let mut n: u128 = 0;
    let mut i: usize = 0;
    while i < v.len()
        invariant
            i <= v@.len(),
            v@ == s@,
            n == byte_len(v@.subrange(0, i as int)),
            n <= 4 * i,
        decreases v@.len() - i,
    {
        assert(v@.subrange(0, i + 1).drop_last() =~= v@.subrange(0, i as int));
        n = n + char_width(v[i]);
        i += 1;
    }
    assert(v@.subrange(0, v@.len() as int) =~= v@);
    n
}

fn push_spaces(out: &mut String, n: u128)
    ensures
        final(out)@ == old(out)@ + spaces(n as nat),
{
    let mut k: u128 = 0;
    while k < n
        invariant
            k <= n,
            out@ == old(out)@ + spaces(k as nat),
        decreases n - k,
    {
        out.push(' ');
        assert(old(out)@ + spaces((k + 1) as nat) =~= (old(out)@ + spaces(k as nat)).push(' '));
        k += 1;
    }
}

/// `s` left-aligned in a field of `w` characters.
pub fn pad_right_text(s: &str, w: u128) -> (r: String)
    ensures
        r@ == pad_right(s@, w as nat),
{
    let n = chars_of(s).len();
    let mut out = s.to_owned();
    if (n as u128) < w {
        push_spaces(&mut out, w - n as u128);
    }
    out
}

/// `s` right-aligned in a field of `w` characters.
pub fn pad_left_text(s: &str, w: u128) -> (r: String)
    ensures
        r@ == pad_left(s@, w as nat),
{
    let n = chars_of(s).len();
    let mut out = String::new();
    if (n as u128) < w {
        push_spaces(&mut out, w - n as u128);
    }
    assert(out@ + s@ == pad_left(s@, w as nat));
    out.append(s);
    out
}

// ------------------------------------------------------------ sections

/// A source path as listings show it: relative to the plan's target.
pub open spec fn rel_src(a: Action, target: Seq<char>) -> Seq<char> {
    display_rel_spec(a.src@, target)
}

pub open spec fn rel_names(v: Seq<Action>, target: Seq<char>) -> Seq<Seq<char>> {
    v.map_values(|a: Action| rel_src(a, target))
}

pub open spec fn reason_or(a: Action, d: Seq<char>) -> Seq<char> {
    match a.reason {
        Some(r) => r@,
        None => d,
    }
}

/// The directory a move lands in, relative to the target.
pub open spec fn dest_dir_text(a: Action, target: Seq<char>) -> Seq<char> {
    match a.dst {
        Some(d) => match parent_path(d@) {
            Some(p) => display_rel_spec(p, target),
            None => ""@,
        },
        None => ""@,
    }
}

pub open spec fn move_line(a: Action, target: Seq<char>, w: nat) -> Seq<char> {
    "  "@ + pad_right(rel_src(a, target), w) + "  → "@ + dest_dir_text(a, target) + "/"@
}

/// The `Moves` table: one line per move, names padded to the widest.
pub open spec fn moves_section(moves: Seq<Action>, target: Seq<char>) -> Seq<Seq<char>> {
    if moves.len() == 0 {
        Seq::empty()
    } else {
        let w = max_byte_len(rel_names(moves, target));
        seq![""@, "Moves"@] + Seq::new(moves.len(), |i: int| move_line(moves[i], target, w))
    }
}

pub open spec fn trash_line(a: Action, target: Seq<char>, w: nat) -> Seq<char> {
    "  "@ + pad_right(rel_src(a, target), w) + "  "@ + reason_or(a, ""@)
}

/// A titled table of trash candidates with their reasons.
pub open spec fn trash_section(title: Seq<char>, trashes: Seq<Action>, target: Seq<char>) -> Seq<Seq<char>> {
    if trashes.len() == 0 {
        Seq::empty()
    } else {
        let w = max_byte_len(rel_names(trashes, target));
        seq![""@, title] + Seq::new(trashes.len(), |i: int| trash_line(trashes[i], target, w))
    }
}

pub open spec fn is_collision(a: Action) -> bool {
    match a.reason {
        Some(r) => duplicate_collision_spec(r@),
        None => false,
    }
}

pub open spec fn warning_lines(w: Seq<Action>, target: Seq<char>) -> Seq<Seq<char>>
    decreases w.len(),
{
    if w.len() == 0 {
        Seq::empty()
    } else {
        warning_lines(w.drop_last(), target) + seq![
            "  "@ + rel_src(w.last(), target),
            "    "@ + reason_or(w.last(), ""@),
        ]
    }
}

/// The always-shown block for actions that resolved a name collision on
/// their own (an identical duplicate trashed, or a renamed move).
pub open spec fn duplicate_warnings(actions: Seq<Action>, target: Seq<char>, color: bool) -> Seq<Seq<char>> {
    let w = actions.filter(|a: Action| is_collision(a));
    if w.len() == 0 {
        Seq::empty()
    } else {
        seq![
            ""@,
            colorize_spec("⚠"@, "33"@, color) + " Duplicate name"@ + plural_spec(w.len())
                + " handled automatically"@,
        ] + warning_lines(w, target)
    }
}

/// What a manual command prints instead of a plan for a project root.
pub open spec fn refusal(command: Seq<char>, path: Seq<char>) -> Seq<Seq<char>> {
    seq![
        ""@,
        "Refusing: "@ + path + " is itself a software project root."@,
        command + " never mutates a project root — run `sift doctor "@ + path
            + "` to inspect it safely."@,
    ]
}

fn rel_names_width(v: &Vec<Action>, target: &str) -> (r: u128)
    ensures
        r == max_byte_len(rel_names(v@, target@)),
        r <= 4 * (usize::MAX as u128),
{
    let ghost names = rel_names(v@, target@);
    let mut m: u128 = 0;
    let mut i: usize = 0;
    while i < v.len()
        invariant
            i <= v@.len(),
            names == rel_names(v@, target@),
            m == max_byte_len(names.subrange(0, i as int)),
            m <= 4 * (usize::MAX as u128),
        decreases v@.len() - i,
    {
        assert(names.subrange(0, i + 1).drop_last() =~= names.subrange(0, i as int));
        let rel = display_rel(v[i].src.as_str(), target);
        let b = text_byte_len(rel.as_str());
        if b > m {
            m = b;
        }
        i += 1;
    }
    assert(names.subrange(0, v@.len() as int) =~= names);
    m
}

fn add_moves_section(out: &mut Vec<String>, moves: &Vec<Action>, target: &str)
    ensures
        lines_view(final(out)@) == lines_view(old(out)@) + moves_section(moves@, target@),
{
    if moves.len() == 0 {
        assert(lines_view(out@) =~= lines_view(out@) + Seq::<Seq<char>>::empty());
        return;
    }
    let w = rel_names_width(moves, target);
    let ghost base = lines_view(out@);
    push_str(out, "");
    push_str(out, "Moves");
    let ghost spec_w = max_byte_len(rel_names(moves@, target@));
    let mut i: usize = 0;
    while i < moves.len()
        invariant
            i <= moves@.len(),
            w == spec_w,
            lines_view(out@) == base + seq![""@, "Moves"@] + Seq::new(
                i as nat,
                |k: int| move_line(moves@[k], target@, spec_w),
            ),
        decreases moves@.len() - i,
    {
        let a = &moves[i];
        let rel = display_rel(a.src.as_str(), target);
        let mut line = "  ".to_owned();
        let padded = pad_right_text(rel.as_str(), w);
        line.append(padded.as_str());
        line.append("  → ");
        match &a.dst {
            Some(d) => match path_parent(d.as_str()) {
                Some(p) => {
                    let dd = display_rel(p.as_str(), target);
                    line.append(dd.as_str());
                },
                None => {
                    line.append("");
                },
            },
            None => {
                line.append("");
            },
        }
        line.append("/");
        assert(line@ == move_line(moves@[i as int], target@, spec_w));
        push_line(out, line);
        assert(Seq::new((i + 1) as nat, |k: int| move_line(moves@[k], target@, spec_w))
            =~= Seq::new(i as nat, |k: int| move_line(moves@[k], target@, spec_w)).push(
            move_line(moves@[i as int], target@, spec_w),
        ));
        i += 1;
    }
    assert(Seq::new(moves@.len(), |k: int| move_line(moves@[k], target@, spec_w)) =~= Seq::new(
        i as nat,
        |k: int| move_line(moves@[k], target@, spec_w),
    ));
}

fn add_trash_section(out: &mut Vec<String>, title: &str, trashes: &Vec<Action>, target: &str)
    ensures
        lines_view(final(out)@) == lines_view(old(out)@) + trash_section(title@, trashes@, target@),
{
    if trashes.len() == 0 {
        assert(lines_view(out@) =~= lines_view(out@) + Seq::<Seq<char>>::empty());
        return;
    }
    let w = rel_names_width(trashes, target);
    let ghost base = lines_view(out@);
    push_str(out, "");
    push_str(out, title);
    let ghost spec_w = max_byte_len(rel_names(trashes@, target@));
    let mut i: usize = 0;
    while i < trashes.len()
        invariant
            i <= trashes@.len(),
            w == spec_w,
            lines_view(out@) == base + seq![""@, title@] + Seq::new(
                i as nat,
                |k: int| trash_line(trashes@[k], target@, spec_w),
            ),
        decreases trashes@.len() - i,
    {
        let a = &trashes[i];
        let rel = display_rel(a.src.as_str(), target);
        let mut line = "  ".to_owned();
        let padded = pad_right_text(rel.as_str(), w);
        line.append(padded.as_str());
        line.append("  ");
        match &a.reason {
            Some(r) => line.append(r.as_str()),
            None => line.append(""),
        }
        assert(line@ == trash_line(trashes@[i as int], target@, spec_w));
        push_line(out, line);
        assert(Seq::new((i + 1) as nat, |k: int| trash_line(trashes@[k], target@, spec_w))
            =~= Seq::new(i as nat, |k: int| trash_line(trashes@[k], target@, spec_w)).push(
            trash_line(trashes@[i as int], target@, spec_w),
        ));
        i += 1;
    }
    assert(Seq::new(trashes@.len(), |k: int| trash_line(trashes@[k], target@, spec_w)) =~= Seq::new(
        i as nat,
        |k: int| trash_line(trashes@[k], target@, spec_w),
    ));
}

fn is_collision_action(a: &Action) -> (r: bool)
    ensures
        r == is_collision(*a),
{
    match &a.reason {
        Some(r) => is_duplicate_collision_reason(r.as_str()),
        None => false,
    }
}

fn add_duplicate_warnings(out: &mut Vec<String>, actions: &[Action], target: &str, color: bool)
    ensures
        lines_view(final(out)@) == lines_view(old(out)@) + duplicate_warnings(actions@, target@, color),
{
    let ghost w = actions@.filter(|a: Action| is_collision(a));
    let mut n: usize = 0;
    let mut body: Vec<String> = Vec::new();
    let mut i: usize = 0;
    assert(actions@.subrange(0, 0).filter(|a: Action| is_collision(a)) =~= Seq::<Action>::empty()) by {
        reveal(Seq::filter);
    }
    while i < actions.len()
        invariant
            i <= actions@.len(),
            w == actions@.filter(|a: Action| is_collision(a)),
            n == actions@.subrange(0, i as int).filter(|a: Action| is_collision(a)).len(),
            n <= i,
            lines_view(body@) == warning_lines(
                actions@.subrange(0, i as int).filter(|a: Action| is_collision(a)),
                target@,
            ),
        decreases actions@.len() - i,
    {
        let ghost pre = actions@.subrange(0, i as int).filter(|a: Action| is_collision(a));
        assert(actions@.subrange(0, i + 1) =~= actions@.subrange(0, i as int).push(actions@[i as int]));
        proof {
            actions@.subrange(0, i as int).lemma_filter_push(actions@[i as int], |a: Action| is_collision(a));
        }
        if is_collision_action(&actions[i]) {
            let a = &actions[i];
            let rel = display_rel(a.src.as_str(), target);
            let mut l1 = "  ".to_owned();
            l1.append(rel.as_str());
            let mut l2 = "    ".to_owned();
            match &a.reason {
                Some(r) => l2.append(r.as_str()),
                None => l2.append(""),
            }
            let ghost post = pre.push(actions@[i as int]);
            assert(post.drop_last() =~= pre);
            push_line(&mut body, l1);
            push_line(&mut body, l2);
            assert(lines_view(body@) =~= warning_lines(post, target@));
            n += 1;
        }
        i += 1;
    }
    assert(actions@.subrange(0, actions@.len() as int) =~= actions@);
    if n == 0 {
        assert(lines_view(out@) =~= lines_view(out@) + Seq::<Seq<char>>::empty());
        return;
    }
    let ghost base = lines_view(out@);
    push_str(out, "");
    let mut head = colorize("⚠", "33", color);
    head.append(" Duplicate name");
    head.append(plural(n));
    head.append(" handled automatically");
    push_line(out, head);
    let ghost mid = lines_view(out@);
    let mut j: usize = 0;
    while j < body.len()
        invariant
            j <= body@.len(),
            lines_view(out@) == mid + lines_view(body@).subrange(0, j as int),
        decreases body@.len() - j,
    {
        assert(lines_view(body@).subrange(0, j + 1) =~= lines_view(body@).subrange(0, j as int).push(
            body@[j as int]@,
        ));
        let l = body[j].clone();
        push_line(out, l);
        j += 1;
    }
    assert(lines_view(body@).subrange(0, body@.len() as int) =~= lines_view(body@));
    assert(lines_view(out@) =~= base + duplicate_warnings(actions@, target@, color));
}

fn add_refusal(out: &mut Vec<String>, command: &str, path: &str)
    ensures
        lines_view(final(out)@) == lines_view(old(out)@) + refusal(command@, path@),
{
    let ghost base = lines_view(out@);
    push_str(out, "");
    let mut l1 = "Refusing: ".to_owned();
    l1.append(path);
    l1.append(" is itself a software project root.");
    push_line(out, l1);
    let mut l2 = command.to_owned();
    l2.append(" never mutates a project root — run `sift doctor ");
    l2.append(path);
    l2.append("` to inspect it safely.");
    push_line(out, l2);
    assert(lines_view(out@) =~= base + refusal(command@, path@));
}

// ------------------------------------------------------ reason tallies

/// How many times `r` occurs in `rs`.
pub open spec fn tally(rs: Seq<Seq<char>>, r: Seq<char>) -> nat
    decreases rs.len(),
{
    if rs.len() == 0 {
        0
    } else {
        tally(rs.drop_last(), r) + if rs.last() == r {
            1nat
        } else {
            0nat
        }
    }
}

/// The listing order of `(reason, count)` rows: higher counts first,
/// equal counts by reason.
pub open spec fn ranks_before(x: (Seq<char>, nat), y: (Seq<char>, nat)) -> bool {
    x.1 > y.1 || (x.1 == y.1 && chars_order(x.0, y.0) == Order3::Less)
}

pub open spec fn ranked(g: Seq<(Seq<char>, nat)>) -> bool {
    forall|i: int, j: int| 0 <= i < j < g.len() ==> #[trigger] ranks_before(g[i], g[j])
}

/// `g` lists each distinct reason of `rs` once with its count, in
/// listing order.
pub open spec fn is_reason_tally(rs: Seq<Seq<char>>, g: Seq<(Seq<char>, nat)>) -> bool {
    &&& forall|i: int| 0 <= i < g.len() ==> rs.contains(#[trigger] g[i].0) && g[i].1 == tally(rs, g[i].0)
    &&& forall|k: int| #![trigger rs[k]] 0 <= k < rs.len() ==> exists|i: int| #![trigger g[i]] 0 <= i < g.len() && g[i].0 == rs[k]
    &&& ranked(g)
}

/// The reasons of `rs` with their counts, in listing order (there is
/// exactly one such list: `lemma_reason_tally_unique`).
pub open spec fn reason_tally(rs: Seq<Seq<char>>) -> Seq<(Seq<char>, nat)> {
    choose|g: Seq<(Seq<char>, nat)>| is_reason_tally(rs, g)
}

proof fn lemma_ranks_irreflexive(x: (Seq<char>, nat))
    ensures
        !ranks_before(x, x),
{
    lemma_chars_order(x.0, x.0);
}

proof fn lemma_ranks_asymmetric(x: (Seq<char>, nat), y: (Seq<char>, nat))
    ensures
        !(ranks_before(x, y) && ranks_before(y, x)),
{
    lemma_chars_order(x.0, y.0);
}

proof fn lemma_ranks_total(x: (Seq<char>, nat), y: (Seq<char>, nat))
    requires
        x.0 != y.0,
    ensures
        ranks_before(x, y) || ranks_before(y, x),
{
    lemma_chars_order(x.0, y.0);
    lemma_chars_order(y.0, x.0);
}

proof fn lemma_ranks_transitive(x: (Seq<char>, nat), y: (Seq<char>, nat), z: (Seq<char>, nat))
    requires
        ranks_before(x, y),
        ranks_before(y, z),
    ensures
        ranks_before(x, z),
{
    if x.1 == y.1 && y.1 == z.1 {
        lemma_chars_order_trans(x.0, y.0, z.0);
    }
}

proof fn lemma_ranked_unique(g1: Seq<(Seq<char>, nat)>, g2: Seq<(Seq<char>, nat)>)
    requires
        ranked(g1),
        ranked(g2),
        forall|i: int| 0 <= i < g1.len() ==> g2.contains(#[trigger] g1[i]),
        forall|j: int| 0 <= j < g2.len() ==> g1.contains(#[trigger] g2[j]),
    ensures
        g1 == g2,
    decreases g1.len(),
{
    if g1.len() == 0 {
        if g2.len() > 0 {
            assert(g1.contains(g2[0]));
        }
        assert(g1 =~= g2);
    } else if g2.len() == 0 {
        assert(g2.contains(g1[0]));
    } else {
        assert(g2.contains(g1[0]));
        assert(g1.contains(g2[0]));
        let j = choose|j: int| 0 <= j < g2.len() && g2[j] == g1[0];
        let k = choose|k: int| 0 <= k < g1.len() && g1[k] == g2[0];
        if j > 0 {
            assert(ranks_before(g2[0], g2[j]));
            if k > 0 {
                assert(ranks_before(g1[0], g1[k]));
                lemma_ranks_asymmetric(g1[0], g2[0]);
            } else {
                lemma_ranks_irreflexive(g1[0]);
            }
        }
        assert(g1[0] == g2[0]);
        let r1 = g1.drop_first();
        let r2 = g2.drop_first();
        assert forall|i: int| 0 <= i < r1.len() implies r2.contains(#[trigger] r1[i]) by {
            assert(g1[i + 1] == r1[i]);
            assert(g2.contains(g1[i + 1]));
            let m = choose|m: int| 0 <= m < g2.len() && g2[m] == g1[i + 1];
            assert(ranks_before(g1[0], g1[i + 1]));
            lemma_ranks_irreflexive(g1[0]);
            assert(m != 0);
            assert(r2[m - 1] == r1[i]);
        }
        assert forall|i: int| 0 <= i < r2.len() implies r1.contains(#[trigger] r2[i]) by {
            assert(g2[i + 1] == r2[i]);
            assert(g1.contains(g2[i + 1]));
            let m = choose|m: int| 0 <= m < g1.len() && g1[m] == g2[i + 1];
            assert(ranks_before(g2[0], g2[i + 1]));
            lemma_ranks_irreflexive(g2[0]);
            assert(m != 0);
            assert(r1[m - 1] == r2[i]);
        }
        assert forall|a: int, b: int| 0 <= a < b < r1.len() implies #[trigger] ranks_before(r1[a], r1[b]) by {
            assert(ranks_before(g1[a + 1], g1[b + 1]));
        }
        assert forall|a: int, b: int| 0 <= a < b < r2.len() implies #[trigger] ranks_before(r2[a], r2[b]) by {
            assert(ranks_before(g2[a + 1], g2[b + 1]));
        }
        lemma_ranked_unique(r1, r2);
        assert(g1 =~= seq![g1[0]] + r1);
        assert(g2 =~= seq![g2[0]] + r2);
    }
}

/// The reason tally of a list of reasons is unique.
pub proof fn lemma_reason_tally_unique(rs: Seq<Seq<char>>, g1: Seq<(Seq<char>, nat)>, g2: Seq<(Seq<char>, nat)>)
    requires
        is_reason_tally(rs, g1),
        is_reason_tally(rs, g2),
    ensures
        g1 == g2,
{
    assert forall|i: int| 0 <= i < g1.len() implies g2.contains(#[trigger] g1[i]) by {
        let k = choose|k: int| 0 <= k < rs.len() && rs[k] == g1[i].0;
        let j = choose|j: int| 0 <= j < g2.len() && g2[j].0 == rs[k];
        assert(g2[j] == g1[i]);
    }
    assert forall|i: int| 0 <= i < g2.len() implies g1.contains(#[trigger] g2[i]) by {
        let k = choose|k: int| 0 <= k < rs.len() && rs[k] == g2[i].0;
        let j = choose|j: int| 0 <= j < g1.len() && g1[j].0 == rs[k];
        assert(g1[j] == g2[i]);
    }
    lemma_ranked_unique(g1, g2);
}

pub open spec fn tally_view(v: Seq<(String, usize)>) -> Seq<(Seq<char>, nat)> {
    v.map_values(|e: (String, usize)| (e.0@, e.1 as nat))
}

/// The distinct reasons in `rs`, each with its count, in first-seen order.
fn first_seen_tally(rs: &Vec<String>) -> (r: Vec<(String, usize)>)
    ensures
        forall|i: int, j: int| 0 <= i < j < r@.len() ==> r@[i].0@ != r@[j].0@,
        forall|i: int| 0 <= i < r@.len() ==> crate::path::strings_view(rs@).contains(#[trigger] r@[i].0@)
            && r@[i].1 == tally(crate::path::strings_view(rs@), r@[i].0@),
        forall|k: int| #![trigger rs@[k]] 0 <= k < rs@.len() ==> exists|i: int| #![trigger r@[i]] 0 <= i < r@.len() && r@[i].0@ == rs@[k]@,
{
    let ghost sv = crate::path::strings_view(rs@);
    let mut t: Vec<(String, usize)> = Vec::new();
    let mut i: usize = 0;
    while i < rs.len()
        invariant
            i <= rs@.len(),
            sv == crate::path::strings_view(rs@),
            forall|a: int, b: int| 0 <= a < b < t@.len() ==> t@[a].0@ != t@[b].0@,
            forall|a: int| 0 <= a < t@.len() ==> sv.subrange(0, i as int).contains(#[trigger] t@[a].0@)
                && t@[a].1 == tally(sv.subrange(0, i as int), t@[a].0@) && t@[a].1 <= i,
            forall|k: int| #![trigger rs@[k]] 0 <= k < i ==> exists|a: int| #![trigger t@[a]] 0 <= a < t@.len() && t@[a].0@ == rs@[k]@,
        decreases rs@.len() - i,
    {
        let ghost pre = sv.subrange(0, i as int);
        let ghost post = sv.subrange(0, i + 1);
        assert(post.drop_last() =~= pre);
        assert(post.last() == rs@[i as int]@);
        let mut j: usize = 0;
        let mut found = false;
        while j < t.len()
            invariant
                i < rs@.len(),
                j <= t@.len(),
                !found ==> forall|a: int| 0 <= a < j ==> t@[a].0@ != rs@[i as int]@,
                found ==> j < t@.len() && t@[j as int].0@ == rs@[i as int]@,
            ensures
                found ==> j < t@.len() && t@[j as int].0@ == rs@[i as int]@,
                !found ==> forall|a: int| 0 <= a < t@.len() ==> t@[a].0@ != rs@[i as int]@,
            decreases t@.len() - j,
        {
            if str_eq(t[j].0.as_str(), rs[i].as_str()) {
                found = true;
                break;
            }
            j += 1;
        }
        let ghost old_t = t@;
        assert(!found ==> forall|a: int| 0 <= a < old_t.len() ==> old_t[a].0@ != rs@[i as int]@);
        assert forall|a: int| 0 <= a < old_t.len() && old_t[a].0@ != rs@[i as int]@ implies tally(
            post,
            old_t[a].0@,
        ) == tally(pre, old_t[a].0@) by {}
        assert forall|a: int| 0 <= a < old_t.len() implies post.contains(#[trigger] old_t[a].0@) by {
            let m = choose|m: int| 0 <= m < pre.len() && pre[m] == old_t[a].0@;
            assert(post[m] == pre[m]);
        }
        if found {
            let key = t[j].0.clone();
            let c = t[j].1 + 1;
            t.set(j, (key, c));
            assert(t@[j as int].0@ == old_t[j as int].0@);
            assert forall|a: int, b: int| 0 <= a < b < t@.len() implies t@[a].0@ != t@[b].0@ by {
                assert(t@[a].0@ == old_t[a].0@);
                assert(t@[b].0@ == old_t[b].0@);
            }
            assert forall|k: int| #![trigger rs@[k]] 0 <= k < i + 1 implies exists|a: int|
                #![trigger t@[a]] 0 <= a < t@.len() && t@[a].0@ == rs@[k]@ by {
                if k < i {
                    let a = choose|a: int| 0 <= a < old_t.len() && old_t[a].0@ == rs@[k]@;
                    assert(t@[a].0@ == rs@[k]@);
                } else {
                    assert(t@[j as int].0@ == rs@[k]@);
                }
            }
        } else {
            let key = rs[i].clone();
            t.push((key, 1));
            assert forall|a: int, b: int| 0 <= a < b < t@.len() implies t@[a].0@ != t@[b].0@ by {
                assert(t@[a] == old_t[a]);
                if b < old_t.len() {
                    assert(t@[b] == old_t[b]);
                }
            }
            assert(tally(pre, rs@[i as int]@) == 0) by {
                if tally(pre, rs@[i as int]@) > 0 {
                    lemma_tally_positive(pre, rs@[i as int]@);
                    let m = choose|m: int| 0 <= m < pre.len() && pre[m] == rs@[i as int]@;
                    assert(sv[m] == rs@[m]@);
                    assert(m < i);
                    assert(exists|a: int| #![trigger old_t[a]] 0 <= a < old_t.len() && old_t[a].0@ == rs@[m]@);
                    let a = choose|a: int| 0 <= a < old_t.len() && old_t[a].0@ == rs@[m]@;
                    assert(old_t[a].0@ == rs@[i as int]@);
                }
            }
            assert(post.contains(rs@[i as int]@)) by {
                assert(post[i as int] == rs@[i as int]@);
            }
            assert forall|k: int| #![trigger rs@[k]] 0 <= k < i + 1 implies exists|a: int|
                #![trigger t@[a]] 0 <= a < t@.len() && t@[a].0@ == rs@[k]@ by {
                if k < i {
                    let a = choose|a: int| 0 <= a < old_t.len() && old_t[a].0@ == rs@[k]@;
                    assert(t@[a].0@ == rs@[k]@);
                } else {
                    assert(t@[old_t.len() as int].0@ == rs@[k]@);
                }
            }
        }
        i += 1;
    }
    assert(sv.subrange(0, rs@.len() as int) =~= sv);
    t
}

proof fn lemma_tally_positive(rs: Seq<Seq<char>>, r: Seq<char>)
    requires
        tally(rs, r) > 0,
    ensures
        exists|m: int| 0 <= m < rs.len() && rs[m] == r,
    decreases rs.len(),
{
    if rs.last() == r {
        assert(rs[rs.len() - 1] == r);
    } else {
        lemma_tally_positive(rs.drop_last(), r);
        let m = choose|m: int| 0 <= m < rs.drop_last().len() && rs.drop_last()[m] == r;
        assert(rs[m] == r);
    }
}

proof fn lemma_insert_ranked(g: Seq<(Seq<char>, nat)>, p: int, x: (Seq<char>, nat))
    requires
        ranked(g),
        0 <= p <= g.len(),
        forall|a: int| 0 <= a < p ==> !ranks_before(x, #[trigger] g[a]),
        p < g.len() ==> ranks_before(x, g[p]),
        forall|a: int| 0 <= a < g.len() ==> (#[trigger] g[a]).0 != x.0,
    ensures
        ranked(g.insert(p, x)),
{
    let h = g.insert(p, x);
    assert forall|i: int, j: int| 0 <= i < j < h.len() implies #[trigger] ranks_before(h[i], h[j]) by {
        if j < p {
            assert(h[i] == g[i] && h[j] == g[j]);
        } else if j == p {
            assert(h[i] == g[i]);
            lemma_ranks_total(g[i], x);
        } else if i < p {
            assert(h[i] == g[i] && h[j] == g[j - 1]);
            assert(ranks_before(g[i], g[j - 1]));
        } else if i == p {
            assert(h[j] == g[j - 1]);
            if j - 1 > p {
                assert(ranks_before(g[p], g[j - 1]));
                lemma_ranks_transitive(x, g[p], g[j - 1]);
            }
        } else {
            assert(h[i] == g[i - 1] && h[j] == g[j - 1]);
            assert(ranks_before(g[i - 1], g[j - 1]));
        }
    }
}

fn ranks_before_exec(x: &(String, usize), y: &(String, usize)) -> (r: bool)
    ensures
        r == ranks_before((x.0@, x.1 as nat), (y.0@, y.1 as nat)),
{
    if x.1 > y.1 {
        true
    } else if x.1 == y.1 {
        let a = chars_of(x.0.as_str());
        let b = chars_of(y.0.as_str());
        chars_compare_pub(&a, &b) == Order3::Less
    } else {
        false
    }
}

/// The rows of `t` (distinct reasons) rearranged into listing order.
fn rank_tally(t: &Vec<(String, usize)>) -> (r: Vec<(String, usize)>)
    requires
        forall|i: int, j: int| 0 <= i < j < t@.len() ==> t@[i].0@ != t@[j].0@,
    ensures
        ranked(tally_view(r@)),
        forall|i: int| 0 <= i < r@.len() ==> tally_view(t@).contains(#[trigger] tally_view(r@)[i]),
        forall|i: int| 0 <= i < t@.len() ==> tally_view(r@).contains(#[trigger] tally_view(t@)[i]),
{
    let ghost tv = tally_view(t@);
    let mut out: Vec<(String, usize)> = Vec::new();
    let mut k: usize = 0;
    while k < t.len()
        invariant
            k <= t@.len(),
            tv == tally_view(t@),
            forall|i: int, j: int| 0 <= i < j < t@.len() ==> t@[i].0@ != t@[j].0@,
            ranked(tally_view(out@)),
            forall|i: int| #![trigger tally_view(out@)[i]] 0 <= i < out@.len() ==> exists|m: int|
                #![trigger tv[m]] 0 <= m < k && tv[m] == tally_view(out@)[i],
            forall|m: int| 0 <= m < k ==> tally_view(out@).contains(#[trigger] tv[m]),
        decreases t@.len() - k,
    {
        let x = (t[k].0.clone(), t[k].1);
        let ghost xv = (x.0@, x.1 as nat);
        assert(xv == tv[k as int]);
        let ghost g = tally_view(out@);
        let mut p: usize = 0;
        while p < out.len() && !ranks_before_exec(&x, &out[p])
            invariant
                p <= out@.len(),
                g == tally_view(out@),
                xv == (x.0@, x.1 as nat),
                forall|a: int| 0 <= a < p ==> !ranks_before(xv, #[trigger] g[a]),
            decreases out@.len() - p,
        {
            p += 1;
        }
        assert forall|a: int| 0 <= a < g.len() implies (#[trigger] g[a]).0 != xv.0 by {
            let m = choose|m: int| 0 <= m < k && tv[m] == g[a];
            assert(t@[m].0@ != t@[k as int].0@);
        }
        proof {
            lemma_insert_ranked(g, p as int, xv);
        }
        out.insert(p, x);
        assert(tally_view(out@) =~= g.insert(p as int, xv));
        assert forall|i: int| #![trigger tally_view(out@)[i]] 0 <= i < out@.len() implies exists|m: int|
            #![trigger tv[m]] 0 <= m < k + 1 && tv[m] == tally_view(out@)[i] by {
            if i < p {
                assert(tally_view(out@)[i] == g[i]);
                let m = choose|m: int| 0 <= m < k && tv[m] == g[i];
            } else if i == p {
                assert(tv[k as int] == tally_view(out@)[i]);
            } else {
                assert(tally_view(out@)[i] == g[i - 1]);
                let m = choose|m: int| 0 <= m < k && tv[m] == g[i - 1];
            }
        }
        assert forall|m: int| 0 <= m < k + 1 implies tally_view(out@).contains(#[trigger] tv[m]) by {
            if m < k {
                assert(g.contains(tv[m]));
                let i = choose|i: int| 0 <= i < g.len() && g[i] == tv[m];
                if i < p {
                    assert(tally_view(out@)[i] == tv[m]);
                } else {
                    assert(tally_view(out@)[i + 1] == tv[m]);
                }
            } else {
                assert(tally_view(out@)[p as int] == tv[m]);
            }
        }
        k += 1;
    }
    assert forall|i: int| 0 <= i < out@.len() implies tv.contains(#[trigger] tally_view(out@)[i]) by {
        let m = choose|m: int| 0 <= m < k && tv[m] == tally_view(out@)[i];
    }
    out
}

/// The reason each skip is listed under (`unspecified` when it has none).
pub open spec fn skip_reasons(v: Seq<Action>) -> Seq<Seq<char>> {
    v.map_values(|a: Action| reason_or(a, "unspecified"@))
}

/// The skipped entries' reasons with their counts, most frequent first
/// and equal counts by reason.
pub fn skip_reason_tally(skips: &Vec<Action>) -> (r: Vec<(String, usize)>)
    ensures
        tally_view(r@) == reason_tally(skip_reasons(skips@)),
{
    let mut rs: Vec<String> = Vec::new();
    let mut i: usize = 0;
    while i < skips.len()
        invariant
            i <= skips@.len(),
            crate::path::strings_view(rs@) == skip_reasons(skips@).subrange(0, i as int),
        decreases skips@.len() - i,
    {
        let r = match &skips[i].reason {
            Some(s) => s.clone(),
            None => "unspecified".to_owned(),
        };
        assert(r@ == reason_or(skips@[i as int], "unspecified"@));
        let ghost before = rs@;
        rs.push(r);
        assert(crate::path::strings_view(rs@) =~= crate::path::strings_view(before).push(r@));
        assert(crate::path::strings_view(rs@) =~= skip_reasons(skips@).subrange(0, i + 1));
        i += 1;
    }
    let ghost sr = skip_reasons(skips@);
    assert(sr.subrange(0, skips@.len() as int) =~= sr);
    let t = first_seen_tally(&rs);
    let r = rank_tally(&t);
    let ghost g = tally_view(r@);
    let ghost tv = tally_view(t@);
    assert forall|i: int| 0 <= i < g.len() implies sr.contains(#[trigger] g[i].0) && g[i].1 == tally(sr, g[i].0) by {
        assert(tv.contains(g[i]));
        let m = choose|m: int| 0 <= m < tv.len() && tv[m] == g[i];
        assert(tv[m] == (t@[m].0@, t@[m].1 as nat));
    }
    assert forall|k: int| #![trigger sr[k]] 0 <= k < sr.len() implies exists|i: int| #![trigger g[i]] 0 <= i < g.len() && g[i].0 == sr[k] by {
        assert(sr[k] == rs@[k]@);
        let a = choose|a: int| #![trigger t@[a]] 0 <= a < t@.len() && t@[a].0@ == rs@[k]@;
        assert(g.contains(tv[a]));
        let i = choose|i: int| 0 <= i < g.len() && g[i] == tv[a];
        assert(g[i].0 == sr[k]);
    }
    assert(is_reason_tally(sr, g));
    proof {
        lemma_reason_tally_unique(sr, g, reason_tally(sr));
    }
    r
}

// ------------------------------------------------------------- skipped

/// Above this many skipped entries a listing shows counts per reason
/// instead of one line per entry (unless asked to be verbose).
pub const SKIP_LIST_THRESHOLD: usize = 12;

/// A skipped entry's name, with a trailing `/` for directory reasons.
pub open spec fn skip_name(a: Action, target: Seq<char>) -> Seq<char> {
    if dir_like_reason(reason_or(a, ""@)) {
        rel_src(a, target) + "/"@
    } else {
        rel_src(a, target)
    }
}

pub open spec fn skip_line(a: Action, target: Seq<char>, w: nat) -> Seq<char> {
    "  "@ + pad_right(skip_name(a, target), w) + "  "@ + reason_or(a, ""@)
}

pub open spec fn tally_line(e: (Seq<char>, nat)) -> Seq<char> {
    "  "@ + pad_left(dec(e.1), 3) + "  "@ + e.0
}

/// The one-line-per-entry list of skips.
pub open spec fn skip_list(skips: Seq<Action>, target: Seq<char>) -> Seq<Seq<char>> {
    let w = max_byte_len(rel_names(skips, target));
    Seq::new(skips.len(), |i: int| skip_line(skips[i], target, w))
}

/// The `Skipped` section: every entry with its reason, or, past the
/// threshold and unless verbose, the count per reason.
pub open spec fn skip_section(skips: Seq<Action>, target: Seq<char>, verbose: bool) -> Seq<Seq<char>> {
    if skips.len() == 0 {
        Seq::empty()
    } else if verbose || skips.len() <= SKIP_LIST_THRESHOLD {
        seq![""@, "Skipped"@] + skip_list(skips, target)
    } else {
        let g = reason_tally(skip_reasons(skips));
        seq![""@, "Skipped ("@ + dec(skips.len()) + ")"@] + Seq::new(g.len(), |i: int| tally_line(g[i]))
            + seq!["  (run with --verbose to list them individually)"@]
    }
}

fn add_skip_list(out: &mut Vec<String>, skips: &Vec<Action>, target: &str)
    ensures
        lines_view(final(out)@) == lines_view(old(out)@) + skip_list(skips@, target@),
{
    let w = rel_names_width(skips, target);
    let ghost base = lines_view(out@);
    let ghost spec_w = max_byte_len(rel_names(skips@, target@));
    let mut i: usize = 0;
    while i < skips.len()
        invariant
            i <= skips@.len(),
            w == spec_w,
            lines_view(out@) == base + Seq::new(i as nat, |k: int| skip_line(skips@[k], target@, spec_w)),
        decreases skips@.len() - i,
    {
        let a = &skips[i];
        let rel = display_rel(a.src.as_str(), target);
        let reason: &str = match &a.reason {
            Some(r) => r.as_str(),
            None => "",
        };
        let name = with_dir_suffix(rel, reason);
        let mut line = "  ".to_owned();
        let padded = pad_right_text(name.as_str(), w);
        line.append(padded.as_str());
        line.append("  ");
        line.append(reason);
        assert(line@ == skip_line(skips@[i as int], target@, spec_w));
        push_line(out, line);
        assert(Seq::new((i + 1) as nat, |k: int| skip_line(skips@[k], target@, spec_w)) =~= Seq::new(
            i as nat,
            |k: int| skip_line(skips@[k], target@, spec_w),
        ).push(skip_line(skips@[i as int], target@, spec_w)));
        i += 1;
    }
    assert(Seq::new(skips@.len(), |k: int| skip_line(skips@[k], target@, spec_w)) =~= Seq::new(
        i as nat,
        |k: int| skip_line(skips@[k], target@, spec_w),
    ));
}

fn add_tally_lines(out: &mut Vec<String>, rows: &Vec<(String, usize)>)
    ensures
        lines_view(final(out)@) == lines_view(old(out)@) + Seq::new(
            tally_view(rows@).len(),
            |i: int| tally_line(tally_view(rows@)[i]),
        ),
{
    let ghost g = tally_view(rows@);
    let ghost base = lines_view(out@);
    let mut i: usize = 0;
    while i < rows.len()
        invariant
            i <= rows@.len(),
            g == tally_view(rows@),
            lines_view(out@) == base + Seq::new(i as nat, |k: int| tally_line(g[k])),
        decreases rows@.len() - i,
    {
        let d = dec_text(rows[i].1);
        let mut line = "  ".to_owned();
        let padded = pad_left_text(d.as_str(), 3);
        line.append(padded.as_str());
        line.append("  ");
        line.append(rows[i].0.as_str());
        assert(g[i as int] == (rows@[i as int].0@, rows@[i as int].1 as nat));
        assert(line@ == tally_line(g[i as int]));
        push_line(out, line);
        assert(Seq::new((i + 1) as nat, |k: int| tally_line(g[k])) =~= Seq::new(
            i as nat,
            |k: int| tally_line(g[k]),
        ).push(tally_line(g[i as int])));
        i += 1;
    }
    assert(Seq::new(g.len(), |k: int| tally_line(g[k])) =~= Seq::new(i as nat, |k: int| tally_line(g[k])));
}

fn add_skip_section(out: &mut Vec<String>, skips: &Vec<Action>, target: &str, verbose: bool)
    ensures
        lines_view(final(out)@) == lines_view(old(out)@) + skip_section(skips@, target@, verbose),
{
    let ghost base = lines_view(out@);
    if skips.len() == 0 {
        assert(lines_view(out@) =~= base + Seq::<Seq<char>>::empty());
        return;
    }
    if verbose || skips.len() <= SKIP_LIST_THRESHOLD {
        push_str(out, "");
        push_str(out, "Skipped");
        add_skip_list(out, skips, target);
        assert(lines_view(out@) =~= base + skip_section(skips@, target@, verbose));
    } else {
        let rows = skip_reason_tally(skips);
        push_str(out, "");
        let d = dec_text(skips.len());
        let mut head = "Skipped (".to_owned();
        head.append(d.as_str());
        head.append(")");
        push_line(out, head);
        add_tally_lines(out, &rows);
        push_str(out, "  (run with --verbose to list them individually)");
        assert(lines_view(out@) =~= base + skip_section(skips@, target@, verbose));
    }
}

// ----------------------------------------------------------- organize

pub open spec fn of_op(actions: Seq<Action>, op: Op) -> Seq<Action> {
    actions.filter(|a: Action| a.op == op)
}

/// `"  <n><noun>"`, one line of a plan summary.
pub open spec fn count_text(n: nat, noun: Seq<char>) -> Seq<char> {
    "  "@ + dec(n) + noun
}

pub open spec fn line_if(c: bool, l: Seq<char>) -> Seq<Seq<char>> {
    if c {
        seq![l]
    } else {
        Seq::empty()
    }
}

/// The `Plan` summary of an organize dry run.
pub open spec fn organize_counts(actions: Seq<Action>) -> Seq<Seq<char>> {
    let m = of_op(actions, Op::Move).len();
    let c = of_op(actions, Op::CreateDir).len();
    let t = of_op(actions, Op::Trash).len();
    let s = of_op(actions, Op::Skip).len();
    line_if(m > 0, count_text(m, " move"@ + plural_spec(m))) + line_if(
        c > 0,
        count_text(c, " director"@ + y_ies(c)),
    ) + line_if(t > 0, count_text(t, " trashed"@)) + line_if(s > 0, count_text(s, " skipped"@))
        + line_if(m == 0 && c == 0 && t == 0 && s == 0, "  nothing to do"@)
}

/// The tables of an organize dry run.
pub open spec fn organize_sections(actions: Seq<Action>, path: Seq<char>, verbose: bool, color: bool) -> Seq<Seq<char>> {
    moves_section(of_op(actions, Op::Move), path) + trash_section("Trash"@, of_op(actions, Op::Trash), path)
        + skip_section(of_op(actions, Op::Skip), path, verbose) + duplicate_warnings(actions, path, color)
}

pub open spec fn organize_closing(actions: Seq<Action>) -> Seq<Seq<char>> {
    seq![""@] + if of_op(actions, Op::Move).len() == 0 && of_op(actions, Op::Trash).len() == 0 {
        seq!["Nothing to do."@]
    } else {
        seq!["No changes made."@, "Run with --apply to execute."@]
    }
}

/// What `sift organize` shows without `--apply`.
pub open spec fn organize_dry_run_text(
    path: Seq<char>,
    actions: Seq<Action>,
    is_project_root: bool,
    verbose: bool,
    color: bool,
) -> Seq<Seq<char>> {
    seq!["Sift organize"@, path] + if is_project_root {
        refusal("organize"@, path)
    } else {
        organize_plan_text(path, actions, verbose, color)
    }
}

/// The plan part of an organize dry run: summary, tables, closing words.
pub open spec fn organize_plan_text(path: Seq<char>, actions: Seq<Action>, verbose: bool, color: bool) -> Seq<Seq<char>> {
    seq![""@, "Plan"@] + organize_counts(actions) + organize_sections(actions, path, verbose, color)
        + organize_closing(actions)
}

fn add_count(out: &mut Vec<String>, n: usize, noun: &str)
    ensures
        lines_view(final(out)@) == lines_view(old(out)@).push(count_text(n as nat, noun@)),
{
    let d = dec_text(n);
    let mut line = "  ".to_owned();
    line.append(d.as_str());
    line.append(noun);
    push_line(out, line);
}

fn add_organize_counts(out: &mut Vec<String>, m: usize, c: usize, t: usize, s: usize)
    ensures
        lines_view(final(out)@) == lines_view(old(out)@) + line_if(
            m > 0,
            count_text(m as nat, " move"@ + plural_spec(m as nat)),
        ) + line_if(c > 0, count_text(c as nat, " director"@ + y_ies(c as nat))) + line_if(
            t > 0,
            count_text(t as nat, " trashed"@),
        ) + line_if(s > 0, count_text(s as nat, " skipped"@)) + line_if(
            m == 0 && c == 0 && t == 0 && s == 0,
            "  nothing to do"@,
        ),
{
    let ghost base = lines_view(out@);
    let ghost l1 = line_if(m > 0, count_text(m as nat, " move"@ + plural_spec(m as nat)));
    let ghost l2 = line_if(c > 0, count_text(c as nat, " director"@ + y_ies(c as nat)));
    let ghost l3 = line_if(t > 0, count_text(t as nat, " trashed"@));
    let ghost l4 = line_if(s > 0, count_text(s as nat, " skipped"@));
    let ghost l5 = line_if(m == 0 && c == 0 && t == 0 && s == 0, "  nothing to do"@);
    if m > 0 {
        let noun = crate::text::concat(" move", plural(m));
        add_count(out, m, noun.as_str());
    }
    assert(lines_view(out@) =~= base + l1);
    if c > 0 {
        let noun = crate::text::concat(" director", y_ies_text(c));
        add_count(out, c, noun.as_str());
    }
    assert(lines_view(out@) =~= base + l1 + l2);
    if t > 0 {
        add_count(out, t, " trashed");
    }
    assert(lines_view(out@) =~= base + l1 + l2 + l3);
    if s > 0 {
        add_count(out, s, " skipped");
    }
    assert(lines_view(out@) =~= base + l1 + l2 + l3 + l4);
    if m == 0 && c == 0 && t == 0 && s == 0 {
        push_str(out, "  nothing to do");
    }
    assert(lines_view(out@) =~= base + l1 + l2 + l3 + l4 + l5);
}

fn add_organize_sections(out: &mut Vec<String>, actions: &[Action], path: &str, verbose: bool, color: bool)
    ensures
        lines_view(final(out)@) == lines_view(old(out)@) + organize_sections(actions@, path@, verbose, color),
{
    let ghost base = lines_view(out@);
    let moves = filter_op(actions, Op::Move);
    let trashes = filter_op(actions, Op::Trash);
    let skips = filter_op(actions, Op::Skip);
    add_moves_section(out, &moves, path);
    add_trash_section(out, "Trash", &trashes, path);
    add_skip_section(out, &skips, path, verbose);
    add_duplicate_warnings(out, actions, path, color);
    assert(lines_view(out@) =~= base + organize_sections(actions@, path@, verbose, color));
}

fn add_organize_closing(out: &mut Vec<String>, actions: &[Action])
    ensures
        lines_view(final(out)@) == lines_view(old(out)@) + organize_closing(actions@),
{
    let ghost base = lines_view(out@);
    let moves = filter_op(actions, Op::Move);
    let trashes = filter_op(actions, Op::Trash);
    push_str(out, "");
    if moves.len() == 0 && trashes.len() == 0 {
        push_str(out, "Nothing to do.");
    } else {
        push_str(out, "No changes made.");
        push_str(out, "Run with --apply to execute.");
    }
    assert(lines_view(out@) =~= base + organize_closing(actions@));
}

fn add_organize_summary(out: &mut Vec<String>, actions: &[Action])
    ensures
        lines_view(final(out)@) == lines_view(old(out)@) + seq![""@, "Plan"@] + organize_counts(actions@),
{
    let ghost base = lines_view(out@);
    let creates = filter_op(actions, Op::CreateDir);
    let moves = filter_op(actions, Op::Move);
    let trashes = filter_op(actions, Op::Trash);
    let skips = filter_op(actions, Op::Skip);
    push_str(out, "");
    push_str(out, "Plan");
    add_organize_counts(out, moves.len(), creates.len(), trashes.len(), skips.len());
    assert(lines_view(out@) =~= base + seq![""@, "Plan"@] + organize_counts(actions@));
}

fn add_organize_plan(out: &mut Vec<String>, path: &str, actions: &[Action], verbose: bool, color: bool)
    ensures
        lines_view(final(out)@) == lines_view(old(out)@) + organize_plan_text(path@, actions@, verbose, color),
{
    let ghost base = lines_view(out@);
    add_organize_summary(out, actions);
    let ghost a = lines_view(out@);
    add_organize_sections(out, actions, path, verbose, color);
    let ghost b = lines_view(out@);
    add_organize_closing(out, actions);
    assert(lines_view(out@) =~= base + organize_plan_text(path@, actions@, verbose, color));
}

/// The lines `sift organize` prints for a plan it has not applied.
pub fn organize_dry_run(path: &str, actions: &[Action], is_project_root: bool, verbose: bool, color: bool) -> (r: Vec<String>)
    ensures
        lines_view(r@) == organize_dry_run_text(path@, actions@, is_project_root, verbose, color),
{
    let mut out: Vec<String> = Vec::new();
    push_str(&mut out, "Sift organize");
    push_str(&mut out, path);
    let ghost head = lines_view(out@);
    assert(head =~= seq!["Sift organize"@, path@]);
    if is_project_root {
        add_refusal(&mut out, "organize", path);
    } else {
        add_organize_plan(&mut out, path, actions, verbose, color);
    }
    out
}

// -------------------------------------------------------------- clean

/// What `sift clean` shows without `--apply`.
pub open spec fn clean_dry_run_text(path: Seq<char>, actions: Seq<Action>, is_project_root: bool, verbose: bool) -> Seq<Seq<char>> {
    seq!["Sift clean"@, path] + if is_project_root {
        refusal("clean"@, path)
    } else {
        let trashes = of_op(actions, Op::Trash);
        let skips = of_op(actions, Op::Skip);
        if trashes.len() == 0 && skips.len() == 0 {
            seq![""@, "Nothing to do."@]
        } else {
            (if trashes.len() == 0 {
                seq![""@, "No trash candidates found."@]
            } else {
                trash_section("Trash candidates"@, trashes, path)
            }) + (if skips.len() > 0 {
                seq![""@, "Skipped"@] + if verbose {
                    skip_list(skips, path)
                } else {
                    seq![count_text(skips.len(), " other entr"@ + y_ies(skips.len()))]
                }
            } else {
                Seq::empty()
            }) + seq![""@, "No changes made."@] + line_if(
                trashes.len() > 0,
                "Run with --apply to send "@ + dec(trashes.len()) + " file"@ + plural_spec(trashes.len())
                    + " to Trash."@,
            )
        }
    }
}

/// The lines `sift clean` prints for a plan it has not applied.
pub fn clean_dry_run(path: &str, actions: &[Action], is_project_root: bool, verbose: bool) -> (r: Vec<String>)
    ensures
        lines_view(r@) == clean_dry_run_text(path@, actions@, is_project_root, verbose),
{
    let mut out: Vec<String> = Vec::new();
    push_str(&mut out, "Sift clean");
    push_str(&mut out, path);
    if is_project_root {
        add_refusal(&mut out, "clean", path);
        assert(lines_view(out@) =~= clean_dry_run_text(path@, actions@, is_project_root, verbose));
        return out;
    }
    let trashes = filter_op(actions, Op::Trash);
    let skips = filter_op(actions, Op::Skip);
    let ghost head = lines_view(out@);
    if trashes.len() == 0 && skips.len() == 0 {
        push_str(&mut out, "");
        push_str(&mut out, "Nothing to do.");
        assert(lines_view(out@) =~= clean_dry_run_text(path@, actions@, is_project_root, verbose));
        return out;
    }
    if trashes.len() == 0 {
        push_str(&mut out, "");
        push_str(&mut out, "No trash candidates found.");
    } else {
        add_trash_section(&mut out, "Trash candidates", &trashes, path);
    }
    let ghost mid = lines_view(out@);
    if skips.len() > 0 {
        push_str(&mut out, "");
        push_str(&mut out, "Skipped");
        if verbose {
            add_skip_list(&mut out, &skips, path);
        } else {
            let noun = crate::text::concat(" other entr", y_ies_text(skips.len()));
            add_count(&mut out, skips.len(), noun.as_str());
        }
    }
    let ghost mid2 = lines_view(out@);
    push_str(&mut out, "");
    push_str(&mut out, "No changes made.");
    if trashes.len() > 0 {
        let d = dec_text(trashes.len());
        let mut line = "Run with --apply to send ".to_owned();
        line.append(d.as_str());
        line.append(" file");
        line.append(plural(trashes.len()));
        line.append(" to Trash.");
        push_line(&mut out, line);
    }
    assert(lines_view(out@) =~= clean_dry_run_text(path@, actions@, is_project_root, verbose));
    out
}

// ---------------------------------------------------- recursive organize

/// The directory a source sits in (the target when it has none).
pub open spec fn src_dir(a: Action, target: Seq<char>) -> Seq<char> {
    match parent_path(a.src@) {
        Some(p) => p,
        None => target,
    }
}

pub open spec fn has_dir(keys: Seq<Seq<char>>, d: Seq<char>) -> bool {
    exists|i: int| 0 <= i < keys.len() && same_path(#[trigger] keys[i], d)
}

/// The directories the moves come from, each once (as first spelled), in
/// the order they first appear.
pub open spec fn dir_keys(moves: Seq<Action>, target: Seq<char>) -> Seq<Seq<char>>
    decreases moves.len(),
{
    if moves.len() == 0 {
        Seq::empty()
    } else {
        let k = dir_keys(moves.drop_last(), target);
        let d = src_dir(moves.last(), target);
        if has_dir(k, d) {
            k
        } else {
            k.push(d)
        }
    }
}

pub open spec fn in_dir(moves: Seq<Action>, target: Seq<char>, key: Seq<char>) -> Seq<Action> {
    moves.filter(|a: Action| same_path(src_dir(a, target), key))
}

pub open spec fn name_or_empty(p: Seq<char>) -> Seq<char> {
    match file_name(p) {
        Some(n) => n,
        None => ""@,
    }
}

/// The name of the folder a move lands in.
pub open spec fn dest_folder_name(a: Action) -> Seq<char> {
    match a.dst {
        Some(d) => match parent_path(d@) {
            Some(p) => name_or_empty(p),
            None => ""@,
        },
        None => ""@,
    }
}

pub open spec fn src_names(v: Seq<Action>) -> Seq<Seq<char>> {
    v.map_values(|a: Action| name_or_empty(a.src@))
}

pub open spec fn grouped_move_line(a: Action, w: nat) -> Seq<char> {
    "  "@ + pad_right(name_or_empty(a.src@), w) + "  → "@ + dest_folder_name(a) + "/"@
}

/// One directory's table in the recursive plan view.
pub open spec fn dir_group(key: Seq<char>, moves: Seq<Action>, target: Seq<char>) -> Seq<Seq<char>> {
    let m = in_dir(moves, target, key);
    let w = max_byte_len(src_names(m));
    seq![""@, dir_header_spec(key, target)] + Seq::new(m.len(), |i: int| grouped_move_line(m[i], w))
}

pub open spec fn dir_groups(keys: Seq<Seq<char>>, moves: Seq<Action>, target: Seq<char>) -> Seq<Seq<char>>
    decreases keys.len(),
{
    if keys.len() == 0 {
        Seq::empty()
    } else {
        dir_groups(keys.drop_last(), moves, target) + dir_group(keys.last(), moves, target)
    }
}

/// Moves grouped by the directory they were found in.
pub open spec fn moves_by_directory(moves: Seq<Action>, target: Seq<char>) -> Seq<Seq<char>> {
    dir_groups(dir_keys(moves, target), moves, target)
}

fn source_dir(a: &Action, target: &str) -> (r: String)
    ensures
        r@ == src_dir(*a, target@),
{
    match path_parent(a.src.as_str()) {
        Some(p) => p,
        None => target.to_owned(),
    }
}

fn directory_keys(moves: &Vec<Action>, target: &str) -> (r: Vec<String>)
    ensures
        crate::path::strings_view(r@) == dir_keys(moves@, target@),
{
    let mut keys: Vec<String> = Vec::new();
    let mut i: usize = 0;
    while i < moves.len()
        invariant
            i <= moves@.len(),
            crate::path::strings_view(keys@) == dir_keys(moves@.subrange(0, i as int), target@),
        decreases moves@.len() - i,
    {
        let ghost kv = crate::path::strings_view(keys@);
        assert(moves@.subrange(0, i + 1).drop_last() =~= moves@.subrange(0, i as int));
        let d = source_dir(&moves[i], target);
        let mut found = false;
        let mut j: usize = 0;
        while j < keys.len()
            invariant
                j <= keys@.len(),
                kv == crate::path::strings_view(keys@),
                found ==> has_dir(kv, d@),
                !found ==> forall|a: int| 0 <= a < j ==> !same_path(#[trigger] kv[a], d@),
            ensures
                found ==> has_dir(kv, d@),
                !found ==> forall|a: int| 0 <= a < keys@.len() ==> !same_path(#[trigger] kv[a], d@),
            decreases keys@.len() - j,
        {
            if paths_equal(keys[j].as_str(), d.as_str()) {
                assert(same_path(kv[j as int], d@));
                found = true;
                break;
            }
            j += 1;
        }
        if !found {
            keys.push(d);
            assert(crate::path::strings_view(keys@) =~= kv.push(d@));
        }
        i += 1;
    }
    assert(moves@.subrange(0, moves@.len() as int) =~= moves@);
    keys
}

fn members_in_dir(moves: &Vec<Action>, target: &str, key: &str) -> (r: Vec<Action>)
    ensures
        r@ == in_dir(moves@, target@, key@),
{
    let mut out: Vec<Action> = Vec::new();
    let mut i: usize = 0;
    assert(moves@.subrange(0, 0).filter(|a: Action| same_path(src_dir(a, target@), key@)) =~= Seq::<
        Action,
    >::empty()) by {
        reveal(Seq::filter);
    }
    while i < moves.len()
        invariant
            i <= moves@.len(),
            out@ == moves@.subrange(0, i as int).filter(|a: Action| same_path(src_dir(a, target@), key@)),
        decreases moves@.len() - i,
    {
        assert(moves@.subrange(0, i + 1) =~= moves@.subrange(0, i as int).push(moves@[i as int]));
        proof {
            moves@.subrange(0, i as int).lemma_filter_push(
                moves@[i as int],
                |a: Action| same_path(src_dir(a, target@), key@),
            );
        }
        let d = source_dir(&moves[i], target);
        if paths_equal(d.as_str(), key) {
            out.push(moves[i].clone());
        }
        i += 1;
    }
    assert(moves@.subrange(0, moves@.len() as int) =~= moves@);
    out
}

fn name_text(p: &str) -> (r: String)
    ensures
        r@ == name_or_empty(p@),
{
    match path_file_name(p) {
        Some(n) => n,
        None => "".to_owned(),
    }
}

fn src_names_width(v: &Vec<Action>) -> (r: u128)
    ensures
        r == max_byte_len(src_names(v@)),
{
    let ghost names = src_names(v@);
    let mut m: u128 = 0;
    let mut i: usize = 0;
    while i < v.len()
        invariant
            i <= v@.len(),
            names == src_names(v@),
            m == max_byte_len(names.subrange(0, i as int)),
        decreases v@.len() - i,
    {
        assert(names.subrange(0, i + 1).drop_last() =~= names.subrange(0, i as int));
        let n = name_text(v[i].src.as_str());
        let b = text_byte_len(n.as_str());
        if b > m {
            m = b;
        }
        i += 1;
    }
    assert(names.subrange(0, v@.len() as int) =~= names);
    m
}

fn add_dir_group(out: &mut Vec<String>, key: &str, moves: &Vec<Action>, target: &str)
    ensures
        lines_view(final(out)@) == lines_view(old(out)@) + dir_group(key@, moves@, target@),
{
    let m = members_in_dir(moves, target, key);
    let w = src_names_width(&m);
    let ghost base = lines_view(out@);
    push_str(out, "");
    let h = dir_header(key, target);
    push_line(out, h);
    let ghost spec_w = max_byte_len(src_names(m@));
    let mut i: usize = 0;
    while i < m.len()
        invariant
            i <= m@.len(),
            w == spec_w,
            lines_view(out@) == base + seq![""@, dir_header_spec(key@, target@)] + Seq::new(
                i as nat,
                |k: int| grouped_move_line(m@[k], spec_w),
            ),
        decreases m@.len() - i,
    {
        let a = &m[i];
        let fname = name_text(a.src.as_str());
        let mut line = "  ".to_owned();
        let padded = pad_right_text(fname.as_str(), w);
        line.append(padded.as_str());
        line.append("  → ");
        match &a.dst {
            Some(d) => match path_parent(d.as_str()) {
                Some(p) => {
                    let n = name_text(p.as_str());
                    line.append(n.as_str());
                },
                None => {
                    line.append("");
                },
            },
            None => {
                line.append("");
            },
        }
        line.append("/");
        assert(line@ == grouped_move_line(m@[i as int], spec_w));
        push_line(out, line);
        assert(Seq::new((i + 1) as nat, |k: int| grouped_move_line(m@[k], spec_w)) =~= Seq::new(
            i as nat,
            |k: int| grouped_move_line(m@[k], spec_w),
        ).push(grouped_move_line(m@[i as int], spec_w)));
        i += 1;
    }
    assert(Seq::new(m@.len(), |k: int| grouped_move_line(m@[k], spec_w)) =~= Seq::new(
        i as nat,
        |k: int| grouped_move_line(m@[k], spec_w),
    ));
}

fn add_moves_by_directory(out: &mut Vec<String>, moves: &Vec<Action>, target: &str)
    ensures
        lines_view(final(out)@) == lines_view(old(out)@) + moves_by_directory(moves@, target@),
{
    let keys = directory_keys(moves, target);
    let ghost kv = crate::path::strings_view(keys@);
    let ghost base = lines_view(out@);
    let mut i: usize = 0;
    while i < keys.len()
        invariant
            i <= keys@.len(),
            kv == crate::path::strings_view(keys@),
            kv == dir_keys(moves@, target@),
            lines_view(out@) == base + dir_groups(kv.subrange(0, i as int), moves@, target@),
        decreases keys@.len() - i,
    {
        assert(kv.subrange(0, i + 1).drop_last() =~= kv.subrange(0, i as int));
        add_dir_group(out, keys[i].as_str(), moves, target);
        assert(lines_view(out@) =~= base + dir_groups(kv.subrange(0, i + 1), moves@, target@));
        i += 1;
    }
    assert(kv.subrange(0, keys@.len() as int) =~= kv);
}

/// A skip where recursive traversal stopped (a protected directory, a
/// symlink, a project).
pub open spec fn is_boundary(a: Action) -> bool {
    match a.reason {
        Some(m) => crate::scanner::is_traversal_boundary_reason(m@),
        None => false,
    }
}

pub open spec fn boundary_skips(actions: Seq<Action>) -> Seq<Action> {
    actions.filter(|a: Action| a.op == Op::Skip && is_boundary(a))
}

pub open spec fn file_skips(actions: Seq<Action>) -> Seq<Action> {
    actions.filter(|a: Action| a.op == Op::Skip && !is_boundary(a))
}

pub open spec fn protected_line(a: Action, target: Seq<char>, w: nat) -> Seq<char> {
    "  "@ + pad_right(rel_src(a, target) + "/"@, w) + "  "@ + reason_or(a, ""@)
}

/// The directories where traversal stopped, with why.
pub open spec fn protected_section(dir_skips: Seq<Action>, target: Seq<char>) -> Seq<Seq<char>> {
    if dir_skips.len() == 0 {
        Seq::empty()
    } else {
        let w = max_byte_len(rel_names(dir_skips, target)) + 1;
        seq![""@, "Protected"@] + Seq::new(dir_skips.len(), |i: int| protected_line(dir_skips[i], target, w))
    }
}

pub open spec fn recursive_scan_lines(actions: Seq<Action>, dirs_scanned: nat) -> Seq<Seq<char>> {
    let d = boundary_skips(actions).len();
    let f = of_op(actions, Op::Move).len() + of_op(actions, Op::Trash).len() + file_skips(actions).len();
    seq![
        ""@,
        "Recursive scan"@,
        count_text(dirs_scanned, " director"@ + y_ies(dirs_scanned) + " scanned"@),
        count_text(d, " director"@ + y_ies(d) + " protected"@),
        count_text(f, " file"@ + plural_spec(f) + " inspected"@),
    ]
}

pub open spec fn recursive_counts(actions: Seq<Action>) -> Seq<Seq<char>> {
    let m = of_op(actions, Op::Move).len();
    let c = of_op(actions, Op::CreateDir).len();
    let t = of_op(actions, Op::Trash).len();
    let s = boundary_skips(actions).len() + file_skips(actions).len();
    seq![""@, "Plan"@] + line_if(m > 0, count_text(m, " move"@ + plural_spec(m))) + line_if(
        c > 0,
        count_text(c, " director"@ + y_ies(c) + " to create"@),
    ) + line_if(t > 0, count_text(t, " trashed"@)) + line_if(s > 0, count_text(s, " skipped"@))
}

pub open spec fn recursive_sections(actions: Seq<Action>, path: Seq<char>, verbose: bool, color: bool) -> Seq<Seq<char>> {
    moves_by_directory(of_op(actions, Op::Move), path) + trash_section("Trash"@, of_op(actions, Op::Trash), path)
        + skip_section(file_skips(actions), path, verbose) + protected_section(boundary_skips(actions), path)
        + duplicate_warnings(actions, path, color)
}

pub open spec fn recursive_closing(actions: Seq<Action>) -> Seq<Seq<char>> {
    let m = of_op(actions, Op::Move).len();
    seq![""@] + if m == 0 && of_op(actions, Op::Trash).len() == 0 {
        seq!["Nothing to do."@]
    } else {
        seq!["No changes made."@, "Run with --apply to execute "@ + dec(m) + " move"@ + plural_spec(m) + "."@]
    }
}

pub open spec fn recursive_plan_text(
    path: Seq<char>,
    actions: Seq<Action>,
    dirs_scanned: nat,
    verbose: bool,
    color: bool,
) -> Seq<Seq<char>> {
    recursive_scan_lines(actions, dirs_scanned) + recursive_counts(actions) + recursive_sections(
        actions,
        path,
        verbose,
        color,
    ) + recursive_closing(actions)
}

/// What `sift organize --recursive` shows without `--apply`.
pub open spec fn organize_dry_run_recursive_text(
    path: Seq<char>,
    actions: Seq<Action>,
    dirs_scanned: nat,
    is_project_root: bool,
    verbose: bool,
    color: bool,
) -> Seq<Seq<char>> {
    seq!["Sift organize"@, path] + if is_project_root {
        refusal("organize"@, path)
    } else {
        recursive_plan_text(path, actions, dirs_scanned, verbose, color)
    }
}

fn is_boundary_action(a: &Action) -> (r: bool)
    ensures
        r == is_boundary(*a),
{
    is_traversal_boundary(a)
}

/// The skips split by whether traversal stopped there.
fn split_skips(actions: &[Action]) -> (r: (Vec<Action>, Vec<Action>))
    ensures
        r.0@ == boundary_skips(actions@),
        r.1@ == file_skips(actions@),
{
    let mut dirs: Vec<Action> = Vec::new();
    let mut files: Vec<Action> = Vec::new();
    let mut i: usize = 0;
    assert(actions@.subrange(0, 0).filter(|a: Action| a.op == Op::Skip && is_boundary(a)) =~= Seq::<
        Action,
    >::empty()) by {
        reveal(Seq::filter);
    }
    assert(actions@.subrange(0, 0).filter(|a: Action| a.op == Op::Skip && !is_boundary(a)) =~= Seq::<
        Action,
    >::empty()) by {
        reveal(Seq::filter);
    }
    while i < actions.len()
        invariant
            i <= actions@.len(),
            dirs@ == actions@.subrange(0, i as int).filter(|a: Action| a.op == Op::Skip && is_boundary(a)),
            files@ == actions@.subrange(0, i as int).filter(|a: Action| a.op == Op::Skip && !is_boundary(a)),
        decreases actions@.len() - i,
    {
        assert(actions@.subrange(0, i + 1) =~= actions@.subrange(0, i as int).push(actions@[i as int]));
        proof {
            actions@.subrange(0, i as int).lemma_filter_push(
                actions@[i as int],
                |a: Action| a.op == Op::Skip && is_boundary(a),
            );
            actions@.subrange(0, i as int).lemma_filter_push(
                actions@[i as int],
                |a: Action| a.op == Op::Skip && !is_boundary(a),
            );
        }
        if actions[i].op == Op::Skip {
            if is_boundary_action(&actions[i]) {
                dirs.push(actions[i].clone());
            } else {
                files.push(actions[i].clone());
            }
        }
        i += 1;
    }
    assert(actions@.subrange(0, actions@.len() as int) =~= actions@);
    (dirs, files)
}

/// How many moves, directory creations, trashes, protected and other skips.
fn recursive_tallies(actions: &[Action]) -> (r: (usize, usize, usize, usize, usize))
    ensures
        r.0 == of_op(actions@, Op::Move).len(),
        r.1 == of_op(actions@, Op::CreateDir).len(),
        r.2 == of_op(actions@, Op::Trash).len(),
        r.3 == boundary_skips(actions@).len(),
        r.4 == file_skips(actions@).len(),
        r.0 + r.1 + r.2 + r.3 + r.4 <= actions@.len(),
        r.0 + r.1 + r.2 + r.3 + r.4 <= usize::MAX,
{
    // The slice's length bounds the sum of the counts.
    let _len = actions.len();
    let moves = filter_op(actions, Op::Move);
    let creates = filter_op(actions, Op::CreateDir);
    let trashes = filter_op(actions, Op::Trash);
    let (dirs, files) = split_skips(actions);
    proof {
        lemma_five_filters(actions@);
    }
    (moves.len(), creates.len(), trashes.len(), dirs.len(), files.len())
}

proof fn lemma_five_filters(s: Seq<Action>)
    ensures
        of_op(s, Op::Move).len() + of_op(s, Op::CreateDir).len() + of_op(s, Op::Trash).len()
            + boundary_skips(s).len() + file_skips(s).len() <= s.len(),
    decreases s.len(),
{
    if s.len() > 0 {
        let p = s.drop_last();
        lemma_five_filters(p);
        assert(s =~= p.push(s.last()));
        p.lemma_filter_push(s.last(), |a: Action| a.op == Op::Move);
        p.lemma_filter_push(s.last(), |a: Action| a.op == Op::CreateDir);
        p.lemma_filter_push(s.last(), |a: Action| a.op == Op::Trash);
        p.lemma_filter_push(s.last(), |a: Action| a.op == Op::Skip && is_boundary(a));
        p.lemma_filter_push(s.last(), |a: Action| a.op == Op::Skip && !is_boundary(a));
    } else {
        assert(of_op(s, Op::Move) =~= Seq::<Action>::empty()) by { reveal(Seq::filter); }
        assert(of_op(s, Op::CreateDir) =~= Seq::<Action>::empty()) by { reveal(Seq::filter); }
        assert(of_op(s, Op::Trash) =~= Seq::<Action>::empty()) by { reveal(Seq::filter); }
        assert(boundary_skips(s) =~= Seq::<Action>::empty()) by { reveal(Seq::filter); }
        assert(file_skips(s) =~= Seq::<Action>::empty()) by { reveal(Seq::filter); }
    }
}

fn add_protected_section(out: &mut Vec<String>, dir_skips: &Vec<Action>, target: &str)
    ensures
        lines_view(final(out)@) == lines_view(old(out)@) + protected_section(dir_skips@, target@),
{
    if dir_skips.len() == 0 {
        assert(lines_view(out@) =~= lines_view(out@) + Seq::<Seq<char>>::empty());
        return;
    }
    let w0 = rel_names_width(dir_skips, target);
    let w = w0 + 1;
    let ghost base = lines_view(out@);
    push_str(out, "");
    push_str(out, "Protected");
    let ghost spec_w = max_byte_len(rel_names(dir_skips@, target@)) + 1;
    let mut i: usize = 0;
    while i < dir_skips.len()
        invariant
            i <= dir_skips@.len(),
            w == spec_w,
            lines_view(out@) == base + seq![""@, "Protected"@] + Seq::new(
                i as nat,
                |k: int| protected_line(dir_skips@[k], target@, spec_w),
            ),
        decreases dir_skips@.len() - i,
    {
        let a = &dir_skips[i];
        let rel = display_rel(a.src.as_str(), target);
        let name = crate::text::concat(rel.as_str(), "/");
        let mut line = "  ".to_owned();
        let padded = pad_right_text(name.as_str(), w);
        line.append(padded.as_str());
        line.append("  ");
        match &a.reason {
            Some(r) => line.append(r.as_str()),
            None => line.append(""),
        }
        assert(line@ == protected_line(dir_skips@[i as int], target@, spec_w));
        push_line(out, line);
        assert(Seq::new((i + 1) as nat, |k: int| protected_line(dir_skips@[k], target@, spec_w))
            =~= Seq::new(i as nat, |k: int| protected_line(dir_skips@[k], target@, spec_w)).push(
            protected_line(dir_skips@[i as int], target@, spec_w),
        ));
        i += 1;
    }
    assert(Seq::new(dir_skips@.len(), |k: int| protected_line(dir_skips@[k], target@, spec_w))
        =~= Seq::new(i as nat, |k: int| protected_line(dir_skips@[k], target@, spec_w)));
}

fn add_recursive_scan_lines(out: &mut Vec<String>, actions: &[Action], dirs_scanned: usize)
    ensures
        lines_view(final(out)@) == lines_view(old(out)@) + recursive_scan_lines(actions@, dirs_scanned as nat),
{
    let ghost base = lines_view(out@);
    let (m, _c, t, d, f) = recursive_tallies(actions);
    let inspected = m + t + f;
    push_str(out, "");
    push_str(out, "Recursive scan");
    let n1 = crate::text::concat3(" director", y_ies_text(dirs_scanned), " scanned");
    add_count(out, dirs_scanned, n1.as_str());
    let n2 = crate::text::concat3(" director", y_ies_text(d), " protected");
    add_count(out, d, n2.as_str());
    let n3 = crate::text::concat3(" file", plural(inspected), " inspected");
    add_count(out, inspected, n3.as_str());
    assert(lines_view(out@) =~= base + recursive_scan_lines(actions@, dirs_scanned as nat));
}

fn add_recursive_counts(out: &mut Vec<String>, actions: &[Action])
    ensures
        lines_view(final(out)@) == lines_view(old(out)@) + recursive_counts(actions@),
{
    let ghost base = lines_view(out@);
    let (m, c, t, d, f) = recursive_tallies(actions);
    let s = d + f;
    push_str(out, "");
    push_str(out, "Plan");
    let ghost l0 = lines_view(out@);
    if m > 0 {
        let noun = crate::text::concat(" move", plural(m));
        add_count(out, m, noun.as_str());
    }
    let ghost l1 = lines_view(out@);
    if c > 0 {
        let noun = crate::text::concat3(" director", y_ies_text(c), " to create");
        add_count(out, c, noun.as_str());
    }
    let ghost l2 = lines_view(out@);
    if t > 0 {
        add_count(out, t, " trashed");
    }
    let ghost l3 = lines_view(out@);
    if s > 0 {
        add_count(out, s, " skipped");
    }
    assert(lines_view(out@) =~= base + recursive_counts(actions@));
}

fn add_recursive_sections(out: &mut Vec<String>, actions: &[Action], path: &str, verbose: bool, color: bool)
    ensures
        lines_view(final(out)@) == lines_view(old(out)@) + recursive_sections(actions@, path@, verbose, color),
{
    let ghost base = lines_view(out@);
    let moves = filter_op(actions, Op::Move);
    let trashes = filter_op(actions, Op::Trash);
    let (dirs, files) = split_skips(actions);
    add_moves_by_directory(out, &moves, path);
    add_trash_section(out, "Trash", &trashes, path);
    add_skip_section(out, &files, path, verbose);
    add_protected_section(out, &dirs, path);
    add_duplicate_warnings(out, actions, path, color);
    assert(lines_view(out@) =~= base + recursive_sections(actions@, path@, verbose, color));
}

fn add_recursive_closing(out: &mut Vec<String>, actions: &[Action])
    ensures
        lines_view(final(out)@) == lines_view(old(out)@) + recursive_closing(actions@),
{
    let ghost base = lines_view(out@);
    let moves = filter_op(actions, Op::Move);
    let trashes = filter_op(actions, Op::Trash);
    push_str(out, "");
    if moves.len() == 0 && trashes.len() == 0 {
        push_str(out, "Nothing to do.");
    } else {
        push_str(out, "No changes made.");
        let d = dec_text(moves.len());
        let mut line = "Run with --apply to execute ".to_owned();
        line.append(d.as_str());
        line.append(" move");
        line.append(plural(moves.len()));
        line.append(".");
        push_line(out, line);
    }
    assert(lines_view(out@) =~= base + recursive_closing(actions@));
}

fn add_recursive_plan(out: &mut Vec<String>, path: &str, actions: &[Action], dirs_scanned: usize, verbose: bool, color: bool)
    ensures
        lines_view(final(out)@) == lines_view(old(out)@) + recursive_plan_text(
            path@,
            actions@,
            dirs_scanned as nat,
            verbose,
            color,
        ),
{
    let ghost base = lines_view(out@);
    add_recursive_scan_lines(out, actions, dirs_scanned);
    let ghost a = lines_view(out@);
    add_recursive_counts(out, actions);
    let ghost b = lines_view(out@);
    add_recursive_sections(out, actions, path, verbose, color);
    let ghost c = lines_view(out@);
    add_recursive_closing(out, actions);
    assert(lines_view(out@) =~= base + recursive_plan_text(path@, actions@, dirs_scanned as nat, verbose, color));
}

/// The lines `sift organize --recursive` prints for a plan it has not
/// applied; `dirs_scanned` is how many directories the planner visited.
pub fn organize_dry_run_recursive(
    path: &str,
    actions: &[Action],
    dirs_scanned: usize,
    is_project_root: bool,
    verbose: bool,
    color: bool,
) -> (r: Vec<String>)
    ensures
        lines_view(r@) == organize_dry_run_recursive_text(
            path@,
            actions@,
            dirs_scanned as nat,
            is_project_root,
            verbose,
            color,
        ),
{
    let mut out: Vec<String> = Vec::new();
    push_str(&mut out, "Sift organize");
    push_str(&mut out, path);
    let ghost head = lines_view(out@);
    assert(head =~= seq!["Sift organize"@, path@]);
    if is_project_root {
        add_refusal(&mut out, "organize", path);
    } else {
        add_recursive_plan(&mut out, path, actions, dirs_scanned, verbose, color);
    }
    out
}

} // verus!
