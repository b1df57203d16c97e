//! The decisions of the opt-out, cached check for a newer release: when a
//! background refresh is due, how a refresh updates the cache, and which
//! notice (if any) a cached version warrants. Fetching, the cache file and
//! spawning the detached background process are the application's.
use vstd::prelude::*;
use crate::text::{chars_of, concat, is_ascii_digit};

verus! {

/// `s` without its leading `c`s (`str::trim_start_matches` for one char).
pub open spec fn strip_leading(s: Seq<char>, c: char) -> Seq<char>
    decreases s.len(),
{
    if s.len() > 0 && s[0] == c {
        strip_leading(s.drop_first(), c)
    } else {
        s
    }
}

/// The version a release tag names: the tag without its leading `v`s.
pub fn release_version(tag: &str) -> (r: String)
    ensures
        r@ == strip_leading(tag@, 'v'),
{
    let v = crate::text::chars_of(tag);
    let mut i: usize = 0;
    assert(v@.subrange(0, v@.len() as int) =~= v@);
    while i < v.len() && v[i] == 'v'
        invariant
            i <= v@.len(),
            v@ == tag@,
            strip_leading(tag@, 'v') == strip_leading(v@.subrange(i as int, v@.len() as int), 'v'),
        decreases v@.len() - i,
    {
        assert(v@.subrange(i as int, v@.len() as int).drop_first() =~= v@.subrange(i + 1, v@.len() as int));
        i += 1;
    }
    crate::text::string_of(&v, i, v.len())
}


/// How often the cache may be refreshed.
pub const CHECK_INTERVAL_SECS: u64 = 86400;

/// What the update check remembers between runs.
#[derive(Debug)]
pub struct Cache {
    pub last_checked_at: u64,
    /// The newest version seen (no leading `v`), kept across a failed
    /// refresh.
    pub latest_seen: Option<String>,
}

pub open spec fn strip_leading_v(s: Seq<char>) -> Seq<char>
    decreases s.len(),
{
    if s.len() > 0 && s[0] == 'v' {
        strip_leading_v(s.drop_first())
    } else {
        s
    }
}

pub open spec fn first_dot(s: Seq<char>) -> Option<int>
    decreases s.len(),
{
    if s.len() == 0 {
        None
    } else if s[0] == '.' {
        Some(0)
    } else {
        match first_dot(s.drop_first()) {
            Some(i) => Some(i + 1),
            None => None,
        }
    }
}

/// `str::splitn(n, '.')`: at most `n` parts, the last holding the rest.
pub open spec fn split_dots(s: Seq<char>, n: nat) -> Seq<Seq<char>>
    decreases n,
{
    if n <= 1 {
        seq![s]
    } else {
        match first_dot(s) {
            None => seq![s],
            Some(i) => if 0 <= i < s.len() {
                seq![s.subrange(0, i)] + split_dots(s.subrange(i + 1, s.len() as int), (n - 1) as nat)
            } else {
                seq![s]
            },
        }
    }
}

/// The leading ASCII digits of `s`.
pub open spec fn leading_digits(s: Seq<char>) -> Seq<char>
    decreases s.len(),
{
    if s.len() > 0 && is_ascii_digit(s[0]) {
        seq![s[0]] + leading_digits(s.drop_first())
    } else {
        Seq::empty()
    }
}

/// The decimal value of a digit string.
pub open spec fn digits_value(d: Seq<char>) -> nat
    decreases d.len(),
{
    if d.len() == 0 {
        0
    } else {
        digits_value(d.drop_last()) * 10 + ((d.last() as int - '0' as int) as nat)
    }
}

/// One version component: its leading digits as a number, or 0 when there
/// are none or they do not fit a `u64`.
pub open spec fn component_value(p: Seq<char>) -> u64 {
    let d = leading_digits(p);
    if d.len() == 0 || digits_value(d) > u64::MAX {
        0
    } else {
        digits_value(d) as u64
    }
}

pub open spec fn component_at(parts: Seq<Seq<char>>, i: int) -> u64 {
    if i < parts.len() {
        component_value(parts[i])
    } else {
        0
    }
}

/// `(major, minor, patch)` of a version text.
pub open spec fn semver_spec(v: Seq<char>) -> (u64, u64, u64) {
    let parts = split_dots(strip_leading_v(v), 3);
    (component_at(parts, 0), component_at(parts, 1), component_at(parts, 2))
}

/// Lexicographic order on version triples.
pub open spec fn semver_le(a: (u64, u64, u64), b: (u64, u64, u64)) -> bool {
    a.0 < b.0 || (a.0 == b.0 && (a.1 < b.1 || (a.1 == b.1 && a.2 <= b.2)))
}

/// Parses the leading digits of `v[from..to]` as one component.
fn component(v: &Vec<char>, from: usize, to: usize) -> (r: u64)
    requires
        from <= to <= v@.len(),
    ensures
        r == component_value(v@.subrange(from as int, to as int)),
{
    let ghost part = v@.subrange(from as int, to as int);
    let mut i: usize = from;
    let mut val: u64 = 0;
    let mut overflow = false;
    let ghost mut digits: Seq<char> = Seq::empty();
    proof {
        lemma_leading_split(part, 0);
    }
    while i < to && is_ascii_digit_exec(v[i])
        invariant
            from <= i <= to <= v@.len(),
            part == v@.subrange(from as int, to as int),
            digits == part.subrange(0, i - from),
            leading_digits(part) == digits + leading_digits(part.subrange(i - from, part.len() as int)),
            overflow ==> digits_value(digits) > u64::MAX,
            !overflow ==> val == digits_value(digits),
        decreases to - i,
    {
        let ghost rest = part.subrange(i - from, part.len() as int);
        assert(rest[0] == v@[i as int]);
        assert(rest.drop_first() =~= part.subrange(i - from + 1, part.len() as int));
        let d: u64 = (v[i] as u32 - '0' as u32) as u64;
        let ghost nd = digits.push(v@[i as int]);
        assert(nd.drop_last() =~= digits);
        assert(nd =~= part.subrange(0, i + 1 - from));
        assert(seq![rest[0]] + leading_digits(rest.drop_first()) =~= leading_digits(rest));
        assert(digits + leading_digits(rest) =~= nd + leading_digits(rest.drop_first()));
        if !overflow {
            if val > (u64::MAX - d) / 10 {
                overflow = true;
                assert(digits_value(nd) > u64::MAX) by (nonlinear_arith)
                    requires
                        digits_value(nd) == digits_value(digits) * 10 + d,
                        val == digits_value(digits),
                        val > (u64::MAX - d) / 10,
                        d <= 9,
                ;
            } else {
                assert(val * 10 + d <= u64::MAX) by (nonlinear_arith)
                    requires
                        val <= (u64::MAX - d) / 10,
                        d <= 9,
                ;
                val = val * 10 + d;
            }
        } else {
            assert(digits_value(nd) >= digits_value(digits)) by (nonlinear_arith)
                requires
                    digits_value(nd) == digits_value(digits) * 10 + d,
            ;
        }
        proof {
            digits = nd;
        }
        i += 1;
    }
    proof {
        let rest = part.subrange(i - from, part.len() as int);
        if rest.len() > 0 {
            assert(rest[0] == v@[i as int]);
        }
        assert(leading_digits(rest) =~= Seq::<char>::empty());
        assert(digits + Seq::<char>::empty() =~= digits);
    }
    if overflow || i == from {
        0
    } else {
        val
    }
}

proof fn lemma_leading_split(s: Seq<char>, k: int)
    requires
        k == 0,
    ensures
        leading_digits(s) == s.subrange(0, k) + leading_digits(s.subrange(k, s.len() as int)),
{
    assert(s.subrange(0, 0) + leading_digits(s.subrange(0, s.len() as int)) =~= leading_digits(s)) by {
        assert(s.subrange(0, s.len() as int) =~= s);
    }
}

fn is_ascii_digit_exec(c: char) -> (r: bool)
    ensures
        r == is_ascii_digit(c),
{
    '0' <= c && c <= '9'
}

pub open spec fn shift(o: Option<int>, d: int) -> Option<int> {
    match o {
        Some(j) => Some(j + d),
        None => None,
    }
}

/// The position of the first `.` at or after `from`.
fn find_dot(v: &Vec<char>, from: usize) -> (r: Option<usize>)
    requires
        from <= v@.len(),
    ensures
        match r {
            Some(k) => from <= k < v@.len() && first_dot(v@.subrange(from as int, v@.len() as int)) == Some(
                k - from,
            ),
            None => first_dot(v@.subrange(from as int, v@.len() as int)) is None,
        },
{
    let ghost whole = v@.subrange(from as int, v@.len() as int);
    let mut i: usize = from;
    while i < v.len()
        invariant
            from <= i <= v@.len(),
            whole == v@.subrange(from as int, v@.len() as int),
            first_dot(whole) == shift(first_dot(v@.subrange(i as int, v@.len() as int)), i - from),
        decreases v@.len() - i,
    {
        let ghost sub = v@.subrange(i as int, v@.len() as int);
        assert(sub[0] == v@[i as int]);
        assert(sub.drop_first() =~= v@.subrange(i + 1, v@.len() as int));
        if v[i] == '.' {
            return Some(i);
        }
        i += 1;
    }
    assert(v@.subrange(i as int, v@.len() as int).len() == 0);
    None
}

/// `(major, minor, patch)` of a version such as `"v1.2.3-beta.1"`, for a
/// numeric comparison: leading `v`s are ignored, as is anything past the
/// leading digits of each of the first three dot-separated components;
/// a missing or unreadable component is 0.
pub fn parse_semver(v: &str) -> (r: (u64, u64, u64))
    ensures
        r == semver_spec(v@),
{
    let cs = chars_of(v);
    let mut start: usize = 0;
    assert(cs@.subrange(0, cs@.len() as int) =~= cs@);
    while start < cs.len() && cs[start] == 'v'
        invariant
            start <= cs@.len(),
            strip_leading_v(cs@) == strip_leading_v(cs@.subrange(start as int, cs@.len() as int)),
        decreases cs@.len() - start,
    {
        assert(cs@.subrange(start as int, cs@.len() as int).drop_first() =~= cs@.subrange(start + 1, cs@.len() as int));
        start += 1;
    }
    let ghost s = cs@.subrange(start as int, cs@.len() as int);
    proof {
        if s.len() > 0 {
            assert(s[0] == cs@[start as int]);
        }
        assert(strip_leading_v(s) == s);
    }
    let ghost parts = split_dots(s, 3);
    let n = cs.len();
    match find_dot(&cs, start) {
        None => {
            assert(parts =~= seq![s]);
            (component(&cs, start, n), 0, 0)
        },
        Some(d1) => {
            let ghost s1 = cs@.subrange(d1 + 1, n as int);
            assert(s.subrange(0, d1 - start) =~= cs@.subrange(start as int, d1 as int));
            assert(s.subrange(d1 - start + 1, s.len() as int) =~= s1);
            assert(parts =~= seq![cs@.subrange(start as int, d1 as int)] + split_dots(s1, 2));
            let major = component(&cs, start, d1);
            match find_dot(&cs, d1 + 1) {
                None => {
                    assert(split_dots(s1, 2) =~= seq![s1]);
                    (major, component(&cs, d1 + 1, n), 0)
                },
                Some(d2) => {
                    let ghost s2 = cs@.subrange(d2 + 1, n as int);
                    assert(s1.subrange(0, d2 - d1 - 1) =~= cs@.subrange(d1 + 1, d2 as int));
                    assert(s1.subrange(d2 - d1, s1.len() as int) =~= s2);
                    assert(split_dots(s2, 1) == seq![s2]);
                    assert(split_dots(s1, 2) =~= seq![cs@.subrange(d1 + 1, d2 as int)] + seq![s2]);
                    (major, component(&cs, d1 + 1, d2), component(&cs, d2 + 1, n))
                },
            }
        },
    }
}

/// Whether the detached refresh should be started: never when opted out,
/// and at most once per `CHECK_INTERVAL_SECS`.
pub fn spawn_background_check_if_due(opted_out: bool, now: u64, last_checked_at: u64) -> (r: bool)
    ensures
        r == (!opted_out && (if now >= last_checked_at {
            now - last_checked_at
        } else {
            0
        }) >= CHECK_INTERVAL_SECS),
{
    if opted_out {
        return false;
    }
    let elapsed = if now >= last_checked_at {
        now - last_checked_at
    } else {
        0
    };
    elapsed >= CHECK_INTERVAL_SECS
}

/// The cache a refresh at `now` leaves: the fetched version when the fetch
/// succeeded, otherwise whatever was seen before.
pub fn refreshed_cache(previous: Cache, now: u64, fetched: Option<String>) -> (r: Cache)
    ensures
        r.last_checked_at == now,
        r.latest_seen == (match fetched {
            Some(v) => Some(v),
            None => previous.latest_seen,
        }),
{
    Cache {
        last_checked_at: now,
        latest_seen: match fetched {
            Some(v) => Some(v),
            None => previous.latest_seen,
        },
    }
}

pub open spec fn notice_text(current: Seq<char>, latest: Seq<char>) -> Seq<char> {
    "A new version of sift is available: v"@ + current + " -> v"@ + latest
        + ". Run ./install.sh again to update (see https://github.com/sergiocardoso/sift#installation), or set SIFT_NO_UPDATE_CHECK=1 to stop checking."@
}

/// The notice a cached version warrants: `None` without one, or when it is
/// not newer than the version running.
pub fn pending_notice(latest_seen: Option<String>, current_version: &str) -> (r: Option<String>)
    ensures
        r matches Some(m) ==> latest_seen matches Some(l) && m@ == notice_text(current_version@, l@),
        r is Some <==> (latest_seen matches Some(l) && !semver_le(semver_spec(l@), semver_spec(current_version@))),
{
    let latest = match latest_seen {
        Some(l) => l,
        None => {
            return None;
        },
    };
    let a = parse_semver(latest.as_str());
    let b = parse_semver(current_version);
    if a.0 < b.0 || (a.0 == b.0 && (a.1 < b.1 || (a.1 == b.1 && a.2 <= b.2))) {
        return None;
    }
    let p1 = concat("A new version of sift is available: v", current_version);
    let p2 = concat(p1.as_str(), " -> v");
    let p3 = concat(p2.as_str(), latest.as_str());
    let msg = concat(
        p3.as_str(),
        ". Run ./install.sh again to update (see https://github.com/sergiocardoso/sift#installation), or set SIFT_NO_UPDATE_CHECK=1 to stop checking.",
    );
    Some(msg)
}

} // verus!
