//! Small shared helpers: sensitive-name detection and the one UTC
//! calendar conversion every date in the crate goes through.
use vstd::prelude::*;
use crate::text::{contains_seq, lower_seq, str_contains, to_lower};

verus! {

pub open spec fn sensitive_fragments() -> Seq<Seq<char>> {
    seq!["token"@, "secret"@, "password"@, "key"@, "env"@, "credential"@]
}

/// Whether the lowercased name contains one of the sensitive fragments.
pub open spec fn spec_is_sensitive(name: Seq<char>) -> bool {
    exists|i: int|
        0 <= i < sensitive_fragments().len() && contains_seq(
            lower_seq(name),
            #[trigger] sensitive_fragments()[i],
        )
}

pub fn is_sensitive_filename(name: &str) -> (r: bool)
    ensures
        r == spec_is_sensitive(name@),
{
    let lower = to_lower(name);
    let frags = ["token", "secret", "password", "key", "env", "credential"];
    let mut i: usize = 0;
    while i < 6
        invariant
            i <= 6,
            lower@ == lower_seq(name@),
            frags@.len() == 6,
            forall|k: int| 0 <= k < 6 ==> #[trigger] frags@[k]@ == sensitive_fragments()[k],
            forall|k: int| 0 <= k < i ==> !contains_seq(lower@, #[trigger] sensitive_fragments()[k]),
        decreases 6 - i,
    {
        if str_contains(lower.as_str(), frags[i]) {
            return true;
        }
        i += 1;
    }
    false
}


/// A file name is sensitive exactly when, lowercased, it contains one of
/// `token`, `secret`, `password`, `key`, `env` or `credential`.
pub proof fn law_sensitive_names(name: Seq<char>)
    ensures
        spec_is_sensitive(name) <==> (contains_seq(lower_seq(name), "token"@) || contains_seq(
            lower_seq(name),
            "secret"@,
        ) || contains_seq(lower_seq(name), "password"@) || contains_seq(lower_seq(name), "key"@)
            || contains_seq(lower_seq(name), "env"@) || contains_seq(lower_seq(name), "credential"@)),
{
    let f = sensitive_fragments();
    assert(f[0] == "token"@);
    assert(f[1] == "secret"@);
    assert(f[2] == "password"@);
    assert(f[3] == "key"@);
    assert(f[4] == "env"@);
    assert(f[5] == "credential"@);
    if spec_is_sensitive(name) {
        let i = choose|i: int| 0 <= i < f.len() && contains_seq(lower_seq(name), #[trigger] f[i]);
        assert(i == 0 || i == 1 || i == 2 || i == 3 || i == 4 || i == 5);
    }
}

// ------------------------------------------------------------- calendar

/// The calendar date `civil_from_unix_secs` computes (Hinnant's
/// `civil_from_days`, for non-negative timestamps).
pub open spec fn civil_of(secs: int) -> (int, int, int) {
    let days = secs / 86400;
    let z = days + 719468;
    let era = z / 146097;
    let doe = z - era * 146097;
    let yoe = (doe - doe / 1460 + doe / 36524 - doe / 146096) / 365;
    let y = yoe + era * 400;
    let doy = doe - (365 * yoe + yoe / 4 - yoe / 100);
    let mp = (5 * doy + 2) / 153;
    let day = doy - (153 * mp + 2) / 5 + 1;
    let month = if mp < 10 {
        mp + 3
    } else {
        mp - 9
    };
    let year = if month <= 2 {
        y + 1
    } else {
        y
    };
    (year, month, day)
}

/// Division truncating toward zero, as Rust's `/` on signed integers.
pub open spec fn tdiv(a: int, b: int) -> int {
    if a >= 0 {
        a / b
    } else {
        -((-a) / b)
    }
}

/// The same computation for a timestamp before 1970, with Rust's
/// truncating division throughout (as the conversion does on such input).
pub open spec fn civil_trunc(secs: int) -> (int, int, int) {
    let days = tdiv(secs, 86400);
    let z = days + 719468;
    let era = tdiv(z, 146097);
    let doe = z - era * 146097;
    let yoe = tdiv(doe - tdiv(doe, 1460) + tdiv(doe, 36524) - tdiv(doe, 146096), 365);
    let y = yoe + era * 400;
    let doy = doe - (365 * yoe + tdiv(yoe, 4) - tdiv(yoe, 100));
    let mp = tdiv(5 * doy + 2, 153);
    let day = doy - tdiv(153 * mp + 2, 5) + 1;
    let month = if mp < 10 {
        mp + 3
    } else {
        mp - 9
    };
    let year = if month <= 2 {
        y + 1
    } else {
        y
    };
    (year, month, day)
}

/// A `u64` timestamp as the conversion reads it: cast to `i64`, so one
/// past `i64::MAX` wraps around to a negative number.
pub open spec fn wrapped_secs(secs: int) -> int {
    if secs <= i64::MAX {
        secs
    } else {
        secs - 18446744073709551616
    }
}

/// The calendar date of a timestamp as `civil_from_unix_secs` gives it,
/// before 1970 too.
pub open spec fn civil_any(s: int) -> (int, int, int) {
    if s >= 0 {
        civil_of(s)
    } else {
        let c = civil_trunc(s);
        (c.0, (c.1 as u32) as int, (c.2 as u32) as int)
    }
}

/// Converts a Unix timestamp (UTC) into `(year, month, day)`; exact for
/// non-negative input.
#[verifier::spinoff_prover]
#[verifier::rlimit(40)]
pub fn civil_from_unix_secs(secs: i64) -> (r: (i64, u32, u32))
    ensures
        secs >= 0 ==> (r.0 as int, r.1 as int, r.2 as int) == civil_of(secs as int),
        secs >= 0 ==> 1 <= r.1 <= 12 && 1 <= r.2 <= 31,
        secs < 0 ==> r.0 as int == civil_trunc(secs as int).0 && r.1 == civil_trunc(secs as int).1 as u32
            && r.2 == civil_trunc(secs as int).2 as u32,
        (r.0 as int, r.1 as int, r.2 as int) == civil_any(secs as int),
{
    if secs < 0 {
        let days = secs / 86400;
        let z = days + 719468;
        let era = z / 146097;
        let doe = z - era * 146097;
        let yoe = (doe - doe / 1460 + doe / 36524 - doe / 146096) / 365;
        let y = yoe + era * 400;
        let doy = doe - (365 * yoe + yoe / 4 - yoe / 100);
        let mp = (5 * doy + 2) / 153;
        let day = doy - (153 * mp + 2) / 5 + 1;
        let month = if mp < 10 {
            mp + 3
        } else {
            mp - 9
        };
        let year = if month <= 2 {
            y + 1
        } else {
            y
        };
        return (year, month as u32, day as u32);
    }
    let days = secs / 86400;
    let z = days + 719468;
    let era = z / 146097;
    let doe = z - era * 146097;
    assert(0 <= doe < 146097) by (nonlinear_arith)
        requires
            z >= 0,
            era == z / 146097,
            doe == z - era * 146097,
    ;
    let yoe = (doe - doe / 1460 + doe / 36524 - doe / 146096) / 365;
    assert(0 <= yoe <= 399) by (nonlinear_arith)
        requires
            0 <= doe < 146097,
            yoe == (doe - doe / 1460 + doe / 36524 - doe / 146096) / 365,
    ;
    let y = yoe + era * 400;
    let doy = doe - (365 * yoe + yoe / 4 - yoe / 100);
    assert(0 <= doy <= 365) by (nonlinear_arith)
        requires
            0 <= doe < 146097,
            yoe == (doe - doe / 1460 + doe / 36524 - doe / 146096) / 365,
            doy == doe - (365 * yoe + yoe / 4 - yoe / 100),
    ;
    let mp = (5 * doy + 2) / 153;
    let day = doy - (153 * mp + 2) / 5 + 1;
    assert(0 <= mp <= 11 && 1 <= day <= 31) by (nonlinear_arith)
        requires
            0 <= doy <= 365,
            mp == (5 * doy + 2) / 153,
            day == doy - (153 * mp + 2) / 5 + 1,
    ;
    let month = if mp < 10 {
        mp + 3
    } else {
        mp - 9
    };
    let year = if month <= 2 {
        y + 1
    } else {
        y
    };
    (year, month as u32, day as u32)
}

} // verus!
