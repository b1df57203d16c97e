//! The shape of an MP4/MOV box tree, as far as the container reader walks
//! it: which byte streams it can read to an end. A child box inside a
//! container must declare at least its own header and lie inside its
//! parent; a `data` box at least its fixed fields; and a top-level `emsg`
//! box's strings must fit in its declared size. A stream that breaks these
//! is refused before the reader sees it.
use vstd::prelude::*;

verus! {

pub const MOOV: u64 = 1836019574;
pub const MOOF: u64 = 1836019558;
pub const TRAK: u64 = 1953653099;
pub const MDIA: u64 = 1835297121;
pub const MINF: u64 = 1835626086;
pub const STBL: u64 = 1937007212;
pub const DINF: u64 = 1684631142;
pub const MVEX: u64 = 1836475768;
pub const UDTA: u64 = 1969517665;
pub const TRAF: u64 = 1953653094;
pub const META: u64 = 1835365473;
pub const ILST: u64 = 1768715124;
pub const DATA: u64 = 1684108385;
pub const EMSG: u64 = 1701671783;

/// The big-endian 32-bit number at `i`.
pub open spec fn be32(b: Seq<u8>, i: int) -> nat {
    (b[i] as nat) * 16777216 + (b[i + 1] as nat) * 65536 + (b[i + 2] as nat) * 256 + (b[i + 3] as nat)
}

/// The big-endian 64-bit number at `i`.
pub open spec fn be64(b: Seq<u8>, i: int) -> nat {
    be32(b, i) * 4294967296 + be32(b, i + 4)
}

/// A box whose children the reader walks one after another.
pub open spec fn is_container(ty: nat) -> bool {
    ty == MOOV || ty == MOOF || ty == TRAK || ty == MDIA || ty == MINF || ty == STBL || ty == DINF
        || ty == MVEX || ty == UDTA || ty == TRAF || ty == META || ty == ILST
}

/// The header length and total size of the child box at `h` of a parent
/// ending at `end`, when its header fits and declares at least itself.
pub open spec fn child_header(b: Seq<u8>, h: int, end: int) -> Option<(int, int)> {
    if h + 8 > end {
        None
    } else {
        let s = be32(b, h);
        if s == 1 {
            if h + 16 > end {
                None
            } else if be64(b, h + 8) < 16 {
                None
            } else {
                Some((16, be64(b, h + 8) as int))
            }
        } else if s < 8 {
            None
        } else {
            Some((8, s as int))
        }
    }
}

/// The children of a container between `pos` and `end` are sound; inside
/// an `ilst` every child is an item box, walked as a container too.
pub open spec fn children_ok(b: Seq<u8>, pos: int, end: int, in_ilst: bool) -> bool
    decreases end - pos, 1int,
{
    if pos >= end {
        true
    } else {
        match child_header(b, pos, end) {
            None => false,
            Some((hl, t)) => pos + t <= end && child_ok(b, pos, hl, t, in_ilst) && children_ok(
                b,
                pos + t,
                end,
                in_ilst,
            ),
        }
    }
}

/// Where a container's children begin: a `meta` box may start with four
/// zero bytes of version and flags.
pub open spec fn content_start(b: Seq<u8>, h: int, hl: int, t: int) -> int {
    if be32(b, h + 4) == META && hl + 4 <= t && be32(b, h + hl) == 0 {
        h + hl + 4
    } else {
        h + hl
    }
}

/// One child box (header length `hl`, total `t`) is sound.
pub open spec fn child_ok(b: Seq<u8>, h: int, hl: int, t: int, in_ilst: bool) -> bool
    decreases t, 0int,
{
    let ty = be32(b, h + 4);
    if hl < 8 || t < hl {
        false
    } else if ty == DATA {
        t >= 16
    } else if in_ilst || is_container(ty) {
        children_ok(b, content_start(b, h, hl, t), h + t, ty == ILST)
    } else {
        true
    }
}

/// The position of the first zero byte at or after `p`, if any.
pub open spec fn nul_index(b: Seq<u8>, p: int) -> Option<int>
    decreases b.len() - p,
{
    if p < 0 || p >= b.len() {
        None
    } else if b[p] == 0 {
        Some(p)
    } else {
        nul_index(b, p + 1)
    }
}

/// An `emsg` box (content from `c`, declared size `sz` as the reader
/// takes it) whose two strings run past its size: the reader reads them,
/// then takes the message length as `sz` minus what it read, which
/// underflows.
pub open spec fn emsg_overruns(b: Seq<u8>, c: int, sz: int) -> bool {
    if c + 4 > b.len() {
        false
    } else {
        let v = b[c];
        let (strings_at, fixed): (int, int) = if v == 0 {
            (c + 4, 12)
        } else {
            (c + 24, 16)
        };
        if v > 1 || (v == 1 && c + 24 > b.len()) {
            false
        } else {
            match nul_index(b, strings_at) {
                None => false,
                Some(n1) => match nul_index(b, n1 + 1) {
                    None => false,
                    Some(n2) => {
                        let read_ok = v == 1 || n2 + 1 + 16 <= b.len();
                        read_ok && sz < 8 + 4 + 4 + fixed + (n1 - strings_at + 1) + (n2 - (n1 + 1) + 1)
                    },
                },
            }
        }
    }
}

/// The top-level boxes from `pos` on are sound: the reader stops at a
/// zero size, a box larger than the stream or a truncated header; a
/// `moov` or `moof` has sound children; no `emsg` box's strings overrun its size.
pub open spec fn top_ok(b: Seq<u8>, pos: int) -> bool
    decreases b.len() - pos,
{
    if pos < 0 || pos + 8 > b.len() {
        true
    } else {
        let s = be32(b, pos);
        if s == 0 {
            true
        } else if s == 1 && (pos + 16 > b.len() || be64(b, pos + 8) < 16) {
            true
        } else {
            let hl: int = if s == 1 {
                16
            } else {
                8
            };
            let t: int = if s == 1 {
                be64(b, pos + 8) as int
            } else {
                s as int
            };
            if t <= 0 || t > b.len() {
                true
            } else {
                let ty = be32(b, pos + 4);
                let end = if pos + t <= b.len() {
                    pos + t
                } else {
                    b.len() as int
                };
                &&& !(ty == EMSG && emsg_overruns(b, pos + hl, if hl == 16 {
                    t - 8
                } else {
                    t
                }))
                &&& (ty == MOOV || ty == MOOF) && t >= hl ==> children_ok(b, pos + hl, end, false)
                &&& pos + t + 8 <= b.len() ==> top_ok(b, pos + t)
            }
        }
    }
}

/// The whole stream is one the container reader walks to an end.
pub open spec fn box_tree_ok(b: Seq<u8>) -> bool {
    top_ok(b, 0)
}

fn read_be32(b: &[u8], i: usize) -> (r: u64)
    requires
        i + 4 <= b@.len(),
    ensures
        r as nat == be32(b@, i as int),
        r < 4294967296,
{
    let r = (b[i] as u64) * 16777216 + (b[i + 1] as u64) * 65536 + (b[i + 2] as u64) * 256 + (b[i + 3] as u64);
    r
}

fn read_be64(b: &[u8], i: usize) -> (r: u64)
    requires
        i + 8 <= b@.len(),
    ensures
        r as nat == be64(b@, i as int),
{
    let _n = b.len();
    let hi = read_be32(b, i);
    let lo = read_be32(b, i + 4);
    assert(hi * 4294967296 + lo <= u64::MAX) by (nonlinear_arith)
        requires
            hi < 4294967296,
            lo < 4294967296,
    ;
    hi * 4294967296 + lo
}

fn header_of(b: &[u8], h: usize, end: usize) -> (r: Option<(usize, usize)>)
    requires
        end <= b@.len(),
    ensures
        match r {
            Some((hl, t)) => child_header(b@, h as int, end as int) == Some((hl as int, t as int)) && h + t
                <= end && (hl == 8 || hl == 16) && t >= hl,
            None => child_header(b@, h as int, end as int) is None || child_header(b@, h as int, end as int).unwrap().1 > end - h,
        },
{
    if h > end || end - h < 8 {
        return None;
    }
    let s = read_be32(b, h);
    if s == 1 {
        if end - h < 16 {
            return None;
        }
        let l = read_be64(b, h + 8);
        if l < 16 {
            return None;
        }
        if l > (end - h) as u64 {
            return None;
        }
        Some((16, l as usize))
    } else if s < 8 {
        None
    } else {
        if s > (end - h) as u64 {
            return None;
        }
        Some((8, s as usize))
    }
}

fn children_ok_exec(b: &[u8], pos: usize, end: usize, in_ilst: bool) -> (r: bool)
    requires
        pos <= end <= b@.len(),
    ensures
        r == children_ok(b@, pos as int, end as int, in_ilst),
    decreases end - pos, 1int,
{
    let _n = b.len();
    let mut p = pos;
    while p < end
        invariant
            pos <= p <= end <= b@.len(),
            children_ok(b@, pos as int, end as int, in_ilst) == children_ok(b@, p as int, end as int, in_ilst),
        decreases end - p,
    {
        match header_of(b, p, end) {
            None => {
                return false;
            },
            Some((hl, t)) => {
                if !child_ok_exec(b, p, hl, t, in_ilst) {
                    return false;
                }
                p = p + t;
            },
        }
    }
    true
}

fn child_ok_exec(b: &[u8], h: usize, hl: usize, t: usize, in_ilst: bool) -> (r: bool)
    requires
        h + t <= b@.len(),
        hl == 8 || hl == 16,
        t >= hl,
    ensures
        r == child_ok(b@, h as int, hl as int, t as int, in_ilst),
    decreases t, 0int,
{
    let _n = b.len();
    let ty = read_be32(b, h + 4);
    if ty == DATA {
        t >= 16
    } else if in_ilst || ty == MOOV || ty == MOOF || ty == TRAK || ty == MDIA || ty == MINF || ty == STBL
        || ty == DINF || ty == MVEX || ty == UDTA || ty == TRAF || ty == META || ty == ILST {
        let cs = if ty == META && hl + 4 <= t && read_be32(b, h + hl) == 0 {
            h + hl + 4
        } else {
            h + hl
        };
        children_ok_exec(b, cs, h + t, ty == ILST)
    } else {
        true
    }
}

fn nul_index_exec(b: &[u8], p: usize) -> (r: Option<usize>)
    ensures
        match r {
            Some(k) => nul_index(b@, p as int) == Some(k as int) && p <= k < b@.len(),
            None => nul_index(b@, p as int) is None,
        },
{
    let n = b.len();
    let mut i = p;
    while i < n
        invariant
            p <= i,
            n == b@.len(),
            nul_index(b@, p as int) == nul_index(b@, i as int),
        decreases n - i,
    {
        if b[i] == 0 {
            return Some(i);
        }
        i += 1;
    }
    None
}

fn emsg_overruns_exec(b: &[u8], c: usize, sz: usize) -> (r: bool)
    ensures
        r == emsg_overruns(b@, c as int, sz as int),
{
    let n = b.len();
    if c > n || n - c < 4 {
        return false;
    }
    let v = b[c];
    if v > 1 || (v == 1 && n - c < 24) {
        return false;
    }
    let (strings_at, fixed): (usize, usize) = if v == 0 {
        (c + 4, 12)
    } else {
        (c + 24, 16)
    };
    match nul_index_exec(b, strings_at) {
        None => false,
        Some(n1) => match nul_index_exec(b, n1 + 1) {
            None => false,
            Some(n2) => {
                let read_ok = v == 1 || n - n2 > 16;
                let need: u128 = 16 + (fixed as u128) + ((n1 - strings_at) as u128) + 1 + ((n2 - (n1 + 1)) as u128) + 1;
                read_ok && (sz as u128) < need
            },
        },
    }
}

/// Whether the container reader walks `b` to an end (see `box_tree_ok`).
pub fn box_tree_sound(b: &[u8]) -> (r: bool)
    ensures
        r == box_tree_ok(b@),
{
    let n = b.len();
    let mut p: usize = 0;
    while p < n && n - p >= 8
        invariant
            n == b@.len(),
            box_tree_ok(b@) == top_ok(b@, p as int),
        decreases n - p,
    {
        let s = read_be32(b, p);
        if s == 0 {
            return true;
        }
        let (hl, t): (usize, u64) = if s == 1 {
            if n - p < 16 {
                return true;
            }
            let l = read_be64(b, p + 8);
            if l < 16 {
                return true;
            }
            (16, l)
        } else {
            (8, s)
        };
        if t == 0 || t > n as u64 {
            return true;
        }
        let t = t as usize;
        let ty = read_be32(b, p + 4);
        if ty == EMSG {
            let sz = if hl == 16 {
                t - 8
            } else {
                t
            };
            if emsg_overruns_exec(b, p + hl, sz) {
                return false;
            }
        }
        if (ty == MOOV || ty == MOOF) && t >= hl {
            let end = if t <= n - p {
                p + t
            } else {
                n
            };
            if !children_ok_exec(b, p + hl, end, false) {
                return false;
            }
        }
        if t > n - p || n - p - t < 8 {
            return true;
        }
        p = p + t;
    }
    true
}

} // verus!
