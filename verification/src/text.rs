//! Character-level text helpers shared by the whole crate: ASCII case
//! folding, Unicode whitespace trimming, substring search and decimal
//! rendering, each stated over `Seq<char>`.
use vstd::prelude::*;

verus! {

/// Appends one character to a `String` (std's `String::push`).
pub assume_specification[ String::push ](s: &mut String, ch: char)
    ensures
        final(s)@ == old(s)@.push(ch),
;

// ------------------------------------------------------------ characters

pub open spec fn lower_char(c: char) -> char {
    if 'A' <= c && c <= 'Z' {
        ((c as u32) + 32) as char
    } else {
        c
    }
}

pub open spec fn lower_seq(s: Seq<char>) -> Seq<char> {
    s.map_values(|c: char| lower_char(c))
}

pub open spec fn is_ascii_digit(c: char) -> bool {
    '0' <= c && c <= '9'
}

pub open spec fn all_digits(s: Seq<char>) -> bool {
    forall|i: int| 0 <= i < s.len() ==> is_ascii_digit(#[trigger] s[i])
}

/// Unicode `White_Space`, the set `str::trim` removes.
pub open spec fn is_white(c: char) -> bool {
    let u = c as u32;
    (9 <= u && u <= 13) || u == 32 || u == 0x85 || u == 0xA0 || u == 0x1680 || (0x2000 <= u
        && u <= 0x200A) || u == 0x2028 || u == 0x2029 || u == 0x202F || u == 0x205F || u
        == 0x3000
}

pub fn lower(c: char) -> (r: char)
    ensures
        r == lower_char(c),
{
    if 'A' <= c && c <= 'Z' {
        let b: u8 = c as u8;
        assert(b as u32 == c as u32);
        ((b + 32) as char)
    } else {
        c
    }
}

pub fn is_digit(c: char) -> (r: bool)
    ensures
        r == is_ascii_digit(c),
{
    '0' <= c && c <= '9'
}

pub fn is_whitespace(c: char) -> (r: bool)
    ensures
        r == is_white(c),
{
    let u = c as u32;
    (9 <= u && u <= 13) || u == 32 || u == 0x85 || u == 0xA0 || u == 0x1680 || (0x2000 <= u
        && u <= 0x200A) || u == 0x2028 || u == 0x2029 || u == 0x202F || u == 0x205F || u
        == 0x3000
}

// ------------------------------------------------------- string <-> chars

pub fn chars_of(s: &str) -> (v: Vec<char>)
    ensures
        v@ == s@,
{
    let n = s.unicode_len();
    let mut v: Vec<char> = Vec::new();
    let mut i: usize = 0;
    while i < n
        invariant
            i <= n,
            n == s@.len(),
            v@ == s@.subrange(0, i as int),
        decreases n - i,
    {
        v.push(s.get_char(i));
        i += 1;
    }
    v
}

/// The characters `v[from..to]` as a new `String`.
pub fn string_of(v: &Vec<char>, from: usize, to: usize) -> (s: String)
    requires
        from <= to <= v@.len(),
    ensures
        s@ == v@.subrange(from as int, to as int),
{
    let mut s = String::new();
    let mut i = from;
    while i < to
        invariant
            from <= i <= to,
            to <= v@.len(),
            s@ == v@.subrange(from as int, i as int),
        decreases to - i,
    {
        s.push(v[i]);
        i += 1;
    }
    s
}

pub fn string_of_all(v: &Vec<char>) -> (s: String)
    ensures
        s@ == v@,
{
    let s = string_of(v, 0, v.len());
    assert(v@.subrange(0, v@.len() as int) =~= v@);
    s
}

pub fn str_to_string(s: &str) -> (r: String)
    ensures
        r@ == s@,
{
    s.to_owned()
}

pub fn concat(a: &str, b: &str) -> (r: String)
    ensures
        r@ == a@ + b@,
{
    let mut r = a.to_owned();
    r.append(b);
    r
}

pub fn concat3(a: &str, b: &str, c: &str) -> (r: String)
    ensures
        r@ == a@ + b@ + c@,
{
    let mut r = a.to_owned();
    r.append(b);
    r.append(c);
    r
}

pub fn str_eq(a: &str, b: &str) -> (r: bool)
    ensures
        r == (a@ == b@),
{
    let x = a.to_owned();
    let y = b.to_owned();
    x == y
}

pub fn to_lower(s: &str) -> (r: String)
    ensures
        r@ == lower_seq(s@),
{
    let v = chars_of(s);
    let mut r = String::new();
    let mut i: usize = 0;
    while i < v.len()
        invariant
            i <= v@.len(),
            v@ == s@,
            r@ == lower_seq(s@.subrange(0, i as int)),
        decreases v@.len() - i,
    {
        r.push(lower(v[i]));
        proof {
            assert(lower_seq(s@.subrange(0, i + 1)) =~= lower_seq(s@.subrange(0, i as int)).push(
                lower_char(s@[i as int]),
            ));
        }
        i += 1;
    }
    assert(s@.subrange(0, s@.len() as int) =~= s@);
    r
}

// --------------------------------------------------------------- search

pub open spec fn occurs_at(s: Seq<char>, t: Seq<char>, i: int) -> bool {
    0 <= i && i + t.len() <= s.len() && s.subrange(i, i + t.len()) == t
}

pub open spec fn contains_seq(s: Seq<char>, t: Seq<char>) -> bool {
    exists|i: int| occurs_at(s, t, i)
}

pub open spec fn starts_with(s: Seq<char>, t: Seq<char>) -> bool {
    t.len() <= s.len() && s.subrange(0, t.len() as int) == t
}

pub open spec fn ends_with(s: Seq<char>, t: Seq<char>) -> bool {
    t.len() <= s.len() && s.subrange(s.len() - t.len(), s.len() as int) == t
}

pub fn matches_at(s: &Vec<char>, t: &Vec<char>, i: usize) -> (r: bool)
    requires
        i + t@.len() <= s@.len(),
    ensures
        r == (s@.subrange(i as int, i + t@.len()) == t@),
{
    let mut k: usize = 0;
    while k < t.len()
        invariant
            k <= t@.len(),
            i + t@.len() <= s@.len(),
            forall|j: int| 0 <= j < k ==> s@[i + j] == t@[j],
        decreases t@.len() - k,
    {
        assert(i + k < s@.len());
        assert(s@.len() == s.len());
        if s[i + k] != t[k] {
            assert(s@.subrange(i as int, i + t@.len())[k as int] != t@[k as int]);
            return false;
        }
        k += 1;
    }
    assert(s@.subrange(i as int, i + t@.len()) =~= t@);
    true
}

pub fn contains_chars(s: &Vec<char>, t: &Vec<char>) -> (r: bool)
    ensures
        r == contains_seq(s@, t@),
{
    if t.len() > s.len() {
        return false;
    }
    if t.len() == 0 {
        assert(s@.subrange(0, 0) =~= t@);
        assert(occurs_at(s@, t@, 0));
        return true;
    }
    let last = s.len() - t.len();
    let mut i: usize = 0;
    while i <= last
        invariant
            i <= last + 1,
            last < s@.len(),
            s@.len() <= usize::MAX,
            last == s@.len() - t@.len(),
            t@.len() <= s@.len(),
            forall|j: int| 0 <= j < i ==> !occurs_at(s@, t@, j),
        decreases last + 1 - i,
    {
        if matches_at(s, t, i) {
            assert(occurs_at(s@, t@, i as int));
            return true;
        }
        i += 1;
    }
    false
}

pub fn str_contains(s: &str, t: &str) -> (r: bool)
    ensures
        r == contains_seq(s@, t@),
{
    let a = chars_of(s);
    let b = chars_of(t);
    contains_chars(&a, &b)
}

pub fn str_starts_with(s: &str, t: &str) -> (r: bool)
    ensures
        r == starts_with(s@, t@),
{
    let a = chars_of(s);
    let b = chars_of(t);
    if b.len() > a.len() {
        return false;
    }
    matches_at(&a, &b, 0)
}

pub fn str_ends_with(s: &str, t: &str) -> (r: bool)
    ensures
        r == ends_with(s@, t@),
{
    let a = chars_of(s);
    let b = chars_of(t);
    if b.len() > a.len() {
        return false;
    }
    matches_at(&a, &b, a.len() - b.len())
}

/// Whether `v[pos..pos + w]` are all ASCII digits.
pub fn digits_at(v: &Vec<char>, pos: usize, w: usize) -> (r: bool)
    requires
        pos + w <= v@.len(),
    ensures
        r == all_digits(v@.subrange(pos as int, pos + w)),
{
    let vl = v.len();
    let mut d: usize = 0;
    while d < w
        invariant
            d <= w,
            pos + w <= v@.len(),
            vl == v@.len(),
            forall|x: int| pos <= x < pos + d ==> is_ascii_digit(#[trigger] v@[x]),
        decreases w - d,
    {
        assert(pos + d < v@.len());
        if !is_digit(v[pos + d]) {
            assert(!is_ascii_digit(v@.subrange(pos as int, pos + w)[d as int]));
            return false;
        }
        d += 1;
    }
    assert forall|i: int| 0 <= i < w implies is_ascii_digit(
        #[trigger] v@.subrange(pos as int, pos + w)[i],
    ) by {
        assert(v@.subrange(pos as int, pos + w)[i] == v@[pos + i]);
    }
    true
}

// ------------------------------------------------------------- trimming

pub open spec fn trim_start_seq(s: Seq<char>) -> Seq<char>
    decreases s.len(),
{
    if s.len() > 0 && is_white(s[0]) {
        trim_start_seq(s.drop_first())
    } else {
        s
    }
}

pub open spec fn trim_end_seq(s: Seq<char>) -> Seq<char>
    decreases s.len(),
{
    if s.len() > 0 && is_white(s.last()) {
        trim_end_seq(s.drop_last())
    } else {
        s
    }
}

pub open spec fn trim_seq(s: Seq<char>) -> Seq<char> {
    trim_end_seq(trim_start_seq(s))
}

proof fn lemma_trim_start_skip(s: Seq<char>, i: int)
    requires
        0 <= i <= s.len(),
        forall|j: int| 0 <= j < i ==> is_white(#[trigger] s[j]),
    ensures
        trim_start_seq(s) == trim_start_seq(s.subrange(i, s.len() as int)),
    decreases i,
{
    if i > 0 {
        assert(s.drop_first().subrange(i - 1, s.drop_first().len() as int) =~= s.subrange(
            i,
            s.len() as int,
        ));
        lemma_trim_start_skip(s.drop_first(), i - 1);
    } else {
        assert(s.subrange(0, s.len() as int) =~= s);
    }
}

proof fn lemma_trim_end_skip(s: Seq<char>, i: int)
    requires
        0 <= i <= s.len(),
        forall|j: int| i <= j < s.len() ==> is_white(#[trigger] s[j]),
    ensures
        trim_end_seq(s) == trim_end_seq(s.subrange(0, i)),
    decreases s.len() - i,
{
    if i < s.len() {
        assert(s.drop_last().subrange(0, i) =~= s.subrange(0, i));
        lemma_trim_end_skip(s.drop_last(), i);
    } else {
        assert(s.subrange(0, s.len() as int) =~= s);
    }
}

/// Index of the first non-whitespace character (or the length).
fn first_non_white(v: &Vec<char>) -> (i: usize)
    ensures
        i <= v@.len(),
        trim_start_seq(v@) == v@.subrange(i as int, v@.len() as int),
{
    let mut i: usize = 0;
    while i < v.len() && is_whitespace(v[i])
        invariant
            i <= v@.len(),
            forall|j: int| 0 <= j < i ==> is_white(#[trigger] v@[j]),
        decreases v@.len() - i,
    {
        i += 1;
    }
    proof {
        lemma_trim_start_skip(v@, i as int);
        let rest = v@.subrange(i as int, v@.len() as int);
        if rest.len() > 0 {
            assert(rest[0] == v@[i as int]);
        }
    }
    i
}

pub fn trim_chars(v: &Vec<char>) -> (r: Vec<char>)
    ensures
        r@ == trim_seq(v@),
{
    let i = first_non_white(v);
    let ghost rest = v@.subrange(i as int, v@.len() as int);
    let mut j: usize = v.len();
    while j > i && is_whitespace(v[j - 1])
        invariant
            i <= j <= v@.len(),
            rest == v@.subrange(i as int, v@.len() as int),
            forall|k: int| j <= k < v@.len() ==> is_white(#[trigger] v@[k]),
        decreases j,
    {
        j -= 1;
    }
    proof {
        assert forall|k: int| j - i <= k < rest.len() implies is_white(#[trigger] rest[k]) by {
            assert(rest[k] == v@[k + i]);
        }
        lemma_trim_end_skip(rest, j - i);
        let r = rest.subrange(0, j - i);
        if r.len() > 0 {
            assert(r.last() == v@[j - 1]);
        }
        assert(r =~= v@.subrange(i as int, j as int));
    }
    let mut r: Vec<char> = Vec::new();
    let mut k = i;
    while k < j
        invariant
            i <= k <= j <= v@.len(),
            r@ == v@.subrange(i as int, k as int),
        decreases j - k,
    {
        r.push(v[k]);
        k += 1;
    }
    r
}

pub fn trim_end_chars(v: &Vec<char>) -> (r: Vec<char>)
    ensures
        r@ == trim_end_seq(v@),
{
    let mut j: usize = v.len();
    while j > 0 && is_whitespace(v[j - 1])
        invariant
            j <= v@.len(),
            forall|k: int| j <= k < v@.len() ==> is_white(#[trigger] v@[k]),
        decreases j,
    {
        j -= 1;
    }
    proof {
        lemma_trim_end_skip(v@, j as int);
        let r = v@.subrange(0, j as int);
        if r.len() > 0 {
            assert(r.last() == v@[j - 1]);
        }
    }
    let mut r: Vec<char> = Vec::new();
    let mut k: usize = 0;
    while k < j
        invariant
            k <= j <= v@.len(),
            r@ == v@.subrange(0, k as int),
        decreases j - k,
    {
        r.push(v[k]);
        k += 1;
    }
    r
}

pub fn str_trim(s: &str) -> (r: String)
    ensures
        r@ == trim_seq(s@),
{
    let v = chars_of(s);
    let t = trim_chars(&v);
    string_of_all(&t)
}

// ------------------------------------------------------ decimal rendering

pub open spec fn digit_char(d: int) -> char {
    (d + 48) as char
}

/// Decimal digits of `n`, most significant first, no leading zeros
/// (`"0"` for zero).
pub open spec fn dec(n: nat) -> Seq<char>
    decreases n,
{
    if n < 10 {
        seq![digit_char(n as int)]
    } else {
        dec(n / 10).push(digit_char((n % 10) as int))
    }
}

/// `s` left-padded with `'0'` up to `width` characters.
pub open spec fn zero_pad(s: Seq<char>, width: nat) -> Seq<char> {
    if s.len() >= width {
        s
    } else {
        Seq::new((width - s.len()) as nat, |i: int| '0') + s
    }
}

/// What `format!("{:0width$}", n)` renders for an unsigned `n`.
pub open spec fn dec_padded(n: nat, width: nat) -> Seq<char> {
    zero_pad(dec(n), width)
}

/// What `format!("{:0width$}", n)` renders for a signed `n`: the sign
/// counts toward the width and the zeros go after it.
pub open spec fn dec_signed_padded(n: int, width: nat) -> Seq<char> {
    if n < 0 {
        seq!['-'] + zero_pad(dec((-n) as nat), if width > 0 { (width - 1) as nat } else { 0 })
    } else {
        zero_pad(dec(n as nat), width)
    }
}

fn digits_of(n: u64) -> (v: Vec<char>)
    ensures
        v@ == dec(n as nat),
        v@.len() >= 1,
    decreases n,
{
    if n < 10 {
        let c = ((n as u8) + 48) as char;
        let mut v = Vec::new();
        v.push(c);
        assert(v@ =~= dec(n as nat));
        v
    } else {
        let mut v = digits_of(n / 10);
        let d: u8 = (n % 10) as u8;
        v.push((d + 48) as char);
        v
    }
}

fn pad_zeros(v: Vec<char>, width: usize) -> (r: Vec<char>)
    ensures
        r@ == zero_pad(v@, width as nat),
{
    if v.len() >= width {
        return v;
    }
    let mut r: Vec<char> = Vec::new();
    let k = width - v.len();
    let mut i: usize = 0;
    while i < k
        invariant
            i <= k,
            r@ == Seq::new(i as nat, |j: int| '0'),
        decreases k - i,
    {
        r.push('0');
        assert(r@ =~= Seq::new((i + 1) as nat, |j: int| '0'));
        i += 1;
    }
    let mut j: usize = 0;
    while j < v.len()
        invariant
            j <= v@.len(),
            r@ == Seq::new(k as nat, |x: int| '0') + v@.subrange(0, j as int),
        decreases v@.len() - j,
    {
        r.push(v[j]);
        assert(v@.subrange(0, j + 1) =~= v@.subrange(0, j as int).push(v@[j as int]));
        assert(r@ =~= Seq::new(k as nat, |x: int| '0') + v@.subrange(0, j + 1));
        j += 1;
    }
    assert(v@.subrange(0, v@.len() as int) =~= v@);
    r
}

/// `format!("{:0width$}", n)` for an unsigned `n`.
pub fn fmt_u64(n: u64, width: usize) -> (s: String)
    ensures
        s@ == dec_padded(n as nat, width as nat),
{
    let d = digits_of(n);
    let p = pad_zeros(d, width);
    string_of_all(&p)
}

/// `format!("{:0width$}", n)` for a signed `n`.
pub fn fmt_i64(n: i64, width: usize) -> (s: String)
    ensures
        s@ == dec_signed_padded(n as int, width as nat),
{
    if n < 0 {
        let m: u64 = if n == i64::MIN {
            9223372036854775808u64
        } else {
            (-n) as u64
        };
        assert(m as int == -(n as int));
        let d = digits_of(m);
        let w = if width > 0 {
            width - 1
        } else {
            0
        };
        let p = pad_zeros(d, w);
        let mut s = String::new();
        s.push('-');
        let rest = string_of_all(&p);
        s.append(rest.as_str());
        assert(s@ =~= seq!['-'] + zero_pad(dec((-n) as nat), w as nat));
        s
    } else {
        fmt_u64(n as u64, width)
    }
}

fn digits_of_u128(n: u128) -> (v: Vec<char>)
    ensures
        v@ == dec(n as nat),
    decreases n,
{
    if n < 10 {
        let c = ((n as u8) + 48) as char;
        let mut v = Vec::new();
        v.push(c);
        assert(v@ =~= dec(n as nat));
        v
    } else {
        let mut v = digits_of_u128(n / 10);
        let d: u8 = (n % 10) as u8;
        v.push((d + 48) as char);
        v
    }
}

/// `format!("{}", n)` for a `u128`.
pub fn fmt_u128(n: u128) -> (s: String)
    ensures
        s@ == dec(n as nat),
{
    let d = digits_of_u128(n);
    string_of_all(&d)
}

} // verus!
