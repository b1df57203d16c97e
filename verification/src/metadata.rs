//! The text-level parsing behind content metadata: calendar dates in the
//! shapes ffprobe, EXIF, PDF and Office files write them, and camera
//! names from EXIF make and model. Reading the files is the application's.
use vstd::prelude::*;
use crate::text::{all_digits, chars_of, concat3, contains_chars, lower_seq, contains_seq, string_of, to_lower};

verus! {

/// Tag fields of an audio file (`None`: the tag does not carry it).
#[derive(Debug)]
pub struct AudioMetadata {
    pub title: Option<String>,
    pub artist: Option<String>,
    pub album: Option<String>,
    pub album_artist: Option<String>,
    pub genre: Option<String>,
    pub year: Option<String>,
    pub track: Option<String>,
}

/// Container fields of a video file.
#[derive(Debug)]
pub struct VideoMetadata {
    pub width: u32,
    pub height: u32,
    pub codec: Option<String>,
    pub year: Option<String>,
    pub duration_seconds: Option<u64>,
    pub fps: Option<u32>,
}

/// EXIF fields of a photo.
#[derive(Debug)]
pub struct PhotoMetadata {
    pub camera: Option<String>,
    pub year: Option<String>,
    pub month: Option<String>,
    pub day: Option<String>,
}

/// Core properties of a document.
#[derive(Debug)]
pub struct DocumentMetadata {
    pub author: Option<String>,
    pub title: Option<String>,
    pub year: Option<String>,
    pub month: Option<String>,
    pub day: Option<String>,
}

/// The year of an ISO 8601 timestamp such as `"2024-06-15T10:30:00Z"`:
/// four digits and a `-` at its start, or nothing.
pub open spec fn creation_year_spec(s: Seq<char>) -> Option<Seq<char>> {
    if s.len() >= 5 && all_digits(s.subrange(0, 4)) && s[4] == '-' {
        Some(s.subrange(0, 4))
    } else {
        None
    }
}

fn digits_in(v: &Vec<char>, from: usize, to: usize) -> (r: bool)
    requires
        from <= to <= v@.len(),
    ensures
        r == all_digits(v@.subrange(from as int, to as int)),
{
    let mut i = from;
    while i < to
        invariant
            from <= i <= to <= v@.len(),
            forall|k: int| from <= k < i ==> crate::text::is_ascii_digit(#[trigger] v@[k]),
        decreases to - i,
    {
        if !crate::text::is_digit(v[i]) {
            assert(v@.subrange(from as int, to as int)[i - from] == v@[i as int]);
            return false;
        }
        i += 1;
    }
    assert forall|k: int| 0 <= k < to - from implies crate::text::is_ascii_digit(
        #[trigger] v@.subrange(from as int, to as int)[k],
    ) by {
        assert(v@.subrange(from as int, to as int)[k] == v@[from + k]);
    }
    true
}

/// The year at the start of an ISO 8601 timestamp, or `None` when the text
/// is not shaped like one.
pub fn parse_creation_year(s: &str) -> (r: Option<String>)
    ensures
        match r {
            Some(y) => creation_year_spec(s@) == Some(y@),
            None => creation_year_spec(s@) is None,
        },
{
    let v = chars_of(s);
    if v.len() >= 5 && digits_in(&v, 0, 4) && v[4] == '-' {
        Some(string_of(&v, 0, 4))
    } else {
        None
    }
}

/// The parts of `s` split at `sep`, at most `n` of them (the last holding
/// the rest), as `str::splitn` gives them.
pub open spec fn split_n(s: Seq<char>, sep: char, n: nat) -> Seq<Seq<char>>
    decreases n,
{
    if n <= 1 {
        seq![s]
    } else {
        match index_of_char(s, sep) {
            None => seq![s],
            Some(i) => seq![s.subrange(0, i)] + split_n(s.subrange(i + 1, s.len() as int), sep, (n - 1) as nat),
        }
    }
}

/// The first position of `c` in `s`.
pub open spec fn index_of_char(s: Seq<char>, c: char) -> Option<int>
    decreases s.len(),
{
    if s.len() == 0 {
        None
    } else if s[0] == c {
        Some(0)
    } else {
        match index_of_char(s.drop_first(), c) {
            Some(i) => Some(i + 1),
            None => None,
        }
    }
}

proof fn lemma_index_of_char(s: Seq<char>, c: char)
    ensures
        match index_of_char(s, c) {
            Some(i) => 0 <= i < s.len() && s[i] == c && forall|k: int| 0 <= k < i ==> s[k] != c,
            None => forall|k: int| 0 <= k < s.len() ==> s[k] != c,
        },
    decreases s.len(),
{
    if s.len() > 0 && s[0] != c {
        lemma_index_of_char(s.drop_first(), c);
        match index_of_char(s.drop_first(), c) {
            Some(i) => {
                assert forall|k: int| 0 <= k < i + 1 implies s[k] != c by {
                    if k > 0 {
                        assert(s[k] == s.drop_first()[k - 1]);
                    }
                }
            },
            None => {
                assert forall|k: int| 0 <= k < s.len() implies s[k] != c by {
                    if k > 0 {
                        assert(s[k] == s.drop_first()[k - 1]);
                    }
                }
            },
        }
    }
}

/// The text before the first `sep` (all of it when there is none): what
/// `s.split(sep).next()` gives.
pub open spec fn before_char(s: Seq<char>, sep: char) -> Seq<char> {
    match index_of_char(s, sep) {
        Some(i) => s.subrange(0, i),
        None => s,
    }
}

/// A `YYYY<sep>MM<sep>DD` date at the start of the part before `stop`:
/// the three fields, each all digits and of width 4, 2 and 2.
pub open spec fn ymd_spec(s: Seq<char>, stop: char, sep: char) -> Option<(Seq<char>, Seq<char>, Seq<char>)> {
    let parts = split_n(before_char(s, stop), sep, 3);
    if parts.len() == 3 && parts[0].len() == 4 && all_digits(parts[0]) && parts[1].len() == 2
        && all_digits(parts[1]) && parts[2].len() == 2 && all_digits(parts[2]) {
        Some((parts[0], parts[1], parts[2]))
    } else {
        None
    }
}

fn find_char(v: &Vec<char>, from: usize, to: usize, c: char) -> (r: Option<usize>)
    requires
        from <= to <= v@.len(),
    ensures
        match r {
            Some(k) => from <= k < to && index_of_char(v@.subrange(from as int, to as int), c) == Some(k - from),
            None => index_of_char(v@.subrange(from as int, to as int), c) is None,
        },
{
    let ghost whole = v@.subrange(from as int, to as int);
    proof {
        lemma_index_of_char(whole, c);
    }
    let mut i = from;
    while i < to
        invariant
            from <= i <= to <= v@.len(),
            whole == v@.subrange(from as int, to as int),
            forall|k: int| from <= k < i ==> v@[k] != c,
        decreases to - i,
    {
        if v[i] == c {
            proof {
                assert(whole[i - from] == c);
                assert forall|k: int| 0 <= k < i - from implies whole[k] != c by {
                    assert(whole[k] == v@[from + k]);
                }
                lemma_index_unique(whole, c, i - from);
            }
            return Some(i);
        }
        i += 1;
    }
    proof {
        assert forall|k: int| 0 <= k < whole.len() implies whole[k] != c by {
            assert(whole[k] == v@[from + k]);
        }
        if index_of_char(whole, c) is Some {
            let j = index_of_char(whole, c).unwrap();
            assert(whole[j] == c);
        }
    }
    None
}

proof fn lemma_index_unique(s: Seq<char>, c: char, i: int)
    requires
        0 <= i < s.len(),
        s[i] == c,
        forall|k: int| 0 <= k < i ==> s[k] != c,
    ensures
        index_of_char(s, c) == Some(i),
{
    lemma_index_of_char(s, c);
    match index_of_char(s, c) {
        Some(j) => {
            if j < i {
                assert(s[j] != c);
            } else if j > i {
                assert(s[i] != c);
            }
        },
        None => {
            assert(s[i] != c);
        },
    }
}

/// Parses a `YYYY<sep>MM<sep>DD` date at the start of `s` (up to the first
/// `stop`).
fn parse_ymd(s: &str, stop: char, sep: char) -> (r: Option<(String, String, String)>)
    ensures
        match r {
            Some((y, m, d)) => ymd_spec(s@, stop, sep) == Some((y@, m@, d@)),
            None => ymd_spec(s@, stop, sep) is None,
        },
{
    let v = chars_of(s);
    let n = v.len();
    let end = match find_char(&v, 0, n, stop) {
        Some(k) => k,
        None => n,
    };
    assert(v@.subrange(0, n as int) =~= v@);
    let ghost head = v@.subrange(0, end as int);
    assert(before_char(s@, stop) == head);
    let d1 = match find_char(&v, 0, end, sep) {
        Some(k) => k,
        None => {
            assert(split_n(head, sep, 3) =~= seq![head]);
            return None;
        },
    };
    let ghost rest1 = v@.subrange(d1 + 1, end as int);
    assert(head.subrange(0, d1 as int) =~= v@.subrange(0, d1 as int));
    assert(head.subrange(d1 + 1, head.len() as int) =~= rest1);
    assert(split_n(head, sep, 3) =~= seq![v@.subrange(0, d1 as int)] + split_n(rest1, sep, 2));
    let d2 = match find_char(&v, d1 + 1, end, sep) {
        Some(k) => k,
        None => {
            assert(split_n(rest1, sep, 2) =~= seq![rest1]);
            return None;
        },
    };
    let ghost rest2 = v@.subrange(d2 + 1, end as int);
    assert(rest1.subrange(0, d2 - d1 - 1) =~= v@.subrange(d1 + 1, d2 as int));
    assert(rest1.subrange(d2 - d1, rest1.len() as int) =~= rest2);
    assert(split_n(rest2, sep, 1) == seq![rest2]);
    assert(split_n(rest1, sep, 2) =~= seq![v@.subrange(d1 + 1, d2 as int)] + seq![rest2]);
    if d1 == 4 && digits_in(&v, 0, 4) && d2 - d1 - 1 == 2 && digits_in(&v, d1 + 1, d2) && end - d2 - 1 == 2
        && digits_in(&v, d2 + 1, end) {
        Some((string_of(&v, 0, d1), string_of(&v, d1 + 1, d2), string_of(&v, d2 + 1, end)))
    } else {
        None
    }
}

/// Parses EXIF's `DateTimeOriginal` (`"YYYY:MM:DD HH:MM:SS"`) into
/// `(year, month, day)`, or `None` when it is not shaped like that.
pub fn parse_exif_datetime(s: &str) -> (r: Option<(String, String, String)>)
    ensures
        match r {
            Some((y, m, d)) => ymd_spec(s@, ' ', ':') == Some((y@, m@, d@)),
            None => ymd_spec(s@, ' ', ':') is None,
        },
{
    parse_ymd(s, ' ', ':')
}

/// Parses a W3CDTF date (`"2023-11-15T09:00:00Z"`) into
/// `(year, month, day)`, or `None` when it is not shaped like that.
pub fn parse_w3cdtf_date(s: &str) -> (r: Option<(String, String, String)>)
    ensures
        match r {
            Some((y, m, d)) => ymd_spec(s@, 'T', '-') == Some((y@, m@, d@)),
            None => ymd_spec(s@, 'T', '-') is None,
        },
{
    parse_ymd(s, 'T', '-')
}

/// A PDF date (`"D:YYYYMMDD..."`): the year, month and day after the
/// `D:` prefix when eight digits follow it.
pub open spec fn pdf_date_spec(s: Seq<char>) -> Option<(Seq<char>, Seq<char>, Seq<char>)> {
    if s.len() >= 10 && s[0] == 'D' && s[1] == ':' && all_digits(s.subrange(2, 10)) {
        Some((s.subrange(2, 6), s.subrange(6, 8), s.subrange(8, 10)))
    } else {
        None
    }
}

/// Parses a PDF date string into `(year, month, day)`.
pub fn parse_pdf_date(s: &str) -> (r: Option<(String, String, String)>)
    ensures
        match r {
            Some((y, m, d)) => pdf_date_spec(s@) == Some((y@, m@, d@)),
            None => pdf_date_spec(s@) is None,
        },
{
    let v = chars_of(s);
    if v.len() >= 10 && v[0] == 'D' && v[1] == ':' && digits_in(&v, 2, 10) {
        Some((string_of(&v, 2, 6), string_of(&v, 6, 8), string_of(&v, 8, 10)))
    } else {
        None
    }
}

/// One camera name from EXIF make and model: the model alone when it
/// already names the make (case-insensitively), otherwise `"make model"`.
pub open spec fn camera_spec(make: Option<Seq<char>>, model: Option<Seq<char>>) -> Option<Seq<char>> {
    match (make, model) {
        (Some(a), Some(m)) => if contains_seq(lower_seq(m), lower_seq(a)) {
            Some(m)
        } else {
            Some(a + " "@ + m)
        },
        (Some(a), None) => Some(a),
        (None, Some(m)) => Some(m),
        (None, None) => None,
    }
}

pub open spec fn opt_string_view(o: Option<String>) -> Option<Seq<char>> {
    match o {
        Some(s) => Some(s@),
        None => None,
    }
}

/// Combines EXIF `Make` and `Model` into one camera name.
pub fn combine_make_model(make: Option<String>, model: Option<String>) -> (r: Option<String>)
    ensures
        opt_string_view(r) == camera_spec(opt_string_view(make), opt_string_view(model)),
{
    match (make, model) {
        (Some(make), Some(model)) => {
            let lm = chars_of(to_lower(model.as_str()).as_str());
            let la = chars_of(to_lower(make.as_str()).as_str());
            if contains_chars(&lm, &la) {
                Some(model)
            } else {
                Some(concat3(make.as_str(), " ", model.as_str()))
            }
        },
        (Some(make), None) => Some(make),
        (None, Some(model)) => Some(model),
        (None, None) => None,
    }
}

/// The first `c` in `s` is at `i` when `s[i]` is `c` and none comes before.
pub proof fn lemma_index_unique_pub(s: Seq<char>, c: char, i: int)
    requires
        0 <= i < s.len(),
        s[i] == c,
        forall|k: int| 0 <= k < i ==> s[k] != c,
    ensures
        index_of_char(s, c) == Some(i),
{
    lemma_index_unique(s, c, i);
}

/// No `c` in `s` means no first position of it.
pub proof fn lemma_index_none_pub(s: Seq<char>, c: char)
    requires
        forall|k: int| 0 <= k < s.len() ==> s[k] != c,
    ensures
        index_of_char(s, c) is None,
{
    lemma_index_of_char(s, c);
    if index_of_char(s, c) is Some {
        let j = index_of_char(s, c).unwrap();
        assert(s[j] == c);
    }
}

} // verus!
