//! Reading the header and body of a binary PLY file of gaussian splats.

use vstd::prelude::*;
use vstd::utf8::{encode_utf8, valid_utf8};
use crate::byte_order::{be_u32_at, le_u32_at, read_u32_be, read_u32_le};

verus! {

/// "element vertex"
pub const ELEMENT_VERTEX: [u8; 14] = [101, 108, 101, 109, 101, 110, 116, 32, 118, 101, 114, 116, 101, 120];

/// "format "
pub const FORMAT_PREFIX: [u8; 7] = [102, 111, 114, 109, 97, 116, 32];

/// "property float " (a property line); its name follows "property float".
pub const PROPERTY_FLOAT_PREFIX: [u8; 15] = [112, 114, 111, 112, 101, 114, 116, 121, 32, 102, 108, 111, 97, 116, 32];

/// "property float"
pub const PROPERTY_FLOAT: [u8; 14] = [112, 114, 111, 112, 101, 114, 116, 121, 32, 102, 108, 111, 97, 116];

/// "end_header\n"
pub const END_HEADER: [u8; 11] = [101, 110, 100, 95, 104, 101, 97, 100, 101, 114, 10];

/// "binary_little_endian"
pub const BINARY_LITTLE_ENDIAN: [u8; 20] = [98, 105, 110, 97, 114, 121, 95, 108, 105, 116, 116, 108, 101, 95, 101, 110, 100, 105, 97, 110];

/// "binary_big_endian"
pub const BINARY_BIG_ENDIAN: [u8; 17] = [98, 105, 110, 97, 114, 121, 95, 98, 105, 103, 95, 101, 110, 100, 105, 97, 110];

/// `pat` occurs in `s` at `k`.
pub open spec fn occurs_at(s: Seq<u8>, pat: Seq<u8>, k: int) -> bool {
    0 <= k && k + pat.len() <= s.len() && s.subrange(k, k + pat.len()) == pat
}

/// `s` starts with `pat`.
pub open spec fn starts_with(s: Seq<u8>, pat: Seq<u8>) -> bool {
    occurs_at(s, pat, 0)
}

/// Start of the last occurrence of `pat` in `s` that begins before `k`,
/// or -1.
pub open spec fn last_occurrence_before(s: Seq<u8>, pat: Seq<u8>, k: int) -> int
    decreases k,
{
    if k <= 0 {
        -1
    } else if occurs_at(s, pat, k - 1) {
        k - 1
    } else {
        last_occurrence_before(s, pat, k - 1)
    }
}

/// What follows the last occurrence of `pat` in `s`: the last piece of
/// `s` split at `pat` (for a pattern that cannot overlap itself).
pub open spec fn after_last(s: Seq<u8>, pat: Seq<u8>) -> Seq<u8> {
    s.subrange(last_occurrence_before(s, pat, s.len() as int) + pat.len(), s.len() as int)
}

/// `pat` occurs in `s` at `k`.
pub fn matches_at(s: &[u8], k: usize, pat: &[u8]) -> (r: bool)
    ensures
        r == occurs_at(s@, pat@, k as int),
{
    if k > s.len() || pat.len() > s.len() - k {
        return false;
    }
    let mut j: usize = 0;
    while j < pat.len()
        invariant
            k + pat@.len() <= s@.len(),
            s@.len() == s.len(),
            j <= pat@.len(),
            forall|m: int| 0 <= m < j ==> s@[k + m] == pat@[m],
        decreases pat@.len() - j,
    {
        if s[k + j] != pat[j] {
            assert(s@.subrange(k as int, k + pat@.len())[j as int] != pat@[j as int]);
            return false;
        }
        j = j + 1;
    }
    assert(s@.subrange(k as int, k + pat@.len()) =~= pat@);
    true
}

/// Where what follows the last occurrence of `pat` in `s` starts.
fn after_last_start(s: &[u8], pat: &[u8]) -> (r: usize)
    requires
        starts_with(s@, pat@),
        pat@.len() > 0,
    ensures
        r == last_occurrence_before(s@, pat@, s@.len() as int) + pat@.len(),
        pat@.len() <= r <= s@.len(),
{
    let mut k: usize = s.len();
    while k > 0
        invariant
            k <= s@.len(),
            s@.len() == s.len(),
            starts_with(s@, pat@),
            last_occurrence_before(s@, pat@, s@.len() as int) == last_occurrence_before(s@, pat@, k as int),
        decreases k,
    {
        if matches_at(s, k - 1, pat) {
            return k - 1 + pat.len();
        }
        k = k - 1;
    }
    proof {
        lemma_last_occurrence_found(s@, pat@, s@.len() as int);
    }
    pat.len()
}

proof fn lemma_last_occurrence_found(s: Seq<u8>, pat: Seq<u8>, k: int)
    requires
        starts_with(s, pat),
        k >= 1,
    ensures
        0 <= last_occurrence_before(s, pat, k) < k,
        occurs_at(s, pat, last_occurrence_before(s, pat, k)),
    decreases k,
{
    if k > 1 && !occurs_at(s, pat, k - 1) {
        lemma_last_occurrence_found(s, pat, k - 1);
    }
}

/// Length of the UTF-8 encoding of a white-space character (Unicode
/// White_Space, as `char::is_whitespace`) at the start of `s`, or 0.
pub open spec fn ws_front(s: Seq<u8>) -> int {
    if s.len() >= 1 && ((9 <= s[0] <= 13) || s[0] == 32) {
        1
    } else if s.len() >= 2 && s[0] == 0xC2 && (s[1] == 0x85 || s[1] == 0xA0) {
        2
    } else if s.len() >= 3 && s[0] == 0xE1 && s[1] == 0x9A && s[2] == 0x80 {
        3
    } else if s.len() >= 3 && s[0] == 0xE2 && s[1] == 0x80 && ((0x80 <= s[2] <= 0x8A) || s[2]
        == 0xA8 || s[2] == 0xA9 || s[2] == 0xAF) {
        3
    } else if s.len() >= 3 && s[0] == 0xE2 && s[1] == 0x81 && s[2] == 0x9F {
        3
    } else if s.len() >= 3 && s[0] == 0xE3 && s[1] == 0x80 && s[2] == 0x80 {
        3
    } else {
        0
    }
}

/// Length of the UTF-8 encoding of a white-space character at the end of
/// `s`, or 0.
pub open spec fn ws_back(s: Seq<u8>) -> int {
    let n = s.len() as int;
    if n >= 1 && ((9 <= s[n - 1] <= 13) || s[n - 1] == 32) {
        1
    } else if n >= 2 && s[n - 2] == 0xC2 && (s[n - 1] == 0x85 || s[n - 1] == 0xA0) {
        2
    } else if n >= 3 && s[n - 3] == 0xE1 && s[n - 2] == 0x9A && s[n - 1] == 0x80 {
        3
    } else if n >= 3 && s[n - 3] == 0xE2 && s[n - 2] == 0x80 && ((0x80 <= s[n - 1] <= 0x8A) || s[n
        - 1] == 0xA8 || s[n - 1] == 0xA9 || s[n - 1] == 0xAF) {
        3
    } else if n >= 3 && s[n - 3] == 0xE2 && s[n - 2] == 0x81 && s[n - 1] == 0x9F {
        3
    } else if n >= 3 && s[n - 3] == 0xE3 && s[n - 2] == 0x80 && s[n - 1] == 0x80 {
        3
    } else {
        0
    }
}

/// `s` without its leading white space.
pub open spec fn trim_start(s: Seq<u8>) -> Seq<u8>
    decreases s.len(),
{
    if ws_front(s) > 0 {
        trim_start(s.skip(ws_front(s)))
    } else {
        s
    }
}

/// `s` without its trailing white space.
pub open spec fn trim_end(s: Seq<u8>) -> Seq<u8>
    decreases s.len(),
{
    if ws_back(s) > 0 {
        trim_end(s.take(s.len() - ws_back(s)))
    } else {
        s
    }
}

/// `s` without leading and trailing white space (as `str::trim`).
pub open spec fn trim(s: Seq<u8>) -> Seq<u8> {
    trim_end(trim_start(s))
}

pub(crate) fn ws_front_len(b: &[u8], start: usize, end: usize) -> (r: usize)
    requires
        start <= end <= b@.len(),
    ensures
        r == ws_front(b@.subrange(start as int, end as int)),
{
    let ghost s = b@.subrange(start as int, end as int);
    let n = end - start;
    if n >= 1 && ((9 <= b[start] && b[start] <= 13) || b[start] == 32) {
        return 1;
    }
    if n >= 2 && b[start] == 0xC2 && (b[start + 1] == 0x85 || b[start + 1] == 0xA0) {
        return 2;
    }
    if n >= 3 {
        let (x, y, z) = (b[start], b[start + 1], b[start + 2]);
        if x == 0xE1 && y == 0x9A && z == 0x80 {
            return 3;
        }
        if x == 0xE2 && y == 0x80 && ((0x80 <= z && z <= 0x8A) || z == 0xA8 || z == 0xA9 || z == 0xAF) {
            return 3;
        }
        if x == 0xE2 && y == 0x81 && z == 0x9F {
            return 3;
        }
        if x == 0xE3 && y == 0x80 && z == 0x80 {
            return 3;
        }
    }
    0
}

fn ws_back_len(b: &[u8], start: usize, end: usize) -> (r: usize)
    requires
        start <= end <= b@.len(),
    ensures
        r == ws_back(b@.subrange(start as int, end as int)),
{
    let n = end - start;
    if n >= 1 && ((9 <= b[end - 1] && b[end - 1] <= 13) || b[end - 1] == 32) {
        return 1;
    }
    if n >= 2 && b[end - 2] == 0xC2 && (b[end - 1] == 0x85 || b[end - 1] == 0xA0) {
        return 2;
    }
    if n >= 3 {
        let (x, y, z) = (b[end - 3], b[end - 2], b[end - 1]);
        if x == 0xE1 && y == 0x9A && z == 0x80 {
            return 3;
        }
        if x == 0xE2 && y == 0x80 && ((0x80 <= z && z <= 0x8A) || z == 0xA8 || z == 0xA9 || z == 0xAF) {
            return 3;
        }
        if x == 0xE2 && y == 0x81 && z == 0x9F {
            return 3;
        }
        if x == 0xE3 && y == 0x80 && z == 0x80 {
            return 3;
        }
    }
    0
}

/// Bounds of `b[start..end]` trimmed of white space.
fn trim_bounds(b: &[u8], start: usize, end: usize) -> (r: (usize, usize))
    requires
        start <= end <= b@.len(),
    ensures
        start <= r.0 <= r.1 <= end,
        b@.subrange(r.0 as int, r.1 as int) == trim(b@.subrange(start as int, end as int)),
{
    let mut s: usize = start;
    loop
        invariant
            start <= s <= end <= b@.len(),
            trim_start(b@.subrange(start as int, end as int)) == trim_start(b@.subrange(s as int, end as int)),
        ensures
            start <= s <= end,
            ws_front(b@.subrange(s as int, end as int)) == 0,
            trim_start(b@.subrange(start as int, end as int)) == trim_start(b@.subrange(s as int, end as int)),
        decreases end - s,
    {
        let w = ws_front_len(b, s, end);
        if w == 0 {
            break;
        }
        assert(b@.subrange(s as int, end as int).skip(w as int) =~= b@.subrange(s + w, end as int));
        s = s + w;
    }
    let ghost front = b@.subrange(s as int, end as int);
    assert(trim_start(front) == front);
    let mut e: usize = end;
    loop
        invariant
            s <= e <= end <= b@.len(),
            trim_end(front) == trim_end(b@.subrange(s as int, e as int)),
        ensures
            s <= e <= end,
            ws_back(b@.subrange(s as int, e as int)) == 0,
            trim_end(front) == trim_end(b@.subrange(s as int, e as int)),
        decreases e - s,
    {
        let w = ws_back_len(b, s, e);
        if w == 0 {
            break;
        }
        assert(b@.subrange(s as int, e as int).take((e - s) - w) =~= b@.subrange(s as int, e - w));
        e = e - w;
    }
    (s, e)
}

/// An ASCII digit.
pub open spec fn is_digit(c: u8) -> bool {
    48 <= c <= 57
}

/// The value of a string of decimal digits.
pub open spec fn digits_value(d: Seq<u8>) -> nat
    decreases d.len(),
{
    if d.len() == 0 {
        0
    } else {
        digits_value(d.drop_last()) * 10 + (d.last() - 48) as nat
    }
}

/// What `usize::from_str` gives for `s`: an optional '+', then one or
/// more decimal digits whose value fits in a `usize`.
pub open spec fn parse_usize(s: Seq<u8>) -> Option<usize> {
    let d = unsigned_digits(s);
    if all_digits(d) && digits_value(d) <= usize::MAX {
        Some(digits_value(d) as usize)
    } else {
        None
    }
}

/// `s` without a leading '+'.
pub open spec fn unsigned_digits(s: Seq<u8>) -> Seq<u8> {
    if s.len() > 0 && s[0] == 43 {
        s.skip(1)
    } else {
        s
    }
}

/// `d` is one or more decimal digits.
pub open spec fn all_digits(d: Seq<u8>) -> bool {
    d.len() > 0 && forall|k: int| 0 <= k < d.len() ==> is_digit(#[trigger] d[k])
}

proof fn lemma_digits_value_prefix(d: Seq<u8>, m: int)
    requires
        0 <= m <= d.len(),
        forall|k: int| 0 <= k < d.len() ==> is_digit(#[trigger] d[k]),
    ensures
        digits_value(d.take(m)) <= digits_value(d),
    decreases d.len() - m,
{
    if m < d.len() {
        lemma_digits_value_prefix(d, m + 1);
        assert(d.take(m + 1).drop_last() =~= d.take(m));
    } else {
        assert(d.take(m) =~= d);
    }
}

/// Parses `b[start..end]` as `usize::from_str` does.
pub(crate) fn parse_usize_at(b: &[u8], start: usize, end: usize) -> (r: Option<usize>)
    requires
        start <= end <= b@.len(),
    ensures
        r == parse_usize(b@.subrange(start as int, end as int)),
{
    let ghost s = b@.subrange(start as int, end as int);
    let mut k: usize = start;
    if k < end && b[k] == 43 {
        k = k + 1;
    }
    let ds: usize = k;
    let ghost d = b@.subrange(ds as int, end as int);
    assert(d =~= unsigned_digits(s));
    if k == end {
        return None;
    }
    let mut v: usize = 0;
    while k < end
        invariant
            ds <= k <= end <= b@.len(),
            d == b@.subrange(ds as int, end as int),
            s == b@.subrange(start as int, end as int),
            d == unsigned_digits(s),
            forall|m: int| 0 <= m < k - ds ==> is_digit(#[trigger] d[m]),
            v == digits_value(d.take(k - ds)),
        decreases end - k,
    {
        let c = b[k];
        if c < 48 || c > 57 {
            assert(d[k - ds] == c);
            assert(!is_digit(d[k - ds]));
            assert(!all_digits(d));
            return None;
        }
        let digit: usize = (c - 48) as usize;
        assert(d.take(k - ds + 1).drop_last() =~= d.take(k - ds));
        if v > (usize::MAX - digit) / 10 {
            proof {
                assert(d.take(k - ds + 1).last() == c);
                assert(v * 10 + digit > usize::MAX);
                assert(digits_value(d.take(k - ds + 1)) == v * 10 + digit);
                assert(digits_value(d.take(k - ds + 1)) > usize::MAX);
                if all_digits(d) {
                    lemma_digits_value_prefix(d, k - ds + 1);
                }
            }
            return None;
        }
        v = v * 10 + digit;
        k = k + 1;
    }
    assert(d.take(k - ds) =~= d);
    Some(v)
}

/// End of the line that starts at `pos`: just past its '\n', or the end of
/// `b` when no '\n' follows.
pub open spec fn line_end_from(b: Seq<u8>, pos: int) -> int
    decreases b.len() - pos,
{
    if pos >= b.len() {
        b.len() as int
    } else if b[pos] == 10 {
        pos + 1
    } else {
        line_end_from(b, pos + 1)
    }
}

/// A line ends within `b`, at or after where it starts.
pub proof fn lemma_line_end_bounds(b: Seq<u8>, pos: int)
    requires
        0 <= pos <= b.len(),
    ensures
        pos <= line_end_from(b, pos) <= b.len(),
    decreases b.len() - pos,
{
    if pos < b.len() && b[pos] != 10 {
        lemma_line_end_bounds(b, pos + 1);
    }
}

pub(crate) fn line_end(b: &[u8], pos: usize) -> (r: usize)
    requires
        pos <= b@.len(),
    ensures
        r == line_end_from(b@, pos as int),
        pos <= r <= b@.len(),
{
    let mut k: usize = pos;
    while k < b.len()
        invariant
            pos <= k <= b@.len(),
            line_end_from(b@, pos as int) == line_end_from(b@, k as int),
        decreases b@.len() - k,
    {
        if b[k] == 10 {
            return k + 1;
        }
        k = k + 1;
    }
    k
}

/// End of the second space-separated field of a line that starts with
/// "format ": the next space after position 7, or the end of the line.
pub open spec fn field_end_from(s: Seq<u8>, k: int) -> int
    decreases s.len() - k,
{
    if k >= s.len() {
        s.len() as int
    } else if s[k] == 32 {
        k
    } else {
        field_end_from(s, k + 1)
    }
}

fn field_end(s: &[u8], from: usize) -> (r: usize)
    requires
        from <= s@.len(),
    ensures
        r == field_end_from(s@, from as int),
        from <= r <= s@.len(),
{
    let mut k: usize = from;
    while k < s.len()
        invariant
            from <= k <= s@.len(),
            field_end_from(s@, from as int) == field_end_from(s@, k as int),
        decreases s@.len() - k,
    {
        if s[k] == 32 {
            return k;
        }
        k = k + 1;
    }
    k
}

/// `std::str::from_utf8`: the string whose UTF-8 encoding `v` is, when `v`
/// is valid UTF-8, and nothing otherwise.
#[verifier::external_body]
fn str_from_utf8(v: &[u8]) -> (r: Option<&str>)
    ensures
        r is Some <==> valid_utf8(v@),
        r matches Some(s) ==> encode_utf8(s@) == v@,
{
    std::str::from_utf8(v).ok()
}

/// `a` and `b` hold the same bytes.
fn bytes_eq(a: &[u8], b: &[u8]) -> (r: bool)
    ensures
        r == (a@ == b@),
{
    if a.len() != b.len() {
        return false;
    }
    let r = matches_at(a, 0, b);
    assert(a@.subrange(0, b@.len() as int) =~= a@);
    r
}

/// Lines of the header that are read before giving up on "end_header".
pub const MAX_HEADER_LINES: usize = 500;

/// The header's fields as byte strings.
pub struct HeaderFields {
    pub num_splats: usize,
    pub data_start: usize,
    pub body_offset: usize,
    pub names: Seq<Seq<u8>>,
    pub format: Seq<u8>,
}

/// Why a header could not be read, with the format as bytes.
pub enum HeaderFailure {
    InvalidText,
    BadVertexCount,
    UnsupportedFormat(Seq<u8>),
    MissingEndHeader,
}

/// What one header line does to the fields read so far.
pub enum LineEffect {
    Fail(HeaderFailure),
    End,
    Next(usize, Seq<Seq<u8>>, Seq<u8>),
}

/// The effect of header line `line`:
/// - a line that is not UTF-8 stops the reading;
/// - "element vertex N" sets the splat count (N trimmed, as
///   `usize::from_str` reads it);
/// - "format F ..." sets the format to the second space-separated field;
/// - "property float NAME" adds the trimmed name;
/// - "end_header\n" ends the header;
/// - any other line is skipped.
pub open spec fn line_effect(line: Seq<u8>, num: usize, names: Seq<Seq<u8>>, format: Seq<u8>) -> LineEffect {
    if !valid_utf8(line) {
        LineEffect::Fail(HeaderFailure::InvalidText)
    } else if starts_with(line, ELEMENT_VERTEX@) {
        match parse_usize(trim(after_last(line, ELEMENT_VERTEX@))) {
            Some(n) => LineEffect::Next(n, names, format),
            None => LineEffect::Fail(HeaderFailure::BadVertexCount),
        }
    } else if starts_with(line, FORMAT_PREFIX@) {
        let f = line.subrange(7, field_end_from(line, 7));
        if valid_utf8(f) {
            LineEffect::Next(num, names, f)
        } else {
            LineEffect::Fail(HeaderFailure::InvalidText)
        }
    } else if starts_with(line, PROPERTY_FLOAT_PREFIX@) {
        let name = trim(after_last(line, PROPERTY_FLOAT@));
        if valid_utf8(name) {
            LineEffect::Next(num, names.push(name), format)
        } else {
            LineEffect::Fail(HeaderFailure::InvalidText)
        }
    } else if line == END_HEADER@ {
        LineEffect::End
    } else {
        LineEffect::Next(num, names, format)
    }
}

/// The outcome once reading stops after `lines` lines, at byte `end`:
/// an unsupported format is reported first, then a missing "end_header".
pub open spec fn finish(found: bool, lines: int, end: int, num: usize, names: Seq<Seq<u8>>, format: Seq<u8>) -> Result<HeaderFields, HeaderFailure> {
    if format != BINARY_LITTLE_ENDIAN@ && format != BINARY_BIG_ENDIAN@ {
        Err(HeaderFailure::UnsupportedFormat(format))
    } else if !found {
        Err(HeaderFailure::MissingEndHeader)
    } else {
        Ok(HeaderFields { num_splats: num, data_start: lines as usize, body_offset: end as usize, names, format })
    }
}

/// Reading the header from line `i`, which starts at byte `pos`. Past the
/// end of `b` every line is empty.
pub open spec fn scan(b: Seq<u8>, pos: int, i: int, num: usize, names: Seq<Seq<u8>>, format: Seq<u8>) -> Result<HeaderFields, HeaderFailure>
    decreases MAX_HEADER_LINES + 1 - i,
{
    if i < 0 || i > MAX_HEADER_LINES || pos < 0 || pos > b.len() {
        Err(HeaderFailure::MissingEndHeader)
    } else {
        let e = line_end_from(b, pos);
        match line_effect(b.subrange(pos, e), num, names, format) {
            LineEffect::Fail(f) => Err(f),
            LineEffect::End => finish(true, i + 1, e, num, names, format),
            LineEffect::Next(n2, names2, format2) => if i + 1 > MAX_HEADER_LINES {
                finish(false, i + 1, e, n2, names2, format2)
            } else {
                scan(b, e, i + 1, n2, names2, format2)
            },
        }
    }
}

/// Reading the header of `b`.
pub open spec fn spec_read_header(b: Seq<u8>) -> Result<HeaderFields, HeaderFailure> {
    scan(b, 0, 0, 0, Seq::empty(), Seq::empty())
}

/// A PLY header: the number of splats, the line and byte at which the
/// binary body starts, the names of the float properties in order, and
/// the format.
#[derive(Debug)]
pub struct PlyHeader {
    pub num_splats: usize,
    pub data_start: usize,
    pub body_offset: usize,
    pub property_names: Vec<String>,
    pub format: String,
}

/// Why a header could not be read: a line that is not UTF-8, a splat
/// count that does not parse (the viewer aborts on these two), a format
/// other than binary, or no "end_header" line in time.
#[derive(Debug)]
pub enum HeaderError {
    InvalidText,
    BadVertexCount,
    UnsupportedFormat(String),
    MissingEndHeader,
}

/// `h` holds the fields `f`, its strings encoded as UTF-8.
pub open spec fn header_holds(h: PlyHeader, f: HeaderFields) -> bool {
    &&& h.num_splats == f.num_splats
    &&& h.data_start == f.data_start
    &&& h.body_offset == f.body_offset
    &&& h.property_names@.len() == f.names.len()
    &&& forall|k: int| 0 <= k < f.names.len() ==> encode_utf8(#[trigger] h.property_names@[k]@) == f.names[k]
    &&& encode_utf8(h.format@) == f.format
}

/// `e` reports the failure `f`.
pub open spec fn error_reports(e: HeaderError, f: HeaderFailure) -> bool {
    match (e, f) {
        (HeaderError::InvalidText, HeaderFailure::InvalidText) => true,
        (HeaderError::BadVertexCount, HeaderFailure::BadVertexCount) => true,
        (HeaderError::UnsupportedFormat(s), HeaderFailure::UnsupportedFormat(g)) => encode_utf8(s@) == g,
        (HeaderError::MissingEndHeader, HeaderFailure::MissingEndHeader) => true,
        _ => false,
    }
}

fn finish_header(found: bool, lines: usize, end: usize, num: usize, names: Vec<String>, format: String,
    Ghost(gnames): Ghost<Seq<Seq<u8>>>, Ghost(gformat): Ghost<Seq<u8>>) -> (r: Result<PlyHeader, HeaderError>)
    requires
        names@.len() == gnames.len(),
        forall|k: int| 0 <= k < gnames.len() ==> encode_utf8(#[trigger] names@[k]@) == gnames[k],
        encode_utf8(format@) == gformat,
    ensures
        match (r, finish(found, lines as int, end as int, num, gnames, gformat)) {
            (Ok(h), Ok(f)) => header_holds(h, f),
            (Err(e), Err(f)) => error_reports(e, f),
            _ => false,
        },
{
    let fb = format.as_str().as_bytes();
    if !bytes_eq(fb, BINARY_LITTLE_ENDIAN.as_slice()) && !bytes_eq(fb, BINARY_BIG_ENDIAN.as_slice()) {
        return Err(HeaderError::UnsupportedFormat(format));
    }
    if !found {
        return Err(HeaderError::MissingEndHeader);
    }
    Ok(PlyHeader { num_splats: num, data_start: lines, body_offset: end, property_names: names, format })
}

/// Reads the header of a binary PLY file line by line, as `spec_read_header`
/// describes: at most `MAX_HEADER_LINES + 1` lines, up to "end_header".
pub fn read_header(bytes: &[u8]) -> (r: Result<PlyHeader, HeaderError>)
    ensures
        match (r, spec_read_header(bytes@)) {
            (Ok(h), Ok(f)) => header_holds(h, f),
            (Err(e), Err(f)) => error_reports(e, f),
            _ => false,
        },
{
    let mut pos: usize = 0;
    let mut i: usize = 0;
    let mut num: usize = 0;
    let mut names: Vec<String> = Vec::new();
    let mut format: String = String::new();
    let ghost mut gnames: Seq<Seq<u8>> = Seq::empty();
    let ghost mut gformat: Seq<u8> = Seq::empty();
    assert(encode_utf8(format@) =~= gformat);
    loop
        invariant
            pos <= bytes@.len(),
            i <= MAX_HEADER_LINES,
            spec_read_header(bytes@) == scan(bytes@, pos as int, i as int, num, gnames, gformat),
            names@.len() == gnames.len(),
            forall|k: int| 0 <= k < gnames.len() ==> encode_utf8(#[trigger] names@[k]@) == gnames[k],
            encode_utf8(format@) == gformat,
        decreases MAX_HEADER_LINES - i,
    {
        let e = line_end(bytes, pos);
        let line = &bytes[pos..e];
        let ghost effect = line_effect(line@, num, gnames, gformat);
        if str_from_utf8(line).is_none() {
            return Err(HeaderError::InvalidText);
        }
        if matches_at(line, 0, ELEMENT_VERTEX.as_slice()) {
            let a = after_last_start(line, ELEMENT_VERTEX.as_slice());
            let (s, t) = trim_bounds(line, a, line.len());
            assert(line@.subrange(a as int, line@.len() as int) =~= after_last(line@, ELEMENT_VERTEX@));
            match parse_usize_at(line, s, t) {
                None => {
                    return Err(HeaderError::BadVertexCount);
                },
                Some(n) => {
                    num = n;
                },
            }
        } else if matches_at(line, 0, FORMAT_PREFIX.as_slice()) {
            let fe = field_end(line, 7);
            match str_from_utf8(&line[7..fe]) {
                None => {
                    return Err(HeaderError::InvalidText);
                },
                Some(f) => {
                    format = String::from_str(f);
                    proof {
                        gformat = line@.subrange(7, fe as int);
                    }
                },
            }
        } else if matches_at(line, 0, PROPERTY_FLOAT_PREFIX.as_slice()) {
            assert(line@.subrange(0, 14) =~= line@.subrange(0, 15).subrange(0, 14));
            assert(PROPERTY_FLOAT@ =~= PROPERTY_FLOAT_PREFIX@.subrange(0, 14));
            let a = after_last_start(line, PROPERTY_FLOAT.as_slice());
            let (s, t) = trim_bounds(line, a, line.len());
            assert(line@.subrange(a as int, line@.len() as int) =~= after_last(line@, PROPERTY_FLOAT@));
            match str_from_utf8(&line[s..t]) {
                None => {
                    return Err(HeaderError::InvalidText);
                },
                Some(name) => {
                    names.push(String::from_str(name));
                    proof {
                        gnames = gnames.push(line@.subrange(s as int, t as int));
                    }
                },
            }
        } else if bytes_eq(line, END_HEADER.as_slice()) {
            return finish_header(true, i + 1, e, num, names, format, Ghost(gnames), Ghost(gformat));
        }
        assert(effect == LineEffect::Next(num, gnames, gformat));
        if i + 1 > MAX_HEADER_LINES {
            return finish_header(false, i + 1, e, num, names, format, Ghost(gnames), Ghost(gformat));
        }
        i = i + 1;
        pos = e;
    }
}

/// The header announces a little-endian body.
pub open spec fn is_little_endian(h: PlyHeader) -> bool {
    encode_utf8(h.format@) == BINARY_LITTLE_ENDIAN@
}

/// The 32-bit word at `off`, in the body's byte order.
pub open spec fn body_word(b: Seq<u8>, off: int, little: bool) -> u32 {
    if little {
        le_u32_at(b, off)
    } else {
        be_u32_at(b, off)
    }
}

/// Reads the body: for each splat, the bit pattern of each float property,
/// in the header's order and byte order (little-endian when the format is
/// "binary_little_endian", big-endian otherwise).
pub fn read_body(bytes: &[u8], header: &PlyHeader) -> (r: Vec<Vec<u32>>)
    requires
        header.body_offset + 4 * (header.num_splats * header.property_names@.len()) <= bytes@.len(),
    ensures
        r@.len() == header.num_splats,
        forall|i: int| 0 <= i < header.num_splats ==> (#[trigger] r@[i])@.len() == header.property_names@.len(),
        forall|i: int, j: int|
            0 <= i < header.num_splats && 0 <= j < header.property_names@.len() ==> #[trigger] r@[i]@[j]
                == body_word(
                bytes@,
                header.body_offset + 4 * (header.property_names@.len() * i + j),
                is_little_endian(*header),
            ),
{
    let little = bytes_eq(header.format.as_str().as_bytes(), BINARY_LITTLE_ENDIAN.as_slice());
    let n = header.num_splats;
    let m = header.property_names.len();
    let start = header.body_offset;
    let mut rows: Vec<Vec<u32>> = Vec::new();
    let mut off: usize = start;
    let mut i: usize = 0;
    while i < n
        invariant
            n == header.num_splats,
            m == header.property_names@.len(),
            start == header.body_offset,
            little == is_little_endian(*header),
            start + 4 * (n * m) <= bytes@.len(),
            i <= n,
            off == start + 4 * (m * i),
            rows@.len() == i,
            forall|a: int| 0 <= a < i ==> (#[trigger] rows@[a])@.len() == m,
            forall|a: int, j: int|
                0 <= a < i && 0 <= j < m ==> #[trigger] rows@[a]@[j] == body_word(bytes@, start + 4 * (m * a + j), little),
        decreases n - i,
    {
        let mut row: Vec<u32> = Vec::new();
        let mut j: usize = 0;
        while j < m
            invariant
                n == header.num_splats,
                m == header.property_names@.len(),
                start + 4 * (n * m) <= bytes@.len(),
                bytes@.len() == bytes.len(),
                i < n,
                j <= m,
                off == start + 4 * (m * i + j),
                row@.len() == j,
                forall|c: int| 0 <= c < j ==> #[trigger] row@[c] == body_word(bytes@, start + 4 * (m * i + c), little),
            decreases m - j,
        {
            assert(m * i + j + 1 <= n * m) by (nonlinear_arith)
                requires
                    i < n,
                    j < m,
            {
                assert(m * i + m <= m * n);
            }
            let w: u32 = if little {
                read_u32_le(bytes, off)
            } else {
                read_u32_be(bytes, off)
            };
            row.push(w);
            off = off + 4;
            j = j + 1;
        }
        assert(m * i + m == m * (i + 1)) by (nonlinear_arith);
        rows.push(row);
        i = i + 1;
    }
    rows
}

} // verus!
